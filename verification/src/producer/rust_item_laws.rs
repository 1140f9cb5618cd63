//! Which items a Rust file gives, declaration by declaration: what each is
//! called, what it belongs to, and how it reads.

use vstd::prelude::*;

use crate::item::{ItemModel, Kind};
use crate::layout;
use crate::producer::refs;
use crate::producer::rust::{self, Members};
use crate::producer::syntax::{self, ChildModel, Grammar, SyntaxModel};
use crate::producer::tree_laws::is_item;
use crate::text;

verus! {

/// The kinds of node differ.
proof fn lemma_kinds()
    ensures
        "struct_item"@ != "function_item"@,
        "enum_item"@ != "function_item"@,
        "enum_item"@ != "struct_item"@,
        "trait_item"@ != "function_item"@,
        "trait_item"@ != "struct_item"@,
        "trait_item"@ != "enum_item"@,
        "type_item"@ != "function_item"@,
        "type_item"@ != "struct_item"@,
        "type_item"@ != "enum_item"@,
        "type_item"@ != "trait_item"@,
        "const_item"@ != "function_item"@,
        "const_item"@ != "struct_item"@,
        "const_item"@ != "enum_item"@,
        "const_item"@ != "trait_item"@,
        "const_item"@ != "type_item"@,
        "static_item"@ != "function_item"@,
        "static_item"@ != "struct_item"@,
        "static_item"@ != "enum_item"@,
        "static_item"@ != "trait_item"@,
        "static_item"@ != "type_item"@,
        "static_item"@ != "const_item"@,
        "impl_item"@ != "function_item"@,
        "impl_item"@ != "struct_item"@,
        "impl_item"@ != "enum_item"@,
        "impl_item"@ != "trait_item"@,
        "impl_item"@ != "type_item"@,
        "impl_item"@ != "const_item"@,
        "impl_item"@ != "static_item"@,
        "ordered_field_declaration_list"@ != "field_declaration_list"@,
        "associated_type"@ != "function_item"@,
        "associated_type"@ != "function_signature_item"@,
        "const_item"@ != "function_signature_item"@,
        "const_item"@ != "associated_type"@,
        "visibility_modifier"@ != "line_comment"@,
        "visibility_modifier"@ != "block_comment"@,
{
    reveal_strlit("function_item");
    reveal_strlit("struct_item");
    reveal_strlit("enum_item");
    reveal_strlit("trait_item");
    reveal_strlit("type_item");
    reveal_strlit("const_item");
    reveal_strlit("static_item");
    reveal_strlit("impl_item");
    reveal_strlit("ordered_field_declaration_list");
    reveal_strlit("field_declaration_list");
    reveal_strlit("associated_type");
    reveal_strlit("function_signature_item");
    reveal_strlit("visibility_modifier");
    reveal_strlit("line_comment");
    reveal_strlit("block_comment");
    assert("function_item"@[0] == 'f' && "enum_item"@[0] == 'e' && "const_item"@[0] == 'c');
    assert("struct_item"@[0] == 's' && "struct_item"@[2] == 'r');
    assert("static_item"@[0] == 's' && "static_item"@[2] == 'a');
    assert("trait_item"@[0] == 't' && "trait_item"@[1] == 'r');
    assert("type_item"@[0] == 't' && "type_item"@[1] == 'y');
    assert("impl_item"@[0] == 'i');
    assert("ordered_field_declaration_list"@[0] == 'o' && "field_declaration_list"@[0] == 'f');
    assert("associated_type"@[0] == 'a' && "function_signature_item"@[0] == 'f');
    assert("visibility_modifier"@[0] == 'v' && "line_comment"@[0] == 'l');
    assert("block_comment"@[0] == 'b');
}

/// Two colons.
proof fn lemma_colons()
    ensures
        "::"@ == seq![':', ':'],
{
    reveal_strlit("::");
    assert("::"@ =~= seq![':', ':']);
}

/// Whether a character is dropped from the end of a signature.
pub open spec fn loose(c: char) -> bool {
    c == ';' || c == '=' || c == '{' || text::white_space(c)
}

/// A signature is its text with whitespace collapsed, up to the last character
/// that is no `;`, `=`, `{` or whitespace.
pub proof fn law_signatures_end_tight(raw: Seq<char>)
    ensures
        ({
            let words = text::collapsed(raw);
            let tight = rust::tidy(raw);
            &&& tight.len() <= words.len()
            &&& tight == words.take(tight.len() as int)
            &&& tight.len() > 0 ==> !loose(tight.last())
            &&& forall|i: int| tight.len() <= i < words.len() ==> loose(#[trigger] words[i])
        }),
{
    lemma_tail(text::collapsed(raw));
}

/// What is left of a text without the loose characters at its end.
proof fn lemma_tail(words: Seq<char>)
    ensures
        ({
            let tight = text::without_tail(words, |c: char| rust::trailing(c));
            &&& tight.len() <= words.len()
            &&& tight == words.take(tight.len() as int)
            &&& tight.len() > 0 ==> !loose(tight.last())
            &&& forall|i: int| tight.len() <= i < words.len() ==> loose(#[trigger] words[i])
        }),
    decreases words.len(),
{
    let drop = |c: char| rust::trailing(c);
    let tight = text::without_tail(words, drop);
    if words.len() > 0 && rust::trailing(words.last()) {
        let rest = words.drop_last();
        lemma_tail(rest);
        assert(tight == text::without_tail(rest, drop));
        assert(words.take(tight.len() as int) =~= rest.take(tight.len() as int));
        assert forall|i: int| tight.len() <= i < words.len() implies loose(#[trigger] words[i]) by {
            if i < rest.len() {
                assert(rest[i] == words[i]);
            }
        }
    } else {
        assert(words.take(words.len() as int) =~= words);
    }
}

/// Where what fills a field starts, if anything does.
pub open spec fn start(node: SyntaxModel, field: Seq<char>) -> Option<nat> {
    match syntax::child_in(node, field) {
        Some(child) => Some(child.start),
        None => None,
    }
}

/// The text of a declaration from its start up to a cut, or to its end if there
/// is none.
pub open spec fn text_upto(node: SyntaxModel, source: Seq<char>, cut: Option<nat>) -> Seq<char> {
    match cut {
        Some(at) => text::byte_text(source, node.start as int, at as int),
        None => text::byte_text(source, node.start as int, node.end as int),
    }
}

/// Whether the first of the items is the declaration's own: of the kind, called
/// by its name, and without a parent. It reads as the declaration up to the cut
/// and references what is mentioned there, a type not itself. Without a name
/// there are no items.
pub open spec fn own_first(
    items: Seq<ItemModel>,
    node: SyntaxModel,
    source: Seq<char>,
    path: Seq<char>,
    kind: Kind,
    cut: Option<nat>,
    is_type: bool,
) -> bool {
    match syntax::child_in(node, "name"@) {
        None => items.len() == 0,
        Some(name) => {
            let called = syntax::node_text(name, source);
            &&& items.len() > 0
            &&& is_item(items[0], path, kind, called, None, node)
            &&& items[0].signature == rust::tidy(text_upto(node, source, cut))
            &&& items[0].refs == refs::refs_in(
                Grammar::Rust,
                node,
                source,
                cut,
                if is_type {
                    Some(called)
                } else {
                    None
                },
            )
        },
    }
}

/// Functions, structs, enums, traits, type aliases, constants and statics each
/// give an item of their own first: what has a body reads up to it, what has a
/// value up to that. Functions, aliases, constants and statics give nothing
/// else.
pub proof fn law_rust_declarations_give_their_item(
    node: SyntaxModel,
    source: Seq<char>,
    path: Seq<char>,
)
    ensures
        ({
            let items = rust::declaration_items(node, source, path);
            let body = start(node, "body"@);
            let value = start(node, "value"@);
            &&& node.kind == "function_item"@ ==> items.len() <= 1 && own_first(
                items,
                node,
                source,
                path,
                Kind::Function,
                body,
                false,
            )
            &&& node.kind == "struct_item"@ ==> own_first(
                items,
                node,
                source,
                path,
                Kind::Struct,
                body,
                true,
            )
            &&& node.kind == "enum_item"@ ==> own_first(
                items,
                node,
                source,
                path,
                Kind::Enum,
                body,
                true,
            )
            &&& node.kind == "trait_item"@ ==> own_first(
                items,
                node,
                source,
                path,
                Kind::Trait,
                body,
                true,
            )
            &&& node.kind == "type_item"@ ==> items.len() <= 1 && own_first(
                items,
                node,
                source,
                path,
                Kind::TypeAlias,
                None,
                true,
            )
            &&& node.kind == "const_item"@ ==> items.len() <= 1 && own_first(
                items,
                node,
                source,
                path,
                Kind::Const,
                value,
                false,
            )
            &&& node.kind == "static_item"@ ==> items.len() <= 1 && own_first(
                items,
                node,
                source,
                path,
                Kind::Static,
                value,
                false,
            )
        }),
{
    lemma_kinds();
}

/// Whether an item is a member's: called `qualified`, of the parent, and reading
/// as the member up to the cut with `qualified` in place of its bare name. It
/// references what is mentioned there, its parent aside.
pub open spec fn is_member(
    item: ItemModel,
    node: SyntaxModel,
    name: SyntaxModel,
    source: Seq<char>,
    path: Seq<char>,
    kind: Kind,
    parent: Seq<char>,
    qualified: Seq<char>,
    cut: Option<nat>,
) -> bool {
    let end = match cut {
        Some(at) => at,
        None => node.end,
    };
    &&& is_item(item, path, kind, qualified, Some(parent), node)
    &&& item.signature == rust::tidy(
        text::byte_text(source, node.start as int, name.start as int) + qualified
            + text::byte_text(source, name.end as int, end as int),
    )
    &&& item.refs == refs::refs_in(Grammar::Rust, node, source, cut, Some(parent))
}

/// Where a member's tail starts: its body, or else its value.
pub open spec fn tail(node: SyntaxModel) -> Option<nat> {
    match start(node, "body"@) {
        Some(at) => Some(at),
        None => start(node, "value"@),
    }
}

/// The kind of a member of a composite, if it is one.
pub open spec fn kind_of_member(node: SyntaxModel, what: Members) -> Option<Kind> {
    match what {
        Members::Fields => if node.kind == "field_declaration"@ {
            Some(Kind::Field)
        } else {
            None
        },
        Members::Variants => if node.kind == "enum_variant"@ {
            Some(Kind::Variant)
        } else {
            None
        },
        Members::TraitMembers => if node.kind == "function_item"@ || node.kind
            == "function_signature_item"@ {
            Some(Kind::TraitMethod)
        } else if node.kind == "associated_type"@ {
            Some(Kind::AssocType)
        } else if node.kind == "const_item"@ {
            Some(Kind::Const)
        } else {
            None
        },
    }
}

/// A member of a struct, an enum or a trait gives one item, called
/// `Parent::member` and with that parent; fields and variants read whole, trait
/// members up to a body or a value. What is no member, or has no name, gives
/// none.
pub proof fn law_rust_members_give_their_item(
    node: SyntaxModel,
    source: Seq<char>,
    path: Seq<char>,
    parent: Seq<char>,
    what: Members,
)
    ensures
        ({
            let items = rust::listed_items(node, source, path, parent, what);
            match (kind_of_member(node, what), syntax::child_in(node, "name"@)) {
                (Some(kind), Some(name)) => items.len() == 1 && is_member(
                    items[0],
                    node,
                    name,
                    source,
                    path,
                    kind,
                    parent,
                    parent + seq![':', ':'] + syntax::node_text(name, source),
                    if what == Members::TraitMembers {
                        tail(node)
                    } else {
                        None
                    },
                ),
                _ => items.len() == 0,
            }
        }),
{
    lemma_kinds();
    lemma_colons();
}

/// The kind of a member of an impl, if it is one.
pub open spec fn kind_in_impl(node: SyntaxModel) -> Option<Kind> {
    if node.kind == "function_item"@ {
        Some(Kind::Method)
    } else if node.kind == "const_item"@ {
        Some(Kind::Const)
    } else if node.kind == "type_item"@ {
        Some(Kind::AssocType)
    } else {
        None
    }
}

/// A member of an impl gives one item, which belongs to the type that the impl
/// is for, whether the impl is of a trait or not: it is called `Type::member`,
/// or `<Type as Trait>::member` if it is of one. What is no member, or has no
/// name, gives none.
pub proof fn law_rust_impl_members_give_their_item(
    node: SyntaxModel,
    source: Seq<char>,
    path: Seq<char>,
    base: Seq<char>,
    of_name: Option<Seq<char>>,
)
    ensures
        ({
            let items = rust::impl_member_items(node, source, path, base, of_name);
            match (kind_in_impl(node), syntax::child_in(node, "name"@)) {
                (Some(kind), Some(name)) => {
                    let called = syntax::node_text(name, source);
                    items.len() == 1 && is_member(
                        items[0],
                        node,
                        name,
                        source,
                        path,
                        kind,
                        base,
                        match of_name {
                            None => base + seq![':', ':'] + called,
                            Some(of) => "<"@ + base + " as "@ + of + ">::"@ + called,
                        },
                        tail(node),
                    )
                },
                _ => items.len() == 0,
            }
        }),
{
    lemma_kinds();
    lemma_colons();
}

/// Every item that an impl gives has the type that the impl is for as its
/// parent, whether the impl is of a trait or not. The impl gives the items of
/// what stands in its body, one after the other, and nothing else; an impl for
/// no type, or without a body, gives none.
pub proof fn law_rust_impls_extend_their_type(
    node: SyntaxModel,
    source: Seq<char>,
    path: Seq<char>,
)
    requires
        node.kind == "impl_item"@,
    ensures
        ({
            let items = rust::declaration_items(node, source, path);
            match (syntax::child_in(node, "type"@), syntax::child_in(node, "body"@)) {
                (Some(ty), Some(body)) => match rust::base_type(ty, source) {
                    None => items.len() == 0,
                    Some(base) => {
                        let of = match syntax::child_in(node, "trait"@) {
                            Some(tr) => rust::base_type(tr, source),
                            None => None,
                        };
                        &&& forall|k: int|
                            0 <= k < items.len() ==> (#[trigger] items[k]).parent == Some(base)
                        &&& layout::in_turn(
                            items,
                            |i: int|
                                rust::impl_member_items(
                                    body.children[i].node,
                                    source,
                                    path,
                                    base,
                                    of,
                                ),
                            body.children.len() as int,
                        )
                    },
                },
                _ => items.len() == 0,
            }
        }),
{
    lemma_kinds();
    if let (Some(ty), Some(body)) = (
        syntax::child_in(node, "type"@),
        syntax::child_in(node, "body"@),
    ) {
        if let Some(base) = rust::base_type(ty, source) {
            let of = rust::impl_trait(node, source);
            lemma_impl(body, source, path, base, of, body.children.len() as int);
        }
    }
}

/// The first `n` members of an impl.
proof fn lemma_impl(
    body: SyntaxModel,
    source: Seq<char>,
    path: Seq<char>,
    base: Seq<char>,
    of_name: Option<Seq<char>>,
    n: int,
)
    requires
        0 <= n <= body.children.len(),
    ensures
        layout::in_turn(
            rust::impl_upto(body, source, path, base, of_name, n),
            |i: int|
                rust::impl_member_items(body.children[i].node, source, path, base, of_name),
            n,
        ),
        forall|k: int|
            0 <= k < rust::impl_upto(body, source, path, base, of_name, n).len() ==> (
            #[trigger] rust::impl_upto(body, source, path, base, of_name, n)[k]).parent == Some(
                base,
            ),
    decreases n,
{
    let piece = |i: int|
        rust::impl_member_items(body.children[i].node, source, path, base, of_name);
    if n == 0 {
        layout::lemma_no_pieces(piece);
    } else {
        lemma_impl(body, source, path, base, of_name, n - 1);
        layout::lemma_one_more(
            rust::impl_upto(body, source, path, base, of_name, n - 1),
            piece,
            n - 1,
        );
    }
}

/// The type that an impl is for is the first type identifier in what it names,
/// paths, references and arguments aside: a type identifier is its own, and any
/// other node has that of the first of its children that has one.
pub proof fn law_base_types_are_the_first_named(node: SyntaxModel, source: Seq<char>, i: int)
    ensures
        node.kind == "type_identifier"@ ==> rust::base_type(node, source) == Some(
            syntax::node_text(node, source),
        ),
        node.kind != "type_identifier"@ && 0 <= i < node.children.len() && rust::base_type(
            node.children[i].node,
            source,
        ) is Some && no_base_before(node, source, i) ==> rust::base_type(node, source)
            == rust::base_type(node.children[i].node, source),
        node.kind != "type_identifier"@ && no_base_before(node, source, node.children.len() as int)
            ==> rust::base_type(node, source) is None,
{
    let n = node.children.len() as int;
    if node.kind != "type_identifier"@ {
        if 0 <= i < n && no_base_before(node, source, i) {
            lemma_base(node, source, i);
        }
        if no_base_before(node, source, n) {
            lemma_base(node, source, n);
        }
    }
}

/// Whether none of the first `i` children has a base type.
pub open spec fn no_base_before(node: SyntaxModel, source: Seq<char>, i: int) -> bool {
    forall|j: int|
        0 <= j < i ==> rust::base_type((#[trigger] node.children[j]).node, source) is None
}

/// Children without a base type are passed over.
proof fn lemma_base(node: SyntaxModel, source: Seq<char>, i: int)
    requires
        0 <= i <= node.children.len(),
        no_base_before(node, source, i),
    ensures
        rust::base_type_from(node, source, node.children.len() as int) == rust::base_type_from(
            node,
            source,
            node.children.len() - i,
        ),
    decreases i,
{
    if i > 0 {
        lemma_base(node, source, i - 1);
        assert(rust::base_type(node.children[i - 1].node, source) is None);
    }
}

/// After its own item a struct with named fields gives those of its fields, an
/// enum those of its variants, a trait those of its members: all that are named
/// in its body, one after the other, and nothing else. Each has the struct, enum
/// or trait as its parent.
pub proof fn law_rust_members_belong_to_their_type(
    node: SyntaxModel,
    source: Seq<char>,
    path: Seq<char>,
    name: SyntaxModel,
    body: SyntaxModel,
    what: Members,
)
    requires
        syntax::child_in(node, "name"@) == Some(name),
        syntax::child_in(node, "body"@) == Some(body),
        match what {
            Members::Fields => node.kind == "struct_item"@ && body.kind
                == "field_declaration_list"@,
            Members::Variants => node.kind == "enum_item"@,
            Members::TraitMembers => node.kind == "trait_item"@,
        },
    ensures
        ({
            let items = rust::declaration_items(node, source, path);
            let called = syntax::node_text(name, source);
            let members = syntax::named_of(body);
            &&& forall|k: int|
                1 <= k < items.len() ==> (#[trigger] items[k]).parent == Some(called)
            &&& layout::in_turn(
                items.skip(1),
                |i: int| rust::listed_items(members[i], source, path, called, what),
                members.len() as int,
            )
        }),
{
    lemma_kinds();
    let items = rust::declaration_items(node, source, path);
    let called = syntax::node_text(name, source);
    let members = syntax::named_of(body);
    let n = members.len() as int;
    let rest = rust::members_upto(members, source, path, called, what, n);
    lemma_members(members, source, path, called, what, n);
    assert(items.skip(1) =~= rest);
    assert forall|k: int| 1 <= k < items.len() implies (#[trigger] items[k]).parent == Some(
        called,
    ) by {
        assert(items[k] == rest[k - 1]);
    }
}

/// The first `n` members of a composite.
proof fn lemma_members(
    list: Seq<SyntaxModel>,
    source: Seq<char>,
    path: Seq<char>,
    parent: Seq<char>,
    what: Members,
    n: int,
)
    requires
        0 <= n <= list.len(),
    ensures
        layout::in_turn(
            rust::members_upto(list, source, path, parent, what, n),
            |i: int| rust::listed_items(list[i], source, path, parent, what),
            n,
        ),
        forall|k: int|
            0 <= k < rust::members_upto(list, source, path, parent, what, n).len() ==> (
            #[trigger] rust::members_upto(list, source, path, parent, what, n)[k]).parent == Some(
                parent,
            ),
    decreases n,
{
    let piece = |i: int| rust::listed_items(list[i], source, path, parent, what);
    if n == 0 {
        layout::lemma_no_pieces(piece);
    } else {
        lemma_members(list, source, path, parent, what, n - 1);
        layout::lemma_one_more(
            rust::members_upto(list, source, path, parent, what, n - 1),
            piece,
            n - 1,
        );
    }
}

/// A composite without a body gives its own item alone.
pub proof fn law_rust_composites_without_a_body_have_no_members(
    node: SyntaxModel,
    source: Seq<char>,
    path: Seq<char>,
)
    requires
        node.kind == "struct_item"@ || node.kind == "enum_item"@ || node.kind == "trait_item"@,
        syntax::child_in(node, "body"@) is None,
    ensures
        rust::declaration_items(node, source, path).len() <= 1,
{
    lemma_kinds();
}

/// Whether a tuple field's visibility is the one at `j`: a visibility, with
/// nothing but comments between it and the field.
pub open spec fn guards(children: Seq<ChildModel>, j: int, at: int) -> bool {
    &&& 0 <= j < at
    &&& children[j].node.kind == "visibility_modifier"@
    &&& forall|k: int|
        j < k < at ==> (#[trigger] children[k]).node.kind == "line_comment"@ || children[k].node.kind
            == "block_comment"@
}

/// The visibility of a tuple field is the one right before it, comments aside.
pub proof fn law_tuple_visibility_stands_before(children: Seq<ChildModel>, at: int)
    requires
        0 <= at <= children.len(),
    ensures
        match rust::visibility_before(children, at) {
            Some(visibility) => exists|j: int| #[trigger]
                guards(children, j, at) && visibility == children[j].node,
            None => forall|j: int| !#[trigger] guards(children, j, at),
        },
    decreases at,
{
    lemma_kinds();
    if at > 0 {
        law_tuple_visibility_stands_before(children, at - 1);
        let last = children[at - 1].node;
        if rust::is_comment(last) {
            if rust::visibility_before(children, at - 1) is Some {
                let j = choose|j: int| #[trigger]
                    guards(children, j, at - 1) && rust::visibility_before(children, at - 1)
                        == Some(children[j].node);
                assert(guards(children, j, at));
            } else {
                assert forall|j: int| !#[trigger] guards(children, j, at) by {
                    if guards(children, j, at) {
                        assert(j != at - 1);
                        assert(guards(children, j, at - 1));
                    }
                }
            }
        } else if last.kind == "visibility_modifier"@ {
            assert(guards(children, at - 1, at));
        } else {
            assert forall|j: int| !#[trigger] guards(children, j, at) by {
                if guards(children, j, at) {
                    if j < at - 1 {
                        assert(children[at - 1].node.kind == "line_comment"@
                            || children[at - 1].node.kind == "block_comment"@);
                    }
                }
            }
        }
    }
}

/// Whether an item is that of the tuple field at `at`, field `index`: called
/// `Struct::index`, of the struct, and reading as that and its type, after its
/// visibility if it has one.
pub open spec fn is_tuple_field(
    item: ItemModel,
    children: Seq<ChildModel>,
    source: Seq<char>,
    path: Seq<char>,
    parent: Seq<char>,
    at: int,
    index: nat,
) -> bool {
    let node = children[at].node;
    let called = parent + seq![':', ':'] + text::decimal(index);
    let plain = called + seq![':', ' '] + rust::tidy(syntax::node_text(node, source));
    &&& is_item(item, path, Kind::Field, called, Some(parent), node)
    &&& item.refs == refs::refs_in(Grammar::Rust, node, source, None, Some(parent))
    &&& item.signature == match rust::visibility_before(children, at) {
        Some(visibility) => syntax::node_text(visibility, source) + seq![' '] + plain,
        None => plain,
    }
}

/// A tuple struct gives, after its own item, one item per field, in order: its
/// fields are the children of its body that fill `type`, whatever stands between
/// them. The result tells which child each item is of.
pub proof fn law_rust_tuple_fields_give_their_item(
    node: SyntaxModel,
    source: Seq<char>,
    path: Seq<char>,
    name: SyntaxModel,
    body: SyntaxModel,
) -> (from: Seq<int>)
    requires
        node.kind == "struct_item"@,
        syntax::child_in(node, "name"@) == Some(name),
        syntax::child_in(node, "body"@) == Some(body),
        body.kind == "ordered_field_declaration_list"@,
    ensures
        ({
            let items = rust::declaration_items(node, source, path);
            let called = syntax::node_text(name, source);
            &&& items.len() == from.len() + 1
            &&& forall|k: int|
                0 <= k < from.len() ==> 0 <= #[trigger] from[k] < body.children.len()
                    && body.children[from[k]].field == Some("type"@) && is_tuple_field(
                    items[k + 1],
                    body.children,
                    source,
                    path,
                    called,
                    from[k],
                    k as nat,
                )
            &&& forall|j: int, k: int| 0 <= j < k < from.len() ==> from[j] < from[k]
            &&& forall|i: int|
                0 <= i < body.children.len() && (#[trigger] body.children[i]).field == Some(
                    "type"@,
                ) ==> from.contains(i)
        }),
{
    lemma_kinds();
    let items = rust::declaration_items(node, source, path);
    let called = syntax::node_text(name, source);
    let n = body.children.len() as int;
    let from = lemma_tuple(body.children, source, path, called, n);
    let rest = rust::tuple_upto(body.children, source, path, called, n);
    assert forall|k: int| 0 <= k < from.len() implies 0 <= #[trigger] from[k]
        < body.children.len() && body.children[from[k]].field == Some("type"@) && is_tuple_field(
        items[k + 1],
        body.children,
        source,
        path,
        called,
        from[k],
        k as nat,
    ) by {
        assert(items[k + 1] == rest[k]);
    }
    from
}

/// The tuple fields among the first `n` children.
proof fn lemma_tuple(
    children: Seq<ChildModel>,
    source: Seq<char>,
    path: Seq<char>,
    parent: Seq<char>,
    n: int,
) -> (from: Seq<int>)
    requires
        0 <= n <= children.len(),
    ensures
        ({
            let items = rust::tuple_upto(children, source, path, parent, n);
            &&& items.len() == from.len()
            &&& forall|k: int|
                0 <= k < from.len() ==> 0 <= #[trigger] from[k] < n && children[from[k]].field
                    == Some("type"@) && is_tuple_field(
                    items[k],
                    children,
                    source,
                    path,
                    parent,
                    from[k],
                    k as nat,
                )
            &&& forall|j: int, k: int| 0 <= j < k < from.len() ==> from[j] < from[k]
            &&& forall|i: int|
                0 <= i < n && (#[trigger] children[i]).field == Some("type"@) ==> from.contains(i)
        }),
    decreases n,
{
    lemma_colons();
    reveal_strlit(": ");
    reveal_strlit(" ");
    assert(": "@ =~= seq![':', ' ']);
    assert(" "@ =~= seq![' ']);
    if n <= 0 {
        seq![]
    } else {
        let before = lemma_tuple(children, source, path, parent, n - 1);
        let had = rust::tuple_upto(children, source, path, parent, n - 1);
        let items = rust::tuple_upto(children, source, path, parent, n);
        if children[n - 1].field == Some("type"@) {
            let from = before.push(n - 1);
            assert forall|k: int| 0 <= k < from.len() implies 0 <= #[trigger] from[k] < n
                && children[from[k]].field == Some("type"@) && is_tuple_field(
                items[k],
                children,
                source,
                path,
                parent,
                from[k],
                k as nat,
            ) by {
                if k < before.len() {
                    assert(from[k] == before[k]);
                    assert(items[k] == had[k]);
                }
            }
            assert forall|i: int|
                0 <= i < n && (#[trigger] children[i]).field == Some("type"@) implies from.contains(
                i,
            ) by {
                if i < n - 1 {
                    let k = choose|k: int| 0 <= k < before.len() && before[k] == i;
                    assert(from[k] == i);
                } else {
                    assert(from[before.len() as int] == i);
                }
            }
            from
        } else {
            before
        }
    }
}

/// A file gives the items of its declarations, one after the other. Nothing but
/// functions, structs, enums, traits, type aliases, constants, statics and impls
/// gives any.
pub proof fn law_rust_files_give_their_declarations(
    root: SyntaxModel,
    source: Seq<char>,
    path: Seq<char>,
)
    ensures
        layout::in_turn(
            rust::file_items(root, source, path),
            |i: int| rust::declaration_items(root.children[i].node, source, path),
            root.children.len() as int,
        ),
        forall|i: int|
            0 <= i < root.children.len() && !declares_something(
                (#[trigger] root.children[i]).node,
            ) ==> rust::declaration_items(root.children[i].node, source, path).len() == 0,
{
    lemma_file(root, source, path, root.children.len() as int);
}

/// Whether a node declares something.
pub open spec fn declares_something(node: SyntaxModel) -> bool {
    node.kind == "function_item"@ || node.kind == "struct_item"@ || node.kind == "enum_item"@
        || node.kind == "trait_item"@ || node.kind == "type_item"@ || node.kind == "const_item"@
        || node.kind == "static_item"@ || node.kind == "impl_item"@
}

/// The first `n` declarations.
proof fn lemma_file(root: SyntaxModel, source: Seq<char>, path: Seq<char>, n: int)
    requires
        0 <= n <= root.children.len(),
    ensures
        layout::in_turn(
            rust::items_upto(root, source, path, n),
            |i: int| rust::declaration_items(root.children[i].node, source, path),
            n,
        ),
    decreases n,
{
    let piece = |i: int| rust::declaration_items(root.children[i].node, source, path);
    if n == 0 {
        layout::lemma_no_pieces(piece);
    } else {
        lemma_file(root, source, path, n - 1);
        layout::lemma_one_more(rust::items_upto(root, source, path, n - 1), piece, n - 1);
    }
}

} // verus!
