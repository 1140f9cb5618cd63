//! Which items a Go file gives, declaration by declaration: what each is called,
//! what it belongs to, and how it reads.

use vstd::prelude::*;

use crate::item::{ItemModel, Kind};
use crate::layout;
use crate::producer::go::{self, Binding};
use crate::producer::refs;
use crate::producer::syntax::{self, Grammar, SyntaxModel};
use crate::producer::tree_laws::is_item;
use crate::text;

verus! {

/// The kinds of node differ.
proof fn lemma_kinds()
    ensures
        "method_declaration"@ != "function_declaration"@,
        "type_declaration"@ != "function_declaration"@,
        "type_declaration"@ != "method_declaration"@,
        "const_declaration"@ != "function_declaration"@,
        "const_declaration"@ != "method_declaration"@,
        "const_declaration"@ != "type_declaration"@,
        "var_declaration"@ != "function_declaration"@,
        "var_declaration"@ != "method_declaration"@,
        "var_declaration"@ != "type_declaration"@,
        "var_declaration"@ != "const_declaration"@,
        "struct_type"@ != "interface_type"@,
        "method_elem"@ != "type_elem"@,
        "var_spec_list"@ != "const_spec"@,
        "var_spec_list"@ != "var_spec"@,
{
    reveal_strlit("function_declaration");
    reveal_strlit("method_declaration");
    reveal_strlit("type_declaration");
    reveal_strlit("const_declaration");
    reveal_strlit("var_declaration");
    reveal_strlit("struct_type");
    reveal_strlit("interface_type");
    reveal_strlit("method_elem");
    reveal_strlit("type_elem");
    reveal_strlit("var_spec_list");
    reveal_strlit("const_spec");
    reveal_strlit("var_spec");
    assert("function_declaration"@[0] == 'f' && "method_declaration"@[0] == 'm');
    assert("type_declaration"@[0] == 't' && "const_declaration"@[0] == 'c');
    assert("var_declaration"@[0] == 'v');
    assert("struct_type"@[0] == 's' && "interface_type"@[0] == 'i');
    assert("method_elem"@[0] == 'm' && "type_elem"@[0] == 't');
    assert("var_spec_list"@.len() != "var_spec"@.len());
    assert("var_spec_list"@[0] == 'v' && "const_spec"@[0] == 'c');
}

/// The text of a declaration up to its body, or to its end if it has none.
pub open spec fn text_before_body(node: SyntaxModel, source: Seq<char>) -> Seq<char> {
    match syntax::child_in(node, "body"@) {
        Some(body) => text::byte_text(source, node.start as int, body.start as int),
        None => text::byte_text(source, node.start as int, node.end as int),
    }
}

/// Where a declaration's body starts, if it has one.
pub open spec fn start_of_body(node: SyntaxModel) -> Option<nat> {
    match syntax::child_in(node, "body"@) {
        Some(body) => Some(body.start),
        None => None,
    }
}

/// A function gives one item, of its own name and without a parent; it reads as
/// it stands up to the body, and references what it mentions there. Without a
/// name it gives none.
pub proof fn law_go_functions_give_their_item(
    node: SyntaxModel,
    source: Seq<char>,
    path: Seq<char>,
)
    requires
        node.kind == "function_declaration"@,
    ensures
        ({
            let items = go::declaration_items(node, source, path);
            match syntax::child_in(node, "name"@) {
                None => items.len() == 0,
                Some(name) => items.len() == 1 && is_item(
                    items[0],
                    path,
                    Kind::Function,
                    syntax::node_text(name, source),
                    None,
                    node,
                ) && items[0].signature == text::trimmed(text_before_body(node, source))
                    && items[0].refs == refs::refs_in(
                    Grammar::Go,
                    node,
                    source,
                    start_of_body(node),
                    None,
                ),
            }
        }),
{
}

/// The type that a method hangs off: what its receiver's type is called, or what
/// that points to if it is a pointer.
pub open spec fn hangs_off(node: SyntaxModel, source: Seq<char>, base: Seq<char>) -> bool {
    exists|receiver: SyntaxModel, param: SyntaxModel, ty: SyntaxModel, bare: SyntaxModel| #[trigger]
        receives(node, receiver, param, ty, bare) && base == syntax::node_text(bare, source)
}

/// Whether a method's receiver is declared with a type, which is `bare` or points
/// to it.
pub open spec fn receives(
    node: SyntaxModel,
    receiver: SyntaxModel,
    param: SyntaxModel,
    ty: SyntaxModel,
    bare: SyntaxModel,
) -> bool {
    &&& syntax::child_in(node, "receiver"@) == Some(receiver)
    &&& go::first_of_kind(receiver, "parameter_declaration"@, 0) == Some(param)
    &&& syntax::child_in(param, "type"@) == Some(ty)
    &&& ty.kind != "pointer_type"@ ==> bare == ty
    &&& ty.kind == "pointer_type"@ ==> points_to(ty, bare)
}

/// Whether `bare` is the first named child of a pointer, comments aside, or the
/// pointer itself if it has none.
pub open spec fn points_to(ty: SyntaxModel, bare: SyntaxModel) -> bool {
    ||| exists|i: int|
        0 <= i < ty.children.len() && #[trigger] names_a_type(ty, i) && bare == ty.children[i].node
            && forall|j: int| 0 <= j < i ==> !#[trigger] names_a_type(ty, j)
    ||| bare == ty && forall|j: int| 0 <= j < ty.children.len() ==> !#[trigger] names_a_type(ty, j)
}

/// Whether child `i` is named and no comment.
pub open spec fn names_a_type(ty: SyntaxModel, i: int) -> bool {
    ty.children[i].node.named && ty.children[i].node.kind != "comment"@
}

/// What a pointer points to is its first named child.
pub proof fn law_pointers_point_to_their_first_named_child(ty: SyntaxModel)
    ensures
        ty.kind == "pointer_type"@ ==> points_to(ty, go::pointed(ty)),
        ty.kind != "pointer_type"@ ==> go::pointed(ty) == ty,
{
    lemma_first_named(ty, 0);
}

/// The first named child from `i` on.
proof fn lemma_first_named(ty: SyntaxModel, i: int)
    requires
        0 <= i <= ty.children.len(),
    ensures
        match go::first_named(ty, i) {
            Some(inner) => exists|k: int|
                i <= k < ty.children.len() && #[trigger] names_a_type(ty, k) && inner
                    == ty.children[k].node && forall|j: int|
                    i <= j < k ==> !#[trigger] names_a_type(ty, j),
            None => forall|j: int|
                i <= j < ty.children.len() ==> !#[trigger] names_a_type(ty, j),
        },
    decreases ty.children.len() - i,
{
    if i < ty.children.len() {
        if names_a_type(ty, i) {
            assert(names_a_type(ty, i));
        } else {
            lemma_first_named(ty, i + 1);
        }
    }
}

/// A method gives one item, called `Type.Method` after the type it hangs off,
/// pointer or not. That type is its parent and none of its references; it reads
/// as it stands up to the body. Without a name or a receiver's type it gives
/// none.
pub proof fn law_go_methods_hang_off_their_receiver(
    node: SyntaxModel,
    source: Seq<char>,
    path: Seq<char>,
    base: Seq<char>,
)
    requires
        node.kind == "method_declaration"@,
    ensures
        ({
            let items = go::declaration_items(node, source, path);
            match syntax::child_in(node, "name"@) {
                None => items.len() == 0,
                Some(name) => hangs_off(node, source, base) ==> items.len() == 1 && is_item(
                    items[0],
                    path,
                    Kind::Method,
                    base + seq!['.'] + syntax::node_text(name, source),
                    Some(base),
                    node,
                ) && items[0].signature == text::trimmed(text_before_body(node, source))
                    && items[0].refs == refs::refs_in(
                    Grammar::Go,
                    node,
                    source,
                    start_of_body(node),
                    Some(base),
                ),
            }
        }),
        items_without_receiver(node, source, path),
{
    lemma_kinds();
    reveal_strlit(".");
    assert("."@ =~= seq!['.']);
    if hangs_off(node, source, base) {
        let (receiver, param, ty, bare) = choose|
            receiver: SyntaxModel,
            param: SyntaxModel,
            ty: SyntaxModel,
            bare: SyntaxModel,
        | #[trigger]
            receives(node, receiver, param, ty, bare) && base == syntax::node_text(bare, source);
        law_pointers_point_to_their_first_named_child(ty);
        if ty.kind == "pointer_type"@ {
            lemma_points_once(ty, bare, go::pointed(ty));
        }
        assert(go::receiver_name(node, source) == Some(base));
    }
}

/// A pointer points to one node.
proof fn lemma_points_once(ty: SyntaxModel, one: SyntaxModel, other: SyntaxModel)
    requires
        points_to(ty, one),
        points_to(ty, other),
    ensures
        one == other,
{
    if exists|i: int| 0 <= i < ty.children.len() && #[trigger] names_a_type(ty, i) {
        let i = choose|i: int|
            0 <= i < ty.children.len() && #[trigger] names_a_type(ty, i) && one
                == ty.children[i].node && forall|j: int|
                0 <= j < i ==> !#[trigger] names_a_type(ty, j);
        let k = choose|k: int|
            0 <= k < ty.children.len() && #[trigger] names_a_type(ty, k) && other
                == ty.children[k].node && forall|j: int|
                0 <= j < k ==> !#[trigger] names_a_type(ty, j);
        assert(i == k);
    }
}

/// Whether a method without a receiver gives no item.
pub open spec fn items_without_receiver(
    node: SyntaxModel,
    source: Seq<char>,
    path: Seq<char>,
) -> bool {
    syntax::child_in(node, "receiver"@) is None ==> go::declaration_items(node, source, path).len()
        == 0
}

/// Whether a node specifies a type or an alias of one.
pub open spec fn specifies_type(node: SyntaxModel) -> bool {
    node.kind == "type_spec"@ || node.kind == "type_alias"@
}

/// A type declaration gives the items of each of its specifications, aliases
/// among them, one after the other, in a group or not.
pub proof fn law_go_type_declarations_are_split(
    node: SyntaxModel,
    source: Seq<char>,
    path: Seq<char>,
)
    requires
        node.kind == "type_declaration"@,
    ensures
        layout::in_turn(
            go::declaration_items(node, source, path),
            |i: int|
                if specifies_type(node.children[i].node) {
                    go::type_items(node.children[i].node, source, path)
                } else {
                    seq![]
                },
            node.children.len() as int,
        ),
{
    lemma_kinds();
    lemma_types(node, source, path, node.children.len() as int);
}

/// The first `n` specifications.
proof fn lemma_types(node: SyntaxModel, source: Seq<char>, path: Seq<char>, n: int)
    requires
        0 <= n <= node.children.len(),
    ensures
        layout::in_turn(
            go::types_upto(node, source, path, n),
            |i: int|
                if specifies_type(node.children[i].node) {
                    go::type_items(node.children[i].node, source, path)
                } else {
                    seq![]
                },
            n,
        ),
    decreases n,
{
    let piece = |i: int|
        if specifies_type(node.children[i].node) {
            go::type_items(node.children[i].node, source, path)
        } else {
            seq![]
        };
    if n == 0 {
        layout::lemma_no_pieces(piece);
    } else {
        lemma_types(node, source, path, n - 1);
        layout::lemma_one_more(go::types_upto(node, source, path, n - 1), piece, n - 1);
    }
}

/// A type specification gives an item of its name and without a parent first. A
/// struct or an interface reads as such and references nothing itself; any other
/// type reads as what it is made of, after `=` if it is an alias, references what
/// it mentions, and gives nothing else. Without a name or a type there is no
/// item.
pub proof fn law_go_types_give_their_item(node: SyntaxModel, source: Seq<char>, path: Seq<char>)
    ensures
        ({
            let items = go::type_items(node, source, path);
            match (syntax::child_in(node, "name"@), syntax::child_in(node, "type"@)) {
                (Some(name), Some(ty)) => {
                    let called = syntax::node_text(name, source);
                    let made_of = syntax::node_text(ty, source);
                    &&& items.len() > 0
                    &&& items[0].id.path == path
                    &&& items[0].id.name == called
                    &&& items[0].parent is None
                    &&& node.row < u32::MAX ==> items[0].line.0 == node.row + 1
                    &&& ty.kind == "struct_type"@ ==> items[0].id.kind == Kind::Struct
                        && items[0].signature == "type "@ + called + " struct"@
                        && items[0].refs.len() == 0
                    &&& ty.kind == "interface_type"@ ==> items[0].id.kind == Kind::Interface
                        && items[0].signature == "type "@ + called + " interface"@
                        && items[0].refs.len() == 0
                    &&& ty.kind != "struct_type"@ && ty.kind != "interface_type"@ ==> {
                        &&& items.len() == 1
                        &&& items[0].refs == refs::refs_in(
                            Grammar::Go,
                            ty,
                            source,
                            None,
                            Some(called),
                        )
                        &&& node.kind == "type_alias"@ ==> items[0].id.kind == Kind::TypeAlias
                            && items[0].signature == "type "@ + called + " = "@ + made_of
                        &&& node.kind != "type_alias"@ ==> items[0].id.kind == Kind::Type
                            && items[0].signature == "type "@ + called + " "@ + made_of
                    }
                },
                _ => items.len() == 0,
            }
        }),
{
    lemma_kinds();
}

/// The members of a struct: the named children of its list of fields.
pub open spec fn struct_members(ty: SyntaxModel) -> Seq<SyntaxModel> {
    match go::first_of_kind(ty, "field_declaration_list"@, 0) {
        Some(list) => syntax::named_of(list),
        None => seq![],
    }
}

/// After its own item, a struct gives those of its fields and an interface those
/// of its members, all of them, one after the other, and nothing else; and each
/// of these has the struct or the interface as its parent.
pub proof fn law_go_members_belong_to_their_type(
    node: SyntaxModel,
    source: Seq<char>,
    path: Seq<char>,
    name: SyntaxModel,
    ty: SyntaxModel,
)
    requires
        syntax::child_in(node, "name"@) == Some(name),
        syntax::child_in(node, "type"@) == Some(ty),
    ensures
        ({
            let items = go::type_items(node, source, path);
            let called = syntax::node_text(name, source);
            let fields = struct_members(ty);
            let members = syntax::named_of(ty);
            &&& forall|k: int|
                1 <= k < items.len() ==> (#[trigger] items[k]).parent == Some(called)
            &&& ty.kind == "struct_type"@ ==> layout::in_turn(
                items.skip(1),
                |i: int| go::field_items(fields[i], source, path, called),
                fields.len() as int,
            )
            &&& ty.kind == "interface_type"@ ==> layout::in_turn(
                items.skip(1),
                |i: int| go::interface_member_items(members[i], source, path, called),
                members.len() as int,
            )
        }),
{
    lemma_kinds();
    let items = go::type_items(node, source, path);
    let called = syntax::node_text(name, source);
    let fields = struct_members(ty);
    let members = syntax::named_of(ty);
    lemma_fields(fields, source, path, called, fields.len() as int);
    lemma_interface(members, source, path, called, members.len() as int);
    if ty.kind == "struct_type"@ {
        let rest = go::fields_upto(fields, source, path, called, fields.len() as int);
        assert(items.skip(1) =~= rest);
        assert forall|k: int| 1 <= k < items.len() implies (#[trigger] items[k]).parent == Some(
            called,
        ) by {
            assert(items[k] == rest[k - 1]);
        }
    } else if ty.kind == "interface_type"@ {
        let rest = go::interface_upto(members, source, path, called, members.len() as int);
        assert(items.skip(1) =~= rest);
        assert forall|k: int| 1 <= k < items.len() implies (#[trigger] items[k]).parent == Some(
            called,
        ) by {
            assert(items[k] == rest[k - 1]);
        }
    }
}

/// The first `n` fields.
proof fn lemma_fields(
    fields: Seq<SyntaxModel>,
    source: Seq<char>,
    path: Seq<char>,
    parent: Seq<char>,
    n: int,
)
    requires
        0 <= n <= fields.len(),
    ensures
        layout::in_turn(
            go::fields_upto(fields, source, path, parent, n),
            |i: int| go::field_items(fields[i], source, path, parent),
            n,
        ),
        forall|k: int|
            0 <= k < go::fields_upto(fields, source, path, parent, n).len() ==> (
            #[trigger] go::fields_upto(fields, source, path, parent, n)[k]).parent == Some(parent),
    decreases n,
{
    let piece = |i: int| go::field_items(fields[i], source, path, parent);
    if n == 0 {
        layout::lemma_no_pieces(piece);
    } else {
        lemma_fields(fields, source, path, parent, n - 1);
        layout::lemma_one_more(go::fields_upto(fields, source, path, parent, n - 1), piece, n - 1);
    }
}

/// The first `n` members of an interface.
proof fn lemma_interface(
    members: Seq<SyntaxModel>,
    source: Seq<char>,
    path: Seq<char>,
    parent: Seq<char>,
    n: int,
)
    requires
        0 <= n <= members.len(),
    ensures
        layout::in_turn(
            go::interface_upto(members, source, path, parent, n),
            |i: int| go::interface_member_items(members[i], source, path, parent),
            n,
        ),
        forall|k: int|
            0 <= k < go::interface_upto(members, source, path, parent, n).len() ==> (
            #[trigger] go::interface_upto(members, source, path, parent, n)[k]).parent == Some(
                parent,
            ),
    decreases n,
{
    let piece = |i: int| go::interface_member_items(members[i], source, path, parent);
    if n == 0 {
        layout::lemma_no_pieces(piece);
    } else {
        lemma_interface(members, source, path, parent, n - 1);
        layout::lemma_one_more(
            go::interface_upto(members, source, path, parent, n - 1),
            piece,
            n - 1,
        );
    }
}

/// A field that has a name is called `Struct.name` after the first of its names,
/// and reads as `Struct.` and its text. An embedded type is called `Struct.Type`
/// after what it names, pointer or not, and reads as `Struct embeds Type`. What
/// is no field gives no item.
pub proof fn law_go_fields_give_their_item(
    field: SyntaxModel,
    source: Seq<char>,
    path: Seq<char>,
    parent: Seq<char>,
)
    ensures
        ({
            let items = go::field_items(field, source, path, parent);
            let mentioned = refs::refs_in(Grammar::Go, field, source, None, Some(parent));
            if field.kind != "field_declaration"@ {
                items.len() == 0
            } else {
                match (syntax::child_in(field, "name"@), syntax::child_in(field, "type"@)) {
                    (Some(name), _) => items.len() == 1 && is_item(
                        items[0],
                        path,
                        Kind::Field,
                        parent + seq!['.'] + syntax::node_text(name, source),
                        Some(parent),
                        field,
                    ) && items[0].signature == parent + seq!['.'] + text::collapsed(
                        syntax::node_text(field, source),
                    ) && items[0].refs == mentioned,
                    (None, Some(ty)) => {
                        let embedded = text::collapsed(syntax::node_text(go::pointed(ty), source));
                        items.len() == 1 && is_item(
                            items[0],
                            path,
                            Kind::Field,
                            parent + seq!['.'] + embedded,
                            Some(parent),
                            field,
                        ) && items[0].signature == parent + " embeds "@ + embedded && items[0].refs
                            == mentioned
                    },
                    (None, None) => items.len() == 0,
                }
            }
        }),
{
    reveal_strlit(".");
    assert("."@ =~= seq!['.']);
}

/// A method of an interface is called `Interface.Method` and reads as
/// `Interface.` and its text; an embedded interface or a type constraint is
/// called after its text and reads as `Interface embeds` it. What is neither
/// gives no item.
pub proof fn law_go_interface_members_give_their_item(
    member: SyntaxModel,
    source: Seq<char>,
    path: Seq<char>,
    parent: Seq<char>,
)
    ensures
        ({
            let items = go::interface_member_items(member, source, path, parent);
            let whole = text::collapsed(syntax::node_text(member, source));
            let mentioned = refs::refs_in(Grammar::Go, member, source, None, Some(parent));
            if member.kind == "method_elem"@ {
                match syntax::child_in(member, "name"@) {
                    None => items.len() == 0,
                    Some(name) => items.len() == 1 && is_item(
                        items[0],
                        path,
                        Kind::InterfaceMethod,
                        parent + seq!['.'] + syntax::node_text(name, source),
                        Some(parent),
                        member,
                    ) && items[0].signature == parent + seq!['.'] + whole && items[0].refs
                        == mentioned,
                }
            } else if member.kind == "type_elem"@ {
                items.len() == 1 && is_item(
                    items[0],
                    path,
                    Kind::InterfaceMethod,
                    parent + seq!['.'] + whole,
                    Some(parent),
                    member,
                ) && items[0].signature == parent + " embeds "@ + whole && items[0].refs
                    == mentioned
            } else {
                items.len() == 0
            }
        }),
{
    lemma_kinds();
    reveal_strlit(".");
    assert("."@ =~= seq!['.']);
}

/// A specification of a constant or a variable gives one item, called by its
/// first identifier and without a parent. It reads as the keyword and its text,
/// and references what it mentions.
pub proof fn law_go_values_give_their_item(child: SyntaxModel, source: Seq<char>, path: Seq<char>)
    ensures
        ({
            let constant = go::value_items(child, source, path, Binding::Const);
            let variable = go::value_items(child, source, path, Binding::Var);
            let whole = text::collapsed(syntax::node_text(child, source));
            let mentioned = refs::refs_in(Grammar::Go, child, source, None, None);
            match go::first_of_kind(child, "identifier"@, 0) {
                None => constant.len() == 0 && variable.len() == 0,
                Some(name) => {
                    let called = syntax::node_text(name, source);
                    &&& constant.len() == 1 && variable.len() == 1
                    &&& is_item(constant[0], path, Kind::Const, called, None, child)
                    &&& is_item(variable[0], path, Kind::Var, called, None, child)
                    &&& constant[0].signature == "const "@ + whole
                    &&& variable[0].signature == "var "@ + whole
                    &&& constant[0].refs == mentioned
                    &&& variable[0].refs == mentioned
                },
            }
        }),
{
}

/// The specifications that a child of a declaration brings: itself if it is one,
/// and those in it if it is a parenthesised list.
pub open spec fn brought(
    child: SyntaxModel,
    value: Binding,
    kind: Seq<char>,
) -> Seq<SyntaxModel> {
    if child.kind == kind {
        seq![child]
    } else if child.kind == "var_spec_list"@ {
        go::specs_upto(child, value, child.children.len() as int)
    } else {
        seq![]
    }
}

/// A constant or variable declaration gives the item of each of its
/// specifications, one after the other, in a block or not.
pub proof fn law_go_value_declarations_are_split(
    node: SyntaxModel,
    source: Seq<char>,
    path: Seq<char>,
)
    ensures
        ({
            let n = node.children.len() as int;
            let constants = go::value_specs(node, Binding::Const, n);
            let variables = go::value_specs(node, Binding::Var, n);
            &&& layout::in_turn(
                constants,
                |i: int| brought(node.children[i].node, Binding::Const, "const_spec"@),
                n,
            )
            &&& layout::in_turn(
                variables,
                |i: int| brought(node.children[i].node, Binding::Var, "var_spec"@),
                n,
            )
            &&& node.kind == "const_declaration"@ ==> layout::in_turn(
                go::declaration_items(node, source, path),
                |k: int| go::value_items(constants[k], source, path, Binding::Const),
                constants.len() as int,
            )
            &&& node.kind == "var_declaration"@ ==> layout::in_turn(
                go::declaration_items(node, source, path),
                |k: int| go::value_items(variables[k], source, path, Binding::Var),
                variables.len() as int,
            )
        }),
{
    lemma_kinds();
    let n = node.children.len() as int;
    let constants = go::value_specs(node, Binding::Const, n);
    let variables = go::value_specs(node, Binding::Var, n);
    lemma_specs(node, Binding::Const, "const_spec"@, n);
    lemma_specs(node, Binding::Var, "var_spec"@, n);
    lemma_values(constants, source, path, Binding::Const, constants.len() as int);
    lemma_values(variables, source, path, Binding::Var, variables.len() as int);
}

/// The specifications that the first `n` children bring.
proof fn lemma_specs(node: SyntaxModel, value: Binding, kind: Seq<char>, n: int)
    requires
        0 <= n <= node.children.len(),
        kind == match value {
            Binding::Const => "const_spec"@,
            Binding::Var => "var_spec"@,
        },
    ensures
        layout::in_turn(
            go::value_specs(node, value, n),
            |i: int| brought(node.children[i].node, value, kind),
            n,
        ),
    decreases n,
{
    let piece = |i: int| brought(node.children[i].node, value, kind);
    if n == 0 {
        layout::lemma_no_pieces(piece);
    } else {
        lemma_specs(node, value, kind, n - 1);
        let before = go::value_specs(node, value, n - 1);
        layout::lemma_one_more(before, piece, n - 1);
        assert(go::value_specs(node, value, n) =~= before + piece(n - 1));
    }
}

/// The first `n` specifications.
proof fn lemma_values(
    specs: Seq<SyntaxModel>,
    source: Seq<char>,
    path: Seq<char>,
    value: Binding,
    n: int,
)
    requires
        0 <= n <= specs.len(),
    ensures
        layout::in_turn(
            go::values_upto(specs, source, path, value, n),
            |k: int| go::value_items(specs[k], source, path, value),
            n,
        ),
    decreases n,
{
    let piece = |k: int| go::value_items(specs[k], source, path, value);
    if n == 0 {
        layout::lemma_no_pieces(piece);
    } else {
        lemma_values(specs, source, path, value, n - 1);
        layout::lemma_one_more(go::values_upto(specs, source, path, value, n - 1), piece, n - 1);
    }
}

/// The specifications in a parenthesised list are its children that are
/// specifications, each once and in order.
pub proof fn law_go_lists_are_split(list: SyntaxModel, n: int)
    requires
        0 <= n <= list.children.len(),
    ensures
        layout::in_turn(
            go::specs_upto(list, Binding::Var, n),
            |i: int|
                if list.children[i].node.kind == "var_spec"@ {
                    seq![list.children[i].node]
                } else {
                    seq![]
                },
            n,
        ),
    decreases n,
{
    let piece = |i: int|
        if list.children[i].node.kind == "var_spec"@ {
            seq![list.children[i].node]
        } else {
            seq![]
        };
    if n == 0 {
        layout::lemma_no_pieces(piece);
    } else {
        law_go_lists_are_split(list, n - 1);
        let before = go::specs_upto(list, Binding::Var, n - 1);
        layout::lemma_one_more(before, piece, n - 1);
        assert(go::specs_upto(list, Binding::Var, n) =~= before + piece(n - 1));
    }
}

/// A file gives the items of its declarations, one after the other. Nothing but
/// functions, methods, types, constants and variables gives any.
pub proof fn law_go_files_give_their_declarations(
    root: SyntaxModel,
    source: Seq<char>,
    path: Seq<char>,
)
    ensures
        layout::in_turn(
            go::file_items(root, source, path),
            |i: int| go::declaration_items(root.children[i].node, source, path),
            root.children.len() as int,
        ),
        forall|i: int|
            0 <= i < root.children.len() && !declares_something(
                (#[trigger] root.children[i]).node,
            ) ==> go::declaration_items(root.children[i].node, source, path).len() == 0,
{
    lemma_file(root, source, path, root.children.len() as int);
}

/// Whether a node declares a function, a method, types, constants or variables.
pub open spec fn declares_something(node: SyntaxModel) -> bool {
    node.kind == "function_declaration"@ || node.kind == "method_declaration"@ || node.kind
        == "type_declaration"@ || node.kind == "const_declaration"@ || node.kind
        == "var_declaration"@
}

/// The first `n` declarations.
proof fn lemma_file(root: SyntaxModel, source: Seq<char>, path: Seq<char>, n: int)
    requires
        0 <= n <= root.children.len(),
    ensures
        layout::in_turn(
            go::items_upto(root, source, path, n),
            |i: int| go::declaration_items(root.children[i].node, source, path),
            n,
        ),
    decreases n,
{
    let piece = |i: int| go::declaration_items(root.children[i].node, source, path);
    if n == 0 {
        layout::lemma_no_pieces(piece);
    } else {
        lemma_file(root, source, path, n - 1);
        layout::lemma_one_more(go::items_upto(root, source, path, n - 1), piece, n - 1);
    }
}

/// No item of a file stands in another file.
pub proof fn law_go_items_are_of_their_file(
    root: SyntaxModel,
    source: Seq<char>,
    path: Seq<char>,
    item: ItemModel,
)
    requires
        go::file_items(root, source, path).contains(item),
    ensures
        item.id.path == path,
{
    lemma_file_path(root, source, path, root.children.len() as int);
}

/// The items of the first `n` declarations are of the file.
proof fn lemma_file_path(root: SyntaxModel, source: Seq<char>, path: Seq<char>, n: int)
    ensures
        all_of(go::items_upto(root, source, path, n), path),
    decreases n,
{
    if n > 0 {
        let node = root.children[n - 1].node;
        lemma_file_path(root, source, path, n - 1);
        lemma_types_path(node, source, path, node.children.len() as int);
        let constants = go::value_specs(node, Binding::Const, node.children.len() as int);
        let variables = go::value_specs(node, Binding::Var, node.children.len() as int);
        lemma_values_path(constants, source, path, Binding::Const, constants.len() as int);
        lemma_values_path(variables, source, path, Binding::Var, variables.len() as int);
    }
}

/// Whether all items are of a file.
spec fn all_of(items: Seq<ItemModel>, path: Seq<char>) -> bool {
    forall|k: int| 0 <= k < items.len() ==> (#[trigger] items[k]).id.path == path
}

/// The items of the first `n` types are of the file.
proof fn lemma_types_path(node: SyntaxModel, source: Seq<char>, path: Seq<char>, n: int)
    ensures
        all_of(go::types_upto(node, source, path, n), path),
    decreases n,
{
    if n > 0 {
        let child = node.children[n - 1].node;
        lemma_types_path(node, source, path, n - 1);
        if let (Some(name), Some(ty)) = (
            go::field_text(child, "name"@, source),
            syntax::child_in(child, "type"@),
        ) {
            let members = syntax::named_of(ty);
            lemma_interface_path(members, source, path, name, members.len() as int);
            if let Some(list) = go::first_of_kind(ty, "field_declaration_list"@, 0) {
                let fields = syntax::named_of(list);
                lemma_fields_path(fields, source, path, name, fields.len() as int);
            }
        }
        assert(all_of(go::type_items(child, source, path), path));
    }
}

/// The items of the first `n` fields are of the file.
proof fn lemma_fields_path(
    fields: Seq<SyntaxModel>,
    source: Seq<char>,
    path: Seq<char>,
    parent: Seq<char>,
    n: int,
)
    ensures
        all_of(go::fields_upto(fields, source, path, parent, n), path),
    decreases n,
{
    if n > 0 {
        lemma_fields_path(fields, source, path, parent, n - 1);
    }
}

/// The items of the first `n` interface members are of the file.
proof fn lemma_interface_path(
    members: Seq<SyntaxModel>,
    source: Seq<char>,
    path: Seq<char>,
    parent: Seq<char>,
    n: int,
)
    ensures
        all_of(go::interface_upto(members, source, path, parent, n), path),
    decreases n,
{
    if n > 0 {
        lemma_interface_path(members, source, path, parent, n - 1);
    }
}

/// The items of the first `n` values are of the file.
proof fn lemma_values_path(
    specs: Seq<SyntaxModel>,
    source: Seq<char>,
    path: Seq<char>,
    value: Binding,
    n: int,
)
    ensures
        all_of(go::values_upto(specs, source, path, value, n), path),
    decreases n,
{
    if n > 0 {
        lemma_values_path(specs, source, path, value, n - 1);
    }
}

} // verus!
