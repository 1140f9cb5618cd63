//! Bodies are not the point: what a function's body holds never shows in the
//! items its declaration gives, wherever in the file the declaration stands.

use vstd::prelude::*;

use crate::diff_laws;
use crate::item::{ItemModel, Kind};
use crate::producer::go;
use crate::producer::moved::{self, moved, pair_moved, same_but_line, same_span, shifted};
use crate::producer::moved_laws;
use crate::producer::refs;
use crate::producer::rust::{self, Members};
use crate::producer::syntax::{self, Grammar, SyntaxModel};
use crate::text;

verus! {

/// Whether two declarations in two sources differ in nothing but their body and
/// where they stand: the body comes last in both, and up to it the texts are
/// the same, and so are the trees.
pub open spec fn same_but_body(
    one: SyntaxModel,
    one_source: Seq<char>,
    other: SyntaxModel,
    other_source: Seq<char>,
) -> bool {
    let b = one.children.len() - 1;
    let by = other.start - one.start;
    &&& syntax::readable(one, one_source)
    &&& syntax::readable(other, other_source)
    &&& one.kind == other.kind
    &&& one.children.len() > 0
    &&& one.children.len() == other.children.len()
    &&& forall|i: int|
        0 <= i < b ==> (#[trigger] one.children[i]).field == other.children[i].field
            && one.children[i].field != Some("body"@)
    &&& forall|i: int|
        0 <= i < b ==> shifted(#[trigger] one.children[i].node, other.children[i].node, by)
    &&& one.children[b].field == Some("body"@)
    &&& other.children[b].field == Some("body"@)
    &&& other.children[b].node.start == one.children[b].node.start + by
    &&& same_span(
        one_source,
        other_source,
        one.start as int,
        one.children[b].node.start as int,
        by,
    )
}

/// A field is filled at the same place in both.
proof fn lemma_same_field(
    one: SyntaxModel,
    one_source: Seq<char>,
    other: SyntaxModel,
    other_source: Seq<char>,
    field: Seq<char>,
    i: int,
)
    requires
        same_but_body(one, one_source, other, other_source),
        0 <= i <= one.children.len(),
    ensures
        syntax::field_at(one, field, i) == syntax::field_at(other, field, i),
        field != "body"@ ==> (syntax::field_at(one, field, i) matches Some(at) ==> i <= at
            < one.children.len() - 1),
        field == "body"@ && i < one.children.len() ==> syntax::field_at(one, field, i) == Some(
            one.children.len() - 1,
        ),
    decreases one.children.len() - i,
{
    if i < one.children.len() {
        lemma_same_field(one, one_source, other, other_source, field, i + 1);
        if i < one.children.len() - 1 {
            assert(one.children[i].field == other.children[i].field);
        }
    }
}

/// The children before the body are moved and end before it.
proof fn lemma_same_moved(
    one: SyntaxModel,
    one_source: Seq<char>,
    other: SyntaxModel,
    other_source: Seq<char>,
    i: int,
)
    requires
        same_but_body(one, one_source, other, other_source),
        0 <= i < one.children.len() - 1,
    ensures
        moved(one.children[i].node, one_source, other.children[i].node, other_source),
        other.children[i].node.start == one.children[i].node.start + (other.start - one.start),
        one.start <= one.children[i].node.start,
        one.children[i].node.end <= one.children[one.children.len() - 1].node.start,
{
    let b = one.children.len() - 1;
    let by = other.start - one.start;
    let child = one.children[i].node;
    assert(shifted(child, other.children[i].node, by));
    assert(syntax::readable(child, one_source));
    assert(syntax::readable(other.children[i].node, other_source));
    assert(syntax::fits_in(one, child));
    syntax::lemma_in_order(one, one_source, i, b);
    moved::lemma_same_part(
        one_source,
        other_source,
        one.start as int,
        one.children[b].node.start as int,
        by,
        child.start as int,
        child.end as int,
    );
}

/// The references before the body are the same in both.
proof fn lemma_same_refs(
    grammar: Grammar,
    one: SyntaxModel,
    one_source: Seq<char>,
    other: SyntaxModel,
    other_source: Seq<char>,
    exclude: Option<Seq<char>>,
)
    requires
        same_but_body(one, one_source, other, other_source),
        !refs::is_type_name(grammar, one),
    ensures
        refs::refs_in(
            grammar,
            one,
            one_source,
            Some(one.children[one.children.len() - 1].node.start),
            exclude,
        ) == refs::refs_in(
            grammar,
            other,
            other_source,
            Some(other.children[one.children.len() - 1].node.start),
            exclude,
        ),
{
    let b = one.children.len() - 1;
    let at = one.children[b].node.start;
    let other_at = other.children[b].node.start;
    lemma_same_refs_upto(grammar, one, one_source, other, other_source, b);
    assert(refs::past(one.children[b].node, Some(at)));
    assert(refs::past(other.children[b].node, Some(other_at)));
    assert(refs::names_in(grammar, one.children[b].node, one_source, Some(at)) =~= seq![]);
    assert(refs::names_in(grammar, other.children[b].node, other_source, Some(other_at)) =~= seq![]);
    let names = refs::names_upto(grammar, one, one_source, Some(at), b);
    assert(refs::names_upto(grammar, one, one_source, Some(at), b + 1) =~= names);
    assert(refs::names_upto(grammar, other, other_source, Some(other_at), b + 1) =~= names);
    assert(refs::past(one, Some(at)) == refs::past(other, Some(other_at)));
}

/// The type names in the first children before the body are the same in both.
proof fn lemma_same_refs_upto(
    grammar: Grammar,
    one: SyntaxModel,
    one_source: Seq<char>,
    other: SyntaxModel,
    other_source: Seq<char>,
    n: int,
)
    requires
        same_but_body(one, one_source, other, other_source),
        0 <= n < one.children.len(),
    ensures
        refs::names_upto(
            grammar,
            one,
            one_source,
            Some(one.children[one.children.len() - 1].node.start),
            n,
        ) == refs::names_upto(
            grammar,
            other,
            other_source,
            Some(other.children[one.children.len() - 1].node.start),
            n,
        ),
    decreases n,
{
    let b = one.children.len() - 1;
    if n > 0 {
        lemma_same_refs_upto(grammar, one, one_source, other, other_source, n - 1);
        lemma_same_moved(one, one_source, other, other_source, n - 1);
        moved::lemma_moved_names(
            grammar,
            one.children[n - 1].node,
            one_source,
            other.children[n - 1].node,
            other_source,
            Some(one.children[b].node.start),
            Some(other.children[b].node.start),
        );
    }
}

/// The children that fill a field other than the body are moved and end before
/// the body.
proof fn lemma_same_child(
    one: SyntaxModel,
    one_source: Seq<char>,
    other: SyntaxModel,
    other_source: Seq<char>,
    field: Seq<char>,
)
    requires
        same_but_body(one, one_source, other, other_source),
        field != "body"@,
    ensures
        pair_moved(
            syntax::child_in(one, field),
            one_source,
            syntax::child_in(other, field),
            other_source,
            other.start - one.start,
        ),
        syntax::child_in(one, field) matches Some(child) ==> one.start <= child.start && child.end
            <= one.children[one.children.len() - 1].node.start,
{
    lemma_same_field(one, one_source, other, other_source, field, 0);
    if let Some(i) = syntax::field_at(one, field, 0) {
        lemma_same_moved(one, one_source, other, other_source, i);
    }
}

/// The body is found in both, and the texts before it are the same.
proof fn lemma_same_head(
    one: SyntaxModel,
    one_source: Seq<char>,
    other: SyntaxModel,
    other_source: Seq<char>,
)
    requires
        same_but_body(one, one_source, other, other_source),
    ensures
        ({
            let b = one.children.len() - 1;
            let at = one.children[b].node.start;
            let other_at = other.children[b].node.start;
            &&& syntax::child_in(one, "body"@) == Some(one.children[b].node)
            &&& syntax::child_in(other, "body"@) == Some(other.children[b].node)
            &&& text::byte_text(one_source, one.start as int, at as int) == text::byte_text(
                other_source,
                other.start as int,
                other_at as int,
            )
        }),
{
    let b = one.children.len() - 1;
    lemma_same_field(one, one_source, other, other_source, "body"@, 0);
    moved::lemma_same_part(
        one_source,
        other_source,
        one.start as int,
        one.children[b].node.start as int,
        other.start - one.start,
        one.start as int,
        one.children[b].node.start as int,
    );
}

/// The fields read here are not the body.
proof fn lemma_fields_differ()
    ensures
        "name"@ != "body"@,
        "receiver"@ != "body"@,
        "type"@ != "body"@,
        "trait"@ != "body"@,
{
    reveal_strlit("body");
    reveal_strlit("name");
    reveal_strlit("receiver");
    reveal_strlit("type");
    reveal_strlit("trait");
    assert("body"@[0] == 'b');
    assert("name"@[0] == 'n');
    assert("receiver"@[0] == 'r');
    assert("type"@[0] == 't');
    assert("trait"@[0] == 't');
}

/// A function is not a type name.
proof fn lemma_kinds_differ()
    ensures
        "function_declaration"@ != "qualified_type"@,
        "function_declaration"@ != "type_identifier"@,
        "method_declaration"@ != "qualified_type"@,
        "method_declaration"@ != "type_identifier"@,
        "function_item"@ != "scoped_type_identifier"@,
        "function_item"@ != "type_identifier"@,
        "method_declaration"@ != "function_declaration"@,
{
    reveal_strlit("function_declaration");
    reveal_strlit("method_declaration");
    reveal_strlit("function_item");
    reveal_strlit("qualified_type");
    reveal_strlit("scoped_type_identifier");
    reveal_strlit("type_identifier");
    assert("function_declaration"@[0] == 'f');
    assert("method_declaration"@[0] == 'm');
    assert("function_item"@[0] == 'f');
    assert("qualified_type"@[0] == 'q');
    assert("scoped_type_identifier"@[0] == 's');
    assert("type_identifier"@[0] == 't');
}

/// Two Go functions or methods that differ in nothing but their body and where
/// they stand give the same item, if any, but for its line: a body-only change
/// is no change.
pub proof fn law_go_bodies_do_not_show(
    one: SyntaxModel,
    one_source: Seq<char>,
    other: SyntaxModel,
    other_source: Seq<char>,
    path: Seq<char>,
)
    requires
        same_but_body(one, one_source, other, other_source),
        one.kind == "function_declaration"@ || one.kind == "method_declaration"@,
    ensures
        go::declaration_items(one, one_source, path).len() <= 1,
        same_but_line(
            go::declaration_items(one, one_source, path),
            go::declaration_items(other, other_source, path),
        ),
        one.row == other.row ==> go::declaration_items(one, one_source, path)
            == go::declaration_items(other, other_source, path),
{
    lemma_fields_differ();
    lemma_kinds_differ();
    lemma_same_head(one, one_source, other, other_source);
    lemma_same_child(one, one_source, other, other_source, "name"@);
    lemma_same_child(one, one_source, other, other_source, "receiver"@);
    moved_laws::lemma_moved_receiver(
        one,
        one_source,
        other,
        other_source,
        other.start - one.start,
    );
    lemma_same_refs(Grammar::Go, one, one_source, other, other_source, None);
    if let Some(receiver) = go::receiver_name(one, one_source) {
        lemma_same_refs(Grammar::Go, one, one_source, other, other_source, Some(receiver));
    }
}

/// Two Rust functions that differ in nothing but their body and where they
/// stand give the same item, if any, but for its line: a body-only change is no
/// change.
pub proof fn law_rust_bodies_do_not_show(
    one: SyntaxModel,
    one_source: Seq<char>,
    other: SyntaxModel,
    other_source: Seq<char>,
    path: Seq<char>,
)
    requires
        same_but_body(one, one_source, other, other_source),
        one.kind == "function_item"@,
    ensures
        rust::declaration_items(one, one_source, path).len() <= 1,
        same_but_line(
            rust::declaration_items(one, one_source, path),
            rust::declaration_items(other, other_source, path),
        ),
        one.row == other.row ==> rust::declaration_items(one, one_source, path)
            == rust::declaration_items(other, other_source, path),
{
    lemma_fields_differ();
    lemma_kinds_differ();
    lemma_same_head(one, one_source, other, other_source);
    lemma_same_child(one, one_source, other, other_source, "name"@);
    lemma_same_refs(Grammar::Rust, one, one_source, other, other_source, None);
}

/// Two Rust methods that differ in nothing but their body and where they stand
/// give the same item, but for its line, as members of the same composite.
pub proof fn law_rust_method_bodies_do_not_show(
    one: SyntaxModel,
    one_source: Seq<char>,
    other: SyntaxModel,
    other_source: Seq<char>,
    path: Seq<char>,
    kind: Kind,
    parent: Seq<char>,
    qualified: Seq<char>,
)
    requires
        same_but_body(one, one_source, other, other_source),
        one.kind == "function_item"@,
    ensures
        ({
            let a = rust::member_items(
                one,
                one_source,
                path,
                kind,
                parent,
                qualified,
                rust::tail_of(one),
            );
            let b = rust::member_items(
                other,
                other_source,
                path,
                kind,
                parent,
                qualified,
                rust::tail_of(other),
            );
            &&& same_but_line(a, b)
            &&& one.row == other.row ==> a == b
        }),
{
    let at = one.children[one.children.len() - 1].node.start as int;
    let by = other.start - one.start;
    lemma_fields_differ();
    lemma_kinds_differ();
    lemma_same_head(one, one_source, other, other_source);
    lemma_same_child(one, one_source, other, other_source, "name"@);
    lemma_same_refs(Grammar::Rust, one, one_source, other, other_source, Some(parent));
    if let Some(name) = syntax::child_in(one, "name"@) {
        let start = one.start as int;
        moved::lemma_same_part(one_source, other_source, start, at, by, start, name.start as int);
        moved::lemma_same_part(one_source, other_source, start, at, by, name.end as int, at);
    }
}

/// Those of the first `n` children of a node that are kept.
pub open spec fn chosen_upto(
    node: SyntaxModel,
    keep: spec_fn(SyntaxModel) -> bool,
    n: int,
) -> Seq<SyntaxModel>
    decreases n,
{
    if n <= 0 {
        seq![]
    } else if keep(node.children[n - 1].node) {
        chosen_upto(node, keep, n - 1).push(node.children[n - 1].node)
    } else {
        chosen_upto(node, keep, n - 1)
    }
}

/// The children of a node that are kept.
pub open spec fn chosen(node: SyntaxModel, keep: spec_fn(SyntaxModel) -> bool) -> Seq<SyntaxModel> {
    chosen_upto(node, keep, node.children.len() as int)
}

/// The items that the nodes of a list give one after the other.
spec fn joined(
    list: Seq<SyntaxModel>,
    give: spec_fn(SyntaxModel) -> Seq<ItemModel>,
) -> Seq<ItemModel>
    decreases list.len(),
{
    if list.len() == 0 {
        seq![]
    } else {
        joined(list.drop_last(), give) + give(list.last())
    }
}

/// One more node gives its items last.
proof fn lemma_joined_push(
    list: Seq<SyntaxModel>,
    give: spec_fn(SyntaxModel) -> Seq<ItemModel>,
    node: SyntaxModel,
)
    ensures
        joined(list.push(node), give) == joined(list, give) + give(node),
{
    assert(list.push(node).drop_last() =~= list);
}

/// Lists whose nodes give the same items one by one give the same items.
proof fn lemma_joined_same(
    one: Seq<SyntaxModel>,
    one_give: spec_fn(SyntaxModel) -> Seq<ItemModel>,
    other: Seq<SyntaxModel>,
    other_give: spec_fn(SyntaxModel) -> Seq<ItemModel>,
)
    requires
        one.len() == other.len(),
        forall|k: int|
            0 <= k < one.len() ==> same_but_line(
                one_give(#[trigger] one[k]),
                other_give(other[k]),
            ),
    ensures
        same_but_line(joined(one, one_give), joined(other, other_give)),
    decreases one.len(),
{
    if one.len() > 0 {
        let rest = one.drop_last();
        let other_rest = other.drop_last();
        assert forall|k: int| 0 <= k < rest.len() implies same_but_line(
            one_give(#[trigger] rest[k]),
            other_give(other_rest[k]),
        ) by {
            assert(rest[k] == one[k]);
        }
        lemma_joined_same(rest, one_give, other_rest, other_give);
        assert(same_but_line(one_give(one[one.len() - 1]), other_give(other[one.len() - 1])));
        moved::lemma_join_but_line(
            joined(rest, one_give),
            joined(other_rest, other_give),
            one_give(one.last()),
            other_give(other.last()),
        );
    }
}

/// Whether two members of a Rust impl or trait are the same wherever they
/// stand, or are methods that differ in nothing else but their body.
pub open spec fn member_alike(
    one: SyntaxModel,
    one_source: Seq<char>,
    other: SyntaxModel,
    other_source: Seq<char>,
) -> bool {
    ||| moved(one, one_source, other, other_source)
    ||| one.kind == "function_item"@ && same_but_body(one, one_source, other, other_source)
}

/// Whether two lists of members are alike member by member.
pub open spec fn members_alike(
    one: Seq<SyntaxModel>,
    one_source: Seq<char>,
    other: Seq<SyntaxModel>,
    other_source: Seq<char>,
) -> bool {
    &&& one.len() == other.len()
    &&& forall|k: int|
        0 <= k < one.len() ==> member_alike(#[trigger] one[k], one_source, other[k], other_source)
}

/// The members of an impl, by the body they stand in.
pub open spec fn impl_members(body: SyntaxModel) -> Seq<SyntaxModel> {
    chosen(body, impl_member())
}

/// Which children of an impl's body are members: comments and the like are
/// not.
pub open spec fn impl_member() -> spec_fn(SyntaxModel) -> bool {
    |node: SyntaxModel| rust::impl_member_kind(node) is Some
}

/// The members of a trait, by the body they stand in.
pub open spec fn trait_members(body: SyntaxModel) -> Seq<SyntaxModel> {
    chosen(body, trait_member())
}

/// Which children of a trait's body are members: comments and the like are
/// not.
pub open spec fn trait_member() -> spec_fn(SyntaxModel) -> bool {
    |node: SyntaxModel| node.named && rust::trait_member_kind(node) is Some
}

/// The items of an impl are those of its members.
proof fn lemma_impl_joined(
    body: SyntaxModel,
    source: Seq<char>,
    path: Seq<char>,
    base: Seq<char>,
    of_name: Option<Seq<char>>,
    n: int,
)
    ensures
        rust::impl_upto(body, source, path, base, of_name, n) == joined(
            chosen_upto(body, impl_member(), n),
            impl_giving(source, path, base, of_name),
        ),
    decreases n,
{
    if n > 0 {
        let child = body.children[n - 1].node;
        let before = chosen_upto(body, impl_member(), n - 1);
        lemma_impl_joined(body, source, path, base, of_name, n - 1);
        lemma_joined_push(before, impl_giving(source, path, base, of_name), child);
        if rust::impl_member_kind(child) is None {
            let items = rust::impl_upto(body, source, path, base, of_name, n - 1);
            assert(items + Seq::<ItemModel>::empty() =~= items);
        }
    }
}

/// The items that a member of an impl gives.
spec fn impl_giving(
    source: Seq<char>,
    path: Seq<char>,
    base: Seq<char>,
    of_name: Option<Seq<char>>,
) -> spec_fn(SyntaxModel) -> Seq<ItemModel> {
    |node: SyntaxModel| rust::impl_member_items(node, source, path, base, of_name)
}

/// Members that more join give the same items.
proof fn lemma_members_prefix(
    list: Seq<SyntaxModel>,
    more: SyntaxModel,
    source: Seq<char>,
    path: Seq<char>,
    parent: Seq<char>,
    n: int,
)
    requires
        n <= list.len(),
    ensures
        rust::members_upto(list.push(more), source, path, parent, Members::TraitMembers, n)
            == rust::members_upto(list, source, path, parent, Members::TraitMembers, n),
    decreases n,
{
    if n > 0 {
        lemma_members_prefix(list, more, source, path, parent, n - 1);
    }
}

/// The items of a trait's body are those of its members.
proof fn lemma_trait_joined(
    body: SyntaxModel,
    source: Seq<char>,
    path: Seq<char>,
    parent: Seq<char>,
    n: int,
)
    ensures
        rust::members_upto(
            syntax::named_upto(body, n),
            source,
            path,
            parent,
            Members::TraitMembers,
            syntax::named_upto(body, n).len() as int,
        ) == joined(
            chosen_upto(body, trait_member(), n),
            trait_giving(source, path, parent),
        ),
    decreases n,
{
    if n > 0 {
        let child = body.children[n - 1].node;
        let list = syntax::named_upto(body, n - 1);
        let before = chosen_upto(body, trait_member(), n - 1);
        lemma_trait_joined(body, source, path, parent, n - 1);
        lemma_joined_push(before, trait_giving(source, path, parent), child);
        lemma_members_prefix(list, child, source, path, parent, list.len() as int);
        if rust::trait_member_kind(child) is None {
            let items = joined(before, trait_giving(source, path, parent));
            assert(items + Seq::<ItemModel>::empty() =~= items);
        }
    }
}

/// The items that a member of a trait gives.
spec fn trait_giving(
    source: Seq<char>,
    path: Seq<char>,
    parent: Seq<char>,
) -> spec_fn(SyntaxModel) -> Seq<ItemModel> {
    |node: SyntaxModel| rust::listed_items(node, source, path, parent, Members::TraitMembers)
}

/// The kinds of node told apart here.
proof fn lemma_composites_differ()
    ensures
        "trait_item"@ != "scoped_type_identifier"@,
        "trait_item"@ != "type_identifier"@,
        "trait_item"@ != "function_item"@,
        "trait_item"@ != "struct_item"@,
        "trait_item"@ != "enum_item"@,
        "impl_item"@ != "function_item"@,
        "impl_item"@ != "struct_item"@,
        "impl_item"@ != "enum_item"@,
        "impl_item"@ != "trait_item"@,
        "impl_item"@ != "type_item"@,
        "impl_item"@ != "const_item"@,
        "impl_item"@ != "static_item"@,
{
    reveal_strlit("trait_item");
    reveal_strlit("impl_item");
    reveal_strlit("scoped_type_identifier");
    reveal_strlit("type_identifier");
    reveal_strlit("function_item");
    reveal_strlit("struct_item");
    reveal_strlit("enum_item");
    reveal_strlit("type_item");
    reveal_strlit("const_item");
    reveal_strlit("static_item");
    assert("trait_item"@[0] == 't' && "trait_item"@[1] == 'r');
    assert("impl_item"@[0] == 'i');
    assert("scoped_type_identifier"@[0] == 's');
    assert("type_identifier"@[1] == 'y');
    assert("function_item"@[0] == 'f');
    assert("struct_item"@[0] == 's');
    assert("enum_item"@[0] == 'e');
    assert("type_item"@[0] == 't');
    assert("const_item"@[0] == 'c');
    assert("static_item"@[0] == 's');
}

/// Alike members have the same name.
proof fn lemma_alike_name(
    one: SyntaxModel,
    one_source: Seq<char>,
    other: SyntaxModel,
    other_source: Seq<char>,
)
    requires
        same_but_body(one, one_source, other, other_source),
    ensures
        rust::name_text(one, one_source) == rust::name_text(other, other_source),
{
    lemma_fields_differ();
    lemma_same_child(one, one_source, other, other_source, "name"@);
}

/// Alike members of a trait give the same item but for its line.
proof fn lemma_alike_trait_member(
    one: SyntaxModel,
    one_source: Seq<char>,
    other: SyntaxModel,
    other_source: Seq<char>,
    path: Seq<char>,
    parent: Seq<char>,
)
    requires
        member_alike(one, one_source, other, other_source),
    ensures
        same_but_line(
            rust::listed_items(one, one_source, path, parent, Members::TraitMembers),
            rust::listed_items(other, other_source, path, parent, Members::TraitMembers),
        ),
{
    if moved(one, one_source, other, other_source) {
        moved_laws::lemma_moved_rust_listed(
            one,
            one_source,
            other,
            other_source,
            path,
            parent,
            Members::TraitMembers,
        );
    } else {
        lemma_alike_name(one, one_source, other, other_source);
        if let Some(name) = rust::name_text(one, one_source) {
            law_rust_method_bodies_do_not_show(
                one,
                one_source,
                other,
                other_source,
                path,
                Kind::TraitMethod,
                parent,
                rust::scoped(parent, name),
            );
        }
    }
}

/// Alike members of an impl give the same item but for its line.
proof fn lemma_alike_impl_member(
    one: SyntaxModel,
    one_source: Seq<char>,
    other: SyntaxModel,
    other_source: Seq<char>,
    path: Seq<char>,
    base: Seq<char>,
    of_name: Option<Seq<char>>,
)
    requires
        member_alike(one, one_source, other, other_source),
    ensures
        same_but_line(
            rust::impl_member_items(one, one_source, path, base, of_name),
            rust::impl_member_items(other, other_source, path, base, of_name),
        ),
{
    if moved(one, one_source, other, other_source) {
        moved_laws::lemma_moved_rust_impl_member(
            one,
            one_source,
            other,
            other_source,
            path,
            base,
            of_name,
        );
    } else {
        lemma_alike_name(one, one_source, other, other_source);
        if let Some(name) = rust::name_text(one, one_source) {
            law_rust_method_bodies_do_not_show(
                one,
                one_source,
                other,
                other_source,
                path,
                Kind::Method,
                base,
                rust::impl_member_name(base, of_name, name),
            );
        }
    }
}

/// Two Rust impls that differ in nothing but the bodies of their methods, where
/// they and their members stand, and what stands between these, give the same
/// items but for their lines.
pub proof fn law_rust_impl_bodies_do_not_show(
    one: SyntaxModel,
    one_source: Seq<char>,
    other: SyntaxModel,
    other_source: Seq<char>,
    path: Seq<char>,
)
    requires
        one.kind == "impl_item"@,
        same_but_body(one, one_source, other, other_source),
        members_alike(
            impl_members(one.children.last().node),
            one_source,
            impl_members(other.children.last().node),
            other_source,
        ),
    ensures
        same_but_line(
            rust::declaration_items(one, one_source, path),
            rust::declaration_items(other, other_source, path),
        ),
{
    let by = other.start - one.start;
    let body = one.children.last().node;
    let other_body = other.children.last().node;
    lemma_composites_differ();
    lemma_fields_differ();
    lemma_same_head(one, one_source, other, other_source);
    lemma_same_child(one, one_source, other, other_source, "type"@);
    lemma_same_child(one, one_source, other, other_source, "trait"@);
    moved_laws::lemma_moved_impl_trait(one, one_source, other, other_source, by);
    if let (Some(ty), Some(other_ty)) = (
        syntax::child_in(one, "type"@),
        syntax::child_in(other, "type"@),
    ) {
        moved_laws::lemma_moved_base(ty, one_source, other_ty, other_source);
        if let Some(base) = rust::base_type(ty, one_source) {
            let of_name = rust::impl_trait(one, one_source);
            let give = impl_giving(one_source, path, base, of_name);
            let other_give = impl_giving(other_source, path, base, of_name);
            let list = impl_members(body);
            let other_list = impl_members(other_body);
            let n = body.children.len() as int;
            lemma_impl_joined(body, one_source, path, base, of_name, n);
            lemma_impl_joined(
                other_body,
                other_source,
                path,
                base,
                of_name,
                other_body.children.len() as int,
            );
            assert forall|k: int| 0 <= k < list.len() implies same_but_line(
                give(#[trigger] list[k]),
                other_give(other_list[k]),
            ) by {
                assert(member_alike(list[k], one_source, other_list[k], other_source));
                lemma_alike_impl_member(
                    list[k],
                    one_source,
                    other_list[k],
                    other_source,
                    path,
                    base,
                    of_name,
                );
            }
            lemma_joined_same(list, give, other_list, other_give);
        }
    }
}

/// Two Rust traits that differ in nothing but the bodies of their default
/// methods, where they and their members stand, and what stands between these,
/// give the same items but for their lines.
pub proof fn law_rust_trait_bodies_do_not_show(
    one: SyntaxModel,
    one_source: Seq<char>,
    other: SyntaxModel,
    other_source: Seq<char>,
    path: Seq<char>,
)
    requires
        one.kind == "trait_item"@,
        same_but_body(one, one_source, other, other_source),
        members_alike(
            trait_members(one.children.last().node),
            one_source,
            trait_members(other.children.last().node),
            other_source,
        ),
    ensures
        same_but_line(
            rust::declaration_items(one, one_source, path),
            rust::declaration_items(other, other_source, path),
        ),
{
    let body = one.children.last().node;
    let other_body = other.children.last().node;
    lemma_composites_differ();
    lemma_fields_differ();
    lemma_same_head(one, one_source, other, other_source);
    lemma_alike_name(one, one_source, other, other_source);
    if let Some(name) = rust::name_text(one, one_source) {
        let give = trait_giving(one_source, path, name);
        let other_give = trait_giving(other_source, path, name);
        let list = trait_members(body);
        let other_list = trait_members(other_body);
        let n = body.children.len() as int;
        lemma_same_refs(Grammar::Rust, one, one_source, other, other_source, Some(name));
        lemma_trait_joined(body, one_source, path, name, n);
        lemma_trait_joined(
            other_body,
            other_source,
            path,
            name,
            other_body.children.len() as int,
        );
        assert forall|k: int| 0 <= k < list.len() implies same_but_line(
            give(#[trigger] list[k]),
            other_give(other_list[k]),
        ) by {
            assert(member_alike(list[k], one_source, other_list[k], other_source));
            lemma_alike_trait_member(
                list[k],
                one_source,
                other_list[k],
                other_source,
                path,
                name,
            );
        }
        lemma_joined_same(list, give, other_list, other_give);
        moved::lemma_join_but_line(
            rust::named_items(
                one,
                one_source,
                path,
                Kind::Trait,
                rust::start_of(one, "body"@),
            ),
            rust::named_items(
                other,
                other_source,
                path,
                Kind::Trait,
                rust::start_of(other, "body"@),
            ),
            rust::body_items(one, one_source, path, Members::TraitMembers),
            rust::body_items(other, other_source, path, Members::TraitMembers),
        );
    }
}

/// Whether a Go declaration of the kind contributes API shape.
pub open spec fn go_declares(kind: Seq<char>) -> bool {
    ||| kind == "function_declaration"@
    ||| kind == "method_declaration"@
    ||| kind == "type_declaration"@
    ||| kind == "const_declaration"@
    ||| kind == "var_declaration"@
}

/// Which nodes of a Go file contribute API shape.
pub open spec fn go_declaration() -> spec_fn(SyntaxModel) -> bool {
    |node: SyntaxModel| go_declares(node.kind)
}

/// Whether two Go declarations are the same wherever they stand, or are
/// functions or methods that differ in nothing else but their body.
pub open spec fn go_alike(
    one: SyntaxModel,
    one_source: Seq<char>,
    other: SyntaxModel,
    other_source: Seq<char>,
) -> bool {
    ||| moved(one, one_source, other, other_source)
    ||| (one.kind == "function_declaration"@ || one.kind == "method_declaration"@)
        && same_but_body(one, one_source, other, other_source)
}

/// Whether two Go files are alike declaration by declaration: what contributes
/// no API shape, such as comments and imports, may differ.
pub open spec fn go_files_alike(
    one: SyntaxModel,
    one_source: Seq<char>,
    other: SyntaxModel,
    other_source: Seq<char>,
) -> bool {
    let list = chosen(one, go_declaration());
    let other_list = chosen(other, go_declaration());
    &&& list.len() == other_list.len()
    &&& forall|k: int|
        0 <= k < list.len() ==> go_alike(
            #[trigger] list[k],
            one_source,
            other_list[k],
            other_source,
        )
}

/// The items that a Go declaration gives.
spec fn go_giving(source: Seq<char>, path: Seq<char>) -> spec_fn(SyntaxModel) -> Seq<ItemModel> {
    |node: SyntaxModel| go::declaration_items(node, source, path)
}

/// The items of a Go file are those of its declarations.
proof fn lemma_go_joined(root: SyntaxModel, source: Seq<char>, path: Seq<char>, n: int)
    ensures
        go::items_upto(root, source, path, n) == joined(
            chosen_upto(root, go_declaration(), n),
            go_giving(source, path),
        ),
    decreases n,
{
    if n > 0 {
        let child = root.children[n - 1].node;
        let before = chosen_upto(root, go_declaration(), n - 1);
        lemma_go_joined(root, source, path, n - 1);
        lemma_joined_push(before, go_giving(source, path), child);
        if !go_declares(child.kind) {
            let items = go::items_upto(root, source, path, n - 1);
            assert(items + Seq::<ItemModel>::empty() =~= items);
        }
    }
}

/// Alike Go declarations give the same items but for their lines.
proof fn lemma_go_alike(
    one: SyntaxModel,
    one_source: Seq<char>,
    other: SyntaxModel,
    other_source: Seq<char>,
    path: Seq<char>,
)
    requires
        go_alike(one, one_source, other, other_source),
    ensures
        same_but_line(
            go::declaration_items(one, one_source, path),
            go::declaration_items(other, other_source, path),
        ),
{
    if moved(one, one_source, other, other_source) {
        moved_laws::law_moved_go_declarations_keep_their_items(
            one,
            one_source,
            other,
            other_source,
            path,
            other.start - one.start,
        );
    } else {
        law_go_bodies_do_not_show(one, one_source, other, other_source, path);
    }
}

/// A Go file in which nothing of the API shape changed but the bodies of
/// functions and methods gives the same items but for their lines.
pub proof fn law_go_body_changes_keep_the_shape(
    one: SyntaxModel,
    one_source: Seq<char>,
    other: SyntaxModel,
    other_source: Seq<char>,
    path: Seq<char>,
)
    requires
        go_files_alike(one, one_source, other, other_source),
    ensures
        same_but_line(
            go::file_items(one, one_source, path),
            go::file_items(other, other_source, path),
        ),
        diff_laws::same_but_lines(
            go::file_items(one, one_source, path),
            go::file_items(other, other_source, path),
        ),
{
    let list = chosen(one, go_declaration());
    let other_list = chosen(other, go_declaration());
    let give = go_giving(one_source, path);
    let other_give = go_giving(other_source, path);
    lemma_go_joined(one, one_source, path, one.children.len() as int);
    lemma_go_joined(other, other_source, path, other.children.len() as int);
    assert forall|k: int| 0 <= k < list.len() implies same_but_line(
        give(#[trigger] list[k]),
        other_give(other_list[k]),
    ) by {
        assert(go_alike(list[k], one_source, other_list[k], other_source));
        lemma_go_alike(list[k], one_source, other_list[k], other_source, path);
    }
    lemma_joined_same(list, give, other_list, other_give);
    let a = go::file_items(one, one_source, path);
    let b = go::file_items(other, other_source, path);
    assert forall|k: int| 0 <= k < a.len() implies (#[trigger] a[k]).id == b[k].id && a[k].signature
        == b[k].signature by {
        assert(a[k] == (ItemModel { line: a[k].line, ..b[k] }));
    }
}

/// Whether a Rust declaration of the kind contributes API shape.
pub open spec fn rust_declares(kind: Seq<char>) -> bool {
    ||| kind == "function_item"@
    ||| kind == "struct_item"@
    ||| kind == "enum_item"@
    ||| kind == "trait_item"@
    ||| kind == "type_item"@
    ||| kind == "const_item"@
    ||| kind == "static_item"@
    ||| kind == "impl_item"@
}

/// Which nodes of a Rust file contribute API shape.
pub open spec fn rust_declaration() -> spec_fn(SyntaxModel) -> bool {
    |node: SyntaxModel| rust_declares(node.kind)
}

/// Whether two Rust declarations are the same wherever they stand, or are
/// functions that differ in nothing else but their body, or impls or traits
/// that differ in nothing else but the bodies of their methods.
pub open spec fn rust_alike(
    one: SyntaxModel,
    one_source: Seq<char>,
    other: SyntaxModel,
    other_source: Seq<char>,
) -> bool {
    ||| moved(one, one_source, other, other_source)
    ||| one.kind == "function_item"@ && same_but_body(one, one_source, other, other_source)
    ||| one.kind == "impl_item"@ && same_but_body(one, one_source, other, other_source)
        && members_alike(
        impl_members(one.children.last().node),
        one_source,
        impl_members(other.children.last().node),
        other_source,
    )
    ||| one.kind == "trait_item"@ && same_but_body(one, one_source, other, other_source)
        && members_alike(
        trait_members(one.children.last().node),
        one_source,
        trait_members(other.children.last().node),
        other_source,
    )
}

/// Whether two Rust files are alike declaration by declaration: what contributes
/// no API shape, such as comments and imports, may differ.
pub open spec fn rust_files_alike(
    one: SyntaxModel,
    one_source: Seq<char>,
    other: SyntaxModel,
    other_source: Seq<char>,
) -> bool {
    let list = chosen(one, rust_declaration());
    let other_list = chosen(other, rust_declaration());
    &&& list.len() == other_list.len()
    &&& forall|k: int|
        0 <= k < list.len() ==> rust_alike(
            #[trigger] list[k],
            one_source,
            other_list[k],
            other_source,
        )
}

/// The items that a Rust declaration gives.
spec fn rust_giving(source: Seq<char>, path: Seq<char>) -> spec_fn(SyntaxModel) -> Seq<ItemModel> {
    |node: SyntaxModel| rust::declaration_items(node, source, path)
}

/// The items of a Rust file are those of its declarations.
proof fn lemma_rust_joined(root: SyntaxModel, source: Seq<char>, path: Seq<char>, n: int)
    ensures
        rust::items_upto(root, source, path, n) == joined(
            chosen_upto(root, rust_declaration(), n),
            rust_giving(source, path),
        ),
    decreases n,
{
    if n > 0 {
        let child = root.children[n - 1].node;
        let before = chosen_upto(root, rust_declaration(), n - 1);
        lemma_rust_joined(root, source, path, n - 1);
        lemma_joined_push(before, rust_giving(source, path), child);
        if !rust_declares(child.kind) {
            let items = rust::items_upto(root, source, path, n - 1);
            assert(items + Seq::<ItemModel>::empty() =~= items);
        }
    }
}

/// Alike Rust declarations give the same items but for their lines.
proof fn lemma_rust_alike(
    one: SyntaxModel,
    one_source: Seq<char>,
    other: SyntaxModel,
    other_source: Seq<char>,
    path: Seq<char>,
)
    requires
        rust_alike(one, one_source, other, other_source),
    ensures
        same_but_line(
            rust::declaration_items(one, one_source, path),
            rust::declaration_items(other, other_source, path),
        ),
{
    if moved(one, one_source, other, other_source) {
        moved_laws::law_moved_rust_declarations_keep_their_items(
            one,
            one_source,
            other,
            other_source,
            path,
            other.start - one.start,
        );
    } else if one.kind == "function_item"@ {
        law_rust_bodies_do_not_show(one, one_source, other, other_source, path);
    } else if one.kind == "impl_item"@ {
        lemma_composites_differ();
        law_rust_impl_bodies_do_not_show(one, one_source, other, other_source, path);
    } else {
        law_rust_trait_bodies_do_not_show(one, one_source, other, other_source, path);
    }
}

/// A Rust file in which nothing of the API shape changed but the bodies of
/// functions and of the methods of impls and traits gives the same items but
/// for their lines.
pub proof fn law_rust_body_changes_keep_the_shape(
    one: SyntaxModel,
    one_source: Seq<char>,
    other: SyntaxModel,
    other_source: Seq<char>,
    path: Seq<char>,
)
    requires
        rust_files_alike(one, one_source, other, other_source),
    ensures
        same_but_line(
            rust::file_items(one, one_source, path),
            rust::file_items(other, other_source, path),
        ),
        diff_laws::same_but_lines(
            rust::file_items(one, one_source, path),
            rust::file_items(other, other_source, path),
        ),
{
    let list = chosen(one, rust_declaration());
    let other_list = chosen(other, rust_declaration());
    let give = rust_giving(one_source, path);
    let other_give = rust_giving(other_source, path);
    lemma_rust_joined(one, one_source, path, one.children.len() as int);
    lemma_rust_joined(other, other_source, path, other.children.len() as int);
    assert forall|k: int| 0 <= k < list.len() implies same_but_line(
        give(#[trigger] list[k]),
        other_give(other_list[k]),
    ) by {
        assert(rust_alike(list[k], one_source, other_list[k], other_source));
        lemma_rust_alike(list[k], one_source, other_list[k], other_source, path);
    }
    lemma_joined_same(list, give, other_list, other_give);
    let a = rust::file_items(one, one_source, path);
    let b = rust::file_items(other, other_source, path);
    assert forall|k: int| 0 <= k < a.len() implies (#[trigger] a[k]).id == b[k].id && a[k].signature
        == b[k].signature by {
        assert(a[k] == (ItemModel { line: a[k].line, ..b[k] }));
    }
}

/// Whether two files in a language are alike declaration by declaration.
pub open spec fn files_alike(
    grammar: Grammar,
    one: SyntaxModel,
    one_source: Seq<char>,
    other: SyntaxModel,
    other_source: Seq<char>,
) -> bool {
    match grammar {
        Grammar::Go => go_files_alike(one, one_source, other, other_source),
        Grammar::Rust => rust_files_alike(one, one_source, other, other_source),
    }
}

} // verus!
