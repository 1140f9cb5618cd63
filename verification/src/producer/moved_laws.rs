//! Where a declaration stands does not show: a declaration that moved, and is
//! otherwise the same, gives the same items on other lines.

use vstd::prelude::*;

use crate::item::Kind;
use crate::producer::go::{self, Binding};
use crate::producer::moved::{self, all_moved, cut_moved, moved, pair_moved, same_but_line};
use crate::producer::rust::{self, Members};
use crate::producer::syntax::{self, Grammar, SyntaxModel};

verus! {

/// The receivers of methods are the same if the nodes that hold them are moved.
pub proof fn lemma_moved_receiver(
    one: SyntaxModel,
    one_source: Seq<char>,
    other: SyntaxModel,
    other_source: Seq<char>,
    by: int,
)
    requires
        pair_moved(
            syntax::child_in(one, "receiver"@),
            one_source,
            syntax::child_in(other, "receiver"@),
            other_source,
            by,
        ),
    ensures
        go::receiver_name(one, one_source) == go::receiver_name(other, other_source),
{
    if let (Some(a), Some(b)) = (
        syntax::child_in(one, "receiver"@),
        syntax::child_in(other, "receiver"@),
    ) {
        moved::lemma_moved_kind(a, one_source, b, other_source, "parameter_declaration"@, 0);
        if let (Some(param), Some(other_param)) = (
            go::first_of_kind(a, "parameter_declaration"@, 0),
            go::first_of_kind(b, "parameter_declaration"@, 0),
        ) {
            moved::lemma_moved_in(param, one_source, other_param, other_source, "type"@);
            if let (Some(ty), Some(other_ty)) = (
                syntax::child_in(param, "type"@),
                syntax::child_in(other_param, "type"@),
            ) {
                moved::lemma_moved_pointed(ty, one_source, other_ty, other_source);
            }
        }
    }
}

/// The text of a moved Go declaration up to its body, and where the body
/// starts.
proof fn lemma_moved_go_head(
    one: SyntaxModel,
    one_source: Seq<char>,
    other: SyntaxModel,
    other_source: Seq<char>,
)
    requires
        moved(one, one_source, other, other_source),
    ensures
        go::head_text(one, one_source) == go::head_text(other, other_source),
        cut_moved(go::body_at(one), go::body_at(other), other.start - one.start),
{
    moved::lemma_moved_in(one, one_source, other, other_source, "body"@);
    let end = match go::body_at(one) {
        Some(at) => at,
        None => one.end,
    };
    if let Some(body) = syntax::child_in(one, "body"@) {
        assert(syntax::readable(body, one_source));
    }
    moved::lemma_same_part(
        one_source,
        other_source,
        one.start as int,
        one.end as int,
        other.start - one.start,
        one.start as int,
        end as int,
    );
}

/// Moved fields give the same item.
proof fn lemma_moved_go_field(
    one: SyntaxModel,
    one_source: Seq<char>,
    other: SyntaxModel,
    other_source: Seq<char>,
    path: Seq<char>,
    parent: Seq<char>,
)
    requires
        moved(one, one_source, other, other_source),
    ensures
        same_but_line(
            go::field_items(one, one_source, path, parent),
            go::field_items(other, other_source, path, parent),
        ),
{
    moved::lemma_moved_text(one, one_source, other, other_source);
    moved::lemma_moved_names(Grammar::Go, one, one_source, other, other_source, None, None);
    moved::lemma_moved_in(one, one_source, other, other_source, "name"@);
    moved::lemma_moved_in(one, one_source, other, other_source, "type"@);
    if let (Some(ty), Some(other_ty)) = (
        syntax::child_in(one, "type"@),
        syntax::child_in(other, "type"@),
    ) {
        moved::lemma_moved_pointed(ty, one_source, other_ty, other_source);
    }
}

/// The first `n` of moved fields give the same items.
proof fn lemma_moved_go_fields(
    one: Seq<SyntaxModel>,
    one_source: Seq<char>,
    other: Seq<SyntaxModel>,
    other_source: Seq<char>,
    path: Seq<char>,
    parent: Seq<char>,
    n: int,
)
    requires
        all_moved(one, one_source, other, other_source),
        n <= one.len(),
    ensures
        same_but_line(
            go::fields_upto(one, one_source, path, parent, n),
            go::fields_upto(other, other_source, path, parent, n),
        ),
    decreases n,
{
    if n > 0 {
        lemma_moved_go_fields(one, one_source, other, other_source, path, parent, n - 1);
        assert(moved(one[n - 1], one_source, other[n - 1], other_source));
        lemma_moved_go_field(one[n - 1], one_source, other[n - 1], other_source, path, parent);
        moved::lemma_join_but_line(
            go::fields_upto(one, one_source, path, parent, n - 1),
            go::fields_upto(other, other_source, path, parent, n - 1),
            go::field_items(one[n - 1], one_source, path, parent),
            go::field_items(other[n - 1], other_source, path, parent),
        );
    }
}

/// The first `n` of moved interface members give the same items.
proof fn lemma_moved_go_interface(
    one: Seq<SyntaxModel>,
    one_source: Seq<char>,
    other: Seq<SyntaxModel>,
    other_source: Seq<char>,
    path: Seq<char>,
    parent: Seq<char>,
    n: int,
)
    requires
        all_moved(one, one_source, other, other_source),
        n <= one.len(),
    ensures
        same_but_line(
            go::interface_upto(one, one_source, path, parent, n),
            go::interface_upto(other, other_source, path, parent, n),
        ),
    decreases n,
{
    if n > 0 {
        lemma_moved_go_interface(one, one_source, other, other_source, path, parent, n - 1);
        let a = one[n - 1];
        let b = other[n - 1];
        assert(moved(a, one_source, b, other_source));
        moved::lemma_moved_text(a, one_source, b, other_source);
        moved::lemma_moved_names(Grammar::Go, a, one_source, b, other_source, None, None);
        moved::lemma_moved_in(a, one_source, b, other_source, "name"@);
        moved::lemma_join_but_line(
            go::interface_upto(one, one_source, path, parent, n - 1),
            go::interface_upto(other, other_source, path, parent, n - 1),
            go::interface_member_items(a, one_source, path, parent),
            go::interface_member_items(b, other_source, path, parent),
        );
    }
}

/// Moved type specifications give the same items.
proof fn lemma_moved_go_type(
    one: SyntaxModel,
    one_source: Seq<char>,
    other: SyntaxModel,
    other_source: Seq<char>,
    path: Seq<char>,
)
    requires
        moved(one, one_source, other, other_source),
    ensures
        same_but_line(
            go::type_items(one, one_source, path),
            go::type_items(other, other_source, path),
        ),
{
    moved::lemma_moved_in(one, one_source, other, other_source, "name"@);
    moved::lemma_moved_in(one, one_source, other, other_source, "type"@);
    if let (Some(name), Some(a), Some(b)) = (
        go::field_text(one, "name"@, one_source),
        syntax::child_in(one, "type"@),
        syntax::child_in(other, "type"@),
    ) {
        moved::lemma_moved_text(a, one_source, b, other_source);
        moved::lemma_moved_names(Grammar::Go, a, one_source, b, other_source, None, None);
        moved::lemma_moved_list(a, one_source, b, other_source, a.children.len() as int);
        let members = syntax::named_of(a);
        let other_members = syntax::named_of(b);
        lemma_moved_go_interface(
            members,
            one_source,
            other_members,
            other_source,
            path,
            name,
            members.len() as int,
        );
        moved::lemma_moved_kind(a, one_source, b, other_source, "field_declaration_list"@, 0);
        if let (Some(list), Some(other_list)) = (
            go::first_of_kind(a, "field_declaration_list"@, 0),
            go::first_of_kind(b, "field_declaration_list"@, 0),
        ) {
            let count = list.children.len() as int;
            moved::lemma_moved_list(list, one_source, other_list, other_source, count);
            let fields = syntax::named_of(list);
            lemma_moved_go_fields(
                fields,
                one_source,
                syntax::named_of(other_list),
                other_source,
                path,
                name,
                fields.len() as int,
            );
        }
        let items = go::type_items(one, one_source, path);
        let other_items = go::type_items(other, other_source, path);
        let rest = if a.kind == "struct_type"@ {
            go::struct_items(a, one_source, path, name)
        } else if a.kind == "interface_type"@ {
            go::interface_upto(members, one_source, path, name, members.len() as int)
        } else {
            seq![]
        };
        let other_rest = if b.kind == "struct_type"@ {
            go::struct_items(b, other_source, path, name)
        } else if b.kind == "interface_type"@ {
            go::interface_upto(
                other_members,
                other_source,
                path,
                name,
                other_members.len() as int,
            )
        } else {
            seq![]
        };
        assert(same_but_line(rest, other_rest));
        assert(items == seq![items[0]] + rest);
        assert(other_items == seq![other_items[0]] + other_rest);
        assert(same_but_line(seq![items[0]], seq![other_items[0]]));
        moved::lemma_join_but_line(seq![items[0]], seq![other_items[0]], rest, other_rest);
    }
}

/// The first `n` type specifications of moved declarations give the same items.
proof fn lemma_moved_go_types(
    one: SyntaxModel,
    one_source: Seq<char>,
    other: SyntaxModel,
    other_source: Seq<char>,
    path: Seq<char>,
    n: int,
)
    requires
        moved(one, one_source, other, other_source),
        n <= one.children.len(),
    ensures
        same_but_line(
            go::types_upto(one, one_source, path, n),
            go::types_upto(other, other_source, path, n),
        ),
    decreases n,
{
    if n > 0 {
        lemma_moved_go_types(one, one_source, other, other_source, path, n - 1);
        moved::lemma_moved_child(one, one_source, other, other_source, n - 1);
        let a = one.children[n - 1].node;
        let b = other.children[n - 1].node;
        lemma_moved_go_type(a, one_source, b, other_source, path);
        let is_type = a.kind == "type_spec"@ || a.kind == "type_alias"@;
        moved::lemma_join_but_line(
            go::types_upto(one, one_source, path, n - 1),
            go::types_upto(other, other_source, path, n - 1),
            if is_type {
                go::type_items(a, one_source, path)
            } else {
                seq![]
            },
            if is_type {
                go::type_items(b, other_source, path)
            } else {
                seq![]
            },
        );
    }
}

/// The value specifications among the first `n` children of moved nodes are
/// moved.
proof fn lemma_moved_go_specs(
    one: SyntaxModel,
    one_source: Seq<char>,
    other: SyntaxModel,
    other_source: Seq<char>,
    value: Binding,
    n: int,
)
    requires
        moved(one, one_source, other, other_source),
        n <= one.children.len(),
    ensures
        all_moved(
            go::specs_upto(one, value, n),
            one_source,
            go::specs_upto(other, value, n),
            other_source,
        ),
    decreases n,
{
    if n > 0 {
        moved::lemma_moved_child(one, one_source, other, other_source, n - 1);
        lemma_moved_go_specs(one, one_source, other, other_source, value, n - 1);
    }
}

/// The value specifications that the first `n` children of moved declarations
/// bring are moved.
proof fn lemma_moved_go_value_specs(
    one: SyntaxModel,
    one_source: Seq<char>,
    other: SyntaxModel,
    other_source: Seq<char>,
    value: Binding,
    n: int,
)
    requires
        moved(one, one_source, other, other_source),
        n <= one.children.len(),
    ensures
        all_moved(
            go::value_specs(one, value, n),
            one_source,
            go::value_specs(other, value, n),
            other_source,
        ),
    decreases n,
{
    if n > 0 {
        moved::lemma_moved_child(one, one_source, other, other_source, n - 1);
        lemma_moved_go_value_specs(one, one_source, other, other_source, value, n - 1);
        let a = one.children[n - 1].node;
        let b = other.children[n - 1].node;
        lemma_moved_go_specs(
            a,
            one_source,
            b,
            other_source,
            value,
            a.children.len() as int,
        );
    }
}

/// The first `n` of moved value specifications give the same items.
proof fn lemma_moved_go_values(
    one: Seq<SyntaxModel>,
    one_source: Seq<char>,
    other: Seq<SyntaxModel>,
    other_source: Seq<char>,
    path: Seq<char>,
    value: Binding,
    n: int,
)
    requires
        all_moved(one, one_source, other, other_source),
        n <= one.len(),
    ensures
        same_but_line(
            go::values_upto(one, one_source, path, value, n),
            go::values_upto(other, other_source, path, value, n),
        ),
    decreases n,
{
    if n > 0 {
        lemma_moved_go_values(one, one_source, other, other_source, path, value, n - 1);
        let a = one[n - 1];
        let b = other[n - 1];
        assert(moved(a, one_source, b, other_source));
        moved::lemma_moved_text(a, one_source, b, other_source);
        moved::lemma_moved_names(Grammar::Go, a, one_source, b, other_source, None, None);
        moved::lemma_moved_kind(a, one_source, b, other_source, "identifier"@, 0);
        moved::lemma_join_but_line(
            go::values_upto(one, one_source, path, value, n - 1),
            go::values_upto(other, other_source, path, value, n - 1),
            go::value_items(a, one_source, path, value),
            go::value_items(b, other_source, path, value),
        );
    }
}

/// Moved value declarations give the same items.
proof fn lemma_moved_go_declared(
    one: SyntaxModel,
    one_source: Seq<char>,
    other: SyntaxModel,
    other_source: Seq<char>,
    path: Seq<char>,
    value: Binding,
)
    requires
        moved(one, one_source, other, other_source),
    ensures
        same_but_line(
            go::declared_values(one, one_source, path, value),
            go::declared_values(other, other_source, path, value),
        ),
{
    let n = one.children.len() as int;
    let specs = go::value_specs(one, value, n);
    lemma_moved_go_value_specs(one, one_source, other, other_source, value, n);
    lemma_moved_go_values(
        specs,
        one_source,
        go::value_specs(other, value, n),
        other_source,
        path,
        value,
        specs.len() as int,
    );
}

/// A Go declaration that stands elsewhere, and is otherwise the same, gives the
/// same items but for their lines.
pub proof fn law_moved_go_declarations_keep_their_items(
    one: SyntaxModel,
    one_source: Seq<char>,
    other: SyntaxModel,
    other_source: Seq<char>,
    path: Seq<char>,
    by: int,
)
    requires
        syntax::readable(one, one_source),
        syntax::readable(other, other_source),
        moved::shifted(one, other, by),
        moved::same_span(one_source, other_source, one.start as int, one.end as int, by),
    ensures
        same_but_line(
            go::declaration_items(one, one_source, path),
            go::declaration_items(other, other_source, path),
        ),
{
    assert(moved(one, one_source, other, other_source));
    let n = one.children.len() as int;
    let cut = go::body_at(one);
    let other_cut = go::body_at(other);
    lemma_moved_go_head(one, one_source, other, other_source);
    moved::lemma_moved_names(Grammar::Go, one, one_source, other, other_source, cut, other_cut);
    moved::lemma_moved_in(one, one_source, other, other_source, "name"@);
    moved::lemma_moved_in(one, one_source, other, other_source, "receiver"@);
    lemma_moved_receiver(one, one_source, other, other_source, by);
    lemma_moved_go_types(one, one_source, other, other_source, path, n);
    lemma_moved_go_declared(one, one_source, other, other_source, path, Binding::Const);
    lemma_moved_go_declared(one, one_source, other, other_source, path, Binding::Var);
}

/// Where what fills a field of moved trees starts is moved.
proof fn lemma_moved_start(
    one: SyntaxModel,
    one_source: Seq<char>,
    other: SyntaxModel,
    other_source: Seq<char>,
    field: Seq<char>,
)
    requires
        moved(one, one_source, other, other_source),
    ensures
        cut_moved(
            rust::start_of(one, field),
            rust::start_of(other, field),
            other.start - one.start,
        ),
{
    moved::lemma_moved_in(one, one_source, other, other_source, field);
}

/// Moved Rust declarations that have a name give the same item.
proof fn lemma_moved_rust_named(
    one: SyntaxModel,
    one_source: Seq<char>,
    other: SyntaxModel,
    other_source: Seq<char>,
    path: Seq<char>,
    kind: Kind,
    cut: Option<nat>,
    other_cut: Option<nat>,
)
    requires
        moved(one, one_source, other, other_source),
        rust::proper_cut(one, cut),
        cut_moved(cut, other_cut, other.start - one.start),
    ensures
        same_but_line(
            rust::named_items(one, one_source, path, kind, cut),
            rust::named_items(other, other_source, path, kind, other_cut),
        ),
{
    rust::lemma_cut(one, one_source, cut);
    moved::lemma_moved_in(one, one_source, other, other_source, "body"@);
    moved::lemma_moved_in(one, one_source, other, other_source, "value"@);
    moved::lemma_moved_in(one, one_source, other, other_source, "name"@);
    moved::lemma_moved_names(Grammar::Rust, one, one_source, other, other_source, cut, other_cut);
    if let Some(body) = syntax::child_in(one, "body"@) {
        assert(syntax::readable(body, one_source));
    }
    if let Some(value) = syntax::child_in(one, "value"@) {
        assert(syntax::readable(value, one_source));
    }
    moved::lemma_same_part(
        one_source,
        other_source,
        one.start as int,
        one.end as int,
        other.start - one.start,
        one.start as int,
        rust::end_of(one, cut) as int,
    );
}

/// Moved members give the same item.
proof fn lemma_moved_rust_member(
    one: SyntaxModel,
    one_source: Seq<char>,
    other: SyntaxModel,
    other_source: Seq<char>,
    path: Seq<char>,
    kind: Kind,
    parent: Seq<char>,
    qualified: Seq<char>,
    cut: Option<nat>,
    other_cut: Option<nat>,
)
    requires
        moved(one, one_source, other, other_source),
        rust::proper_cut(one, cut),
        cut_moved(cut, other_cut, other.start - one.start),
    ensures
        same_but_line(
            rust::member_items(one, one_source, path, kind, parent, qualified, cut),
            rust::member_items(other, other_source, path, kind, parent, qualified, other_cut),
        ),
{
    let by = other.start - one.start;
    let start = one.start as int;
    let end = one.end as int;
    let at = rust::end_of(one, cut) as int;
    rust::lemma_cut(one, one_source, cut);
    moved::lemma_moved_in(one, one_source, other, other_source, "body"@);
    moved::lemma_moved_in(one, one_source, other, other_source, "value"@);
    moved::lemma_moved_in(one, one_source, other, other_source, "name"@);
    moved::lemma_moved_names(Grammar::Rust, one, one_source, other, other_source, cut, other_cut);
    if let Some(body) = syntax::child_in(one, "body"@) {
        assert(syntax::readable(body, one_source));
    }
    if let Some(value) = syntax::child_in(one, "value"@) {
        assert(syntax::readable(value, one_source));
    }
    if let Some(name) = syntax::child_in(one, "name"@) {
        moved::lemma_same_part(one_source, other_source, start, end, by, start, name.start as int);
        moved::lemma_same_part(one_source, other_source, start, end, by, name.end as int, at);
    }
}

/// The name of moved declarations is the same, and where their tail starts is
/// moved.
proof fn lemma_moved_rust_tail(
    one: SyntaxModel,
    one_source: Seq<char>,
    other: SyntaxModel,
    other_source: Seq<char>,
)
    requires
        moved(one, one_source, other, other_source),
    ensures
        rust::name_text(one, one_source) == rust::name_text(other, other_source),
        cut_moved(rust::tail_of(one), rust::tail_of(other), other.start - one.start),
        rust::proper_cut(one, rust::tail_of(one)),
{
    moved::lemma_moved_in(one, one_source, other, other_source, "name"@);
    lemma_moved_start(one, one_source, other, other_source, "body"@);
    lemma_moved_start(one, one_source, other, other_source, "value"@);
}

/// Moved members of a composite give the same item.
pub proof fn lemma_moved_rust_listed(
    one: SyntaxModel,
    one_source: Seq<char>,
    other: SyntaxModel,
    other_source: Seq<char>,
    path: Seq<char>,
    parent: Seq<char>,
    what: Members,
)
    requires
        moved(one, one_source, other, other_source),
    ensures
        same_but_line(
            rust::listed_items(one, one_source, path, parent, what),
            rust::listed_items(other, other_source, path, parent, what),
        ),
{
    lemma_moved_rust_tail(one, one_source, other, other_source);
    if let Some(name) = rust::name_text(one, one_source) {
        let qualified = rust::scoped(parent, name);
        let kind = match what {
            Members::Fields => Some(Kind::Field),
            Members::Variants => Some(Kind::Variant),
            Members::TraitMembers => rust::trait_member_kind(one),
        };
        let cut = match what {
            Members::TraitMembers => rust::tail_of(one),
            _ => None,
        };
        let other_cut = match what {
            Members::TraitMembers => rust::tail_of(other),
            _ => None,
        };
        if let Some(kind) = kind {
            lemma_moved_rust_member(
                one,
                one_source,
                other,
                other_source,
                path,
                kind,
                parent,
                qualified,
                cut,
                other_cut,
            );
        }
    }
}

/// Moved members of an impl give the same item.
pub proof fn lemma_moved_rust_impl_member(
    one: SyntaxModel,
    one_source: Seq<char>,
    other: SyntaxModel,
    other_source: Seq<char>,
    path: Seq<char>,
    base: Seq<char>,
    of_name: Option<Seq<char>>,
)
    requires
        moved(one, one_source, other, other_source),
    ensures
        same_but_line(
            rust::impl_member_items(one, one_source, path, base, of_name),
            rust::impl_member_items(other, other_source, path, base, of_name),
        ),
{
    lemma_moved_rust_tail(one, one_source, other, other_source);
    if let (Some(kind), Some(name)) = (
        rust::impl_member_kind(one),
        rust::name_text(one, one_source),
    ) {
        lemma_moved_rust_member(
            one,
            one_source,
            other,
            other_source,
            path,
            kind,
            base,
            rust::impl_member_name(base, of_name, name),
            rust::tail_of(one),
            rust::tail_of(other),
        );
    }
}

/// Whether member `k` of two lists gives the same item but for its line.
spec fn same_listed(
    one: Seq<SyntaxModel>,
    one_source: Seq<char>,
    other: Seq<SyntaxModel>,
    other_source: Seq<char>,
    path: Seq<char>,
    parent: Seq<char>,
    what: Members,
    k: int,
) -> bool {
    same_but_line(
        rust::listed_items(one[k], one_source, path, parent, what),
        rust::listed_items(other[k], other_source, path, parent, what),
    )
}

/// Lists whose members give the same items one by one give the same items.
proof fn lemma_same_members(
    one: Seq<SyntaxModel>,
    one_source: Seq<char>,
    other: Seq<SyntaxModel>,
    other_source: Seq<char>,
    path: Seq<char>,
    parent: Seq<char>,
    what: Members,
    n: int,
)
    requires
        forall|k: int|
            0 <= k < n ==> same_listed(one, one_source, other, other_source, path, parent, what, k),
    ensures
        same_but_line(
            rust::members_upto(one, one_source, path, parent, what, n),
            rust::members_upto(other, other_source, path, parent, what, n),
        ),
    decreases n,
{
    if n > 0 {
        lemma_same_members(one, one_source, other, other_source, path, parent, what, n - 1);
        assert(same_listed(one, one_source, other, other_source, path, parent, what, n - 1));
        moved::lemma_join_but_line(
            rust::members_upto(one, one_source, path, parent, what, n - 1),
            rust::members_upto(other, other_source, path, parent, what, n - 1),
            rust::listed_items(one[n - 1], one_source, path, parent, what),
            rust::listed_items(other[n - 1], other_source, path, parent, what),
        );
    }
}

/// Whether member `k` of two impls gives the same item but for its line.
spec fn same_impl_member(
    one: SyntaxModel,
    one_source: Seq<char>,
    other: SyntaxModel,
    other_source: Seq<char>,
    path: Seq<char>,
    base: Seq<char>,
    of_name: Option<Seq<char>>,
    k: int,
) -> bool {
    same_but_line(
        rust::impl_member_items(one.children[k].node, one_source, path, base, of_name),
        rust::impl_member_items(other.children[k].node, other_source, path, base, of_name),
    )
}

/// Impls whose members give the same items one by one give the same items.
proof fn lemma_same_impl(
    one: SyntaxModel,
    one_source: Seq<char>,
    other: SyntaxModel,
    other_source: Seq<char>,
    path: Seq<char>,
    base: Seq<char>,
    of_name: Option<Seq<char>>,
    n: int,
)
    requires
        forall|k: int|
            0 <= k < n ==> same_impl_member(
                one,
                one_source,
                other,
                other_source,
                path,
                base,
                of_name,
                k,
            ),
    ensures
        same_but_line(
            rust::impl_upto(one, one_source, path, base, of_name, n),
            rust::impl_upto(other, other_source, path, base, of_name, n),
        ),
    decreases n,
{
    if n > 0 {
        lemma_same_impl(one, one_source, other, other_source, path, base, of_name, n - 1);
        assert(same_impl_member(one, one_source, other, other_source, path, base, of_name, n - 1));
        moved::lemma_join_but_line(
            rust::impl_upto(one, one_source, path, base, of_name, n - 1),
            rust::impl_upto(other, other_source, path, base, of_name, n - 1),
            rust::impl_member_items(one.children[n - 1].node, one_source, path, base, of_name),
            rust::impl_member_items(other.children[n - 1].node, other_source, path, base, of_name),
        );
    }
}

/// The named children of moved bodies give the same items.
proof fn lemma_moved_rust_members(
    one: SyntaxModel,
    one_source: Seq<char>,
    other: SyntaxModel,
    other_source: Seq<char>,
    path: Seq<char>,
    parent: Seq<char>,
    what: Members,
)
    requires
        moved(one, one_source, other, other_source),
    ensures
        ({
            let list = syntax::named_of(one);
            let other_list = syntax::named_of(other);
            same_but_line(
                rust::members_upto(list, one_source, path, parent, what, list.len() as int),
                rust::members_upto(
                    other_list,
                    other_source,
                    path,
                    parent,
                    what,
                    other_list.len() as int,
                ),
            )
        }),
{
    let list = syntax::named_of(one);
    let other_list = syntax::named_of(other);
    moved::lemma_moved_list(one, one_source, other, other_source, one.children.len() as int);
    assert forall|k: int| 0 <= k < list.len() implies same_listed(
        list,
        one_source,
        other_list,
        other_source,
        path,
        parent,
        what,
        k,
    ) by {
        assert(moved(list[k], one_source, other_list[k], other_source));
        lemma_moved_rust_listed(
            list[k],
            one_source,
            other_list[k],
            other_source,
            path,
            parent,
            what,
        );
    }
    lemma_same_members(
        list,
        one_source,
        other_list,
        other_source,
        path,
        parent,
        what,
        list.len() as int,
    );
}

/// The visibility that ends the first `n` children of moved lists is moved.
proof fn lemma_moved_visibility(
    one: SyntaxModel,
    one_source: Seq<char>,
    other: SyntaxModel,
    other_source: Seq<char>,
    n: int,
)
    requires
        moved(one, one_source, other, other_source),
        n <= one.children.len(),
    ensures
        pair_moved(
            rust::visibility_before(one.children, n),
            one_source,
            rust::visibility_before(other.children, n),
            other_source,
            other.start - one.start,
        ),
    decreases n,
{
    if n > 0 {
        moved::lemma_moved_child(one, one_source, other, other_source, n - 1);
        lemma_moved_visibility(one, one_source, other, other_source, n - 1);
    }
}

/// The tuple fields among the first `n` children of moved lists give the same
/// items.
proof fn lemma_moved_rust_tuple(
    one: SyntaxModel,
    one_source: Seq<char>,
    other: SyntaxModel,
    other_source: Seq<char>,
    path: Seq<char>,
    parent: Seq<char>,
    n: int,
)
    requires
        moved(one, one_source, other, other_source),
        n <= one.children.len(),
    ensures
        same_but_line(
            rust::tuple_upto(one.children, one_source, path, parent, n),
            rust::tuple_upto(other.children, other_source, path, parent, n),
        ),
    decreases n,
{
    if n > 0 {
        lemma_moved_rust_tuple(one, one_source, other, other_source, path, parent, n - 1);
        moved::lemma_moved_child(one, one_source, other, other_source, n - 1);
        let a = one.children[n - 1].node;
        let b = other.children[n - 1].node;
        moved::lemma_moved_text(a, one_source, b, other_source);
        moved::lemma_moved_names(Grammar::Rust, a, one_source, b, other_source, None, None);
        lemma_moved_visibility(one, one_source, other, other_source, n - 1);
    }
}

/// The base type of moved types is the same.
pub proof fn lemma_moved_base(
    one: SyntaxModel,
    one_source: Seq<char>,
    other: SyntaxModel,
    other_source: Seq<char>,
)
    requires
        moved(one, one_source, other, other_source),
    ensures
        rust::base_type(one, one_source) == rust::base_type(other, other_source),
    decreases one, one.children.len() + 1,
{
    let n = one.children.len() as int;
    moved::lemma_moved_text(one, one_source, other, other_source);
    lemma_moved_base_from(one, one_source, other, other_source, n);
}

/// The base type in the last `left` children of moved types is the same.
proof fn lemma_moved_base_from(
    one: SyntaxModel,
    one_source: Seq<char>,
    other: SyntaxModel,
    other_source: Seq<char>,
    left: int,
)
    requires
        moved(one, one_source, other, other_source),
    ensures
        rust::base_type_from(one, one_source, left) == rust::base_type_from(
            other,
            other_source,
            left,
        ),
    decreases one, left,
{
    if 0 < left <= one.children.len() {
        let i = one.children.len() - left;
        moved::lemma_moved_child(one, one_source, other, other_source, i);
        lemma_moved_base(one.children[i].node, one_source, other.children[i].node, other_source);
        lemma_moved_base_from(one, one_source, other, other_source, left - 1);
    }
}

/// What impls are of is the same if the nodes that name it are moved.
pub proof fn lemma_moved_impl_trait(
    one: SyntaxModel,
    one_source: Seq<char>,
    other: SyntaxModel,
    other_source: Seq<char>,
    by: int,
)
    requires
        pair_moved(
            syntax::child_in(one, "trait"@),
            one_source,
            syntax::child_in(other, "trait"@),
            other_source,
            by,
        ),
    ensures
        rust::impl_trait(one, one_source) == rust::impl_trait(other, other_source),
{
    if let (Some(a), Some(b)) = (
        syntax::child_in(one, "trait"@),
        syntax::child_in(other, "trait"@),
    ) {
        lemma_moved_base(a, one_source, b, other_source);
    }
}

/// Moved impls give the same items.
proof fn lemma_moved_rust_impl(
    one: SyntaxModel,
    one_source: Seq<char>,
    other: SyntaxModel,
    other_source: Seq<char>,
    path: Seq<char>,
)
    requires
        moved(one, one_source, other, other_source),
    ensures
        same_but_line(
            rust::impl_items(one, one_source, path),
            rust::impl_items(other, other_source, path),
        ),
{
    let by = other.start - one.start;
    moved::lemma_moved_in(one, one_source, other, other_source, "type"@);
    moved::lemma_moved_in(one, one_source, other, other_source, "trait"@);
    moved::lemma_moved_in(one, one_source, other, other_source, "body"@);
    lemma_moved_impl_trait(one, one_source, other, other_source, by);
    if let (Some(ty), Some(other_ty)) = (
        syntax::child_in(one, "type"@),
        syntax::child_in(other, "type"@),
    ) {
        lemma_moved_base(ty, one_source, other_ty, other_source);
        if let (Some(body), Some(other_body), Some(base)) = (
            syntax::child_in(one, "body"@),
            syntax::child_in(other, "body"@),
            rust::base_type(ty, one_source),
        ) {
            let of_name = rust::impl_trait(one, one_source);
            assert forall|k: int| 0 <= k < body.children.len() implies same_impl_member(
                body,
                one_source,
                other_body,
                other_source,
                path,
                base,
                of_name,
                k,
            ) by {
                moved::lemma_moved_child(body, one_source, other_body, other_source, k);
                lemma_moved_rust_impl_member(
                    body.children[k].node,
                    one_source,
                    other_body.children[k].node,
                    other_source,
                    path,
                    base,
                    of_name,
                );
            }
            lemma_same_impl(
                body,
                one_source,
                other_body,
                other_source,
                path,
                base,
                of_name,
                body.children.len() as int,
            );
        }
    }
}

/// The members of moved structs, enums and traits give the same items.
proof fn lemma_moved_rust_composite(
    one: SyntaxModel,
    one_source: Seq<char>,
    other: SyntaxModel,
    other_source: Seq<char>,
    path: Seq<char>,
    what: Members,
)
    requires
        moved(one, one_source, other, other_source),
    ensures
        same_but_line(
            rust::struct_items(one, one_source, path),
            rust::struct_items(other, other_source, path),
        ),
        same_but_line(
            rust::body_items(one, one_source, path, what),
            rust::body_items(other, other_source, path, what),
        ),
{
    moved::lemma_moved_in(one, one_source, other, other_source, "name"@);
    moved::lemma_moved_in(one, one_source, other, other_source, "body"@);
    if let (Some(parent), Some(a), Some(b)) = (
        rust::name_text(one, one_source),
        syntax::child_in(one, "body"@),
        syntax::child_in(other, "body"@),
    ) {
        let n = a.children.len() as int;
        lemma_moved_rust_members(a, one_source, b, other_source, path, parent, what);
        lemma_moved_rust_members(a, one_source, b, other_source, path, parent, Members::Fields);
        lemma_moved_rust_tuple(a, one_source, b, other_source, path, parent, n);
    }
}

/// The kind of the item that carries a declaration's own name.
spec fn rust_kind(node: SyntaxModel) -> Kind {
    if node.kind == "function_item"@ {
        Kind::Function
    } else if node.kind == "struct_item"@ {
        Kind::Struct
    } else if node.kind == "enum_item"@ {
        Kind::Enum
    } else if node.kind == "trait_item"@ {
        Kind::Trait
    } else if node.kind == "type_item"@ {
        Kind::TypeAlias
    } else if node.kind == "const_item"@ {
        Kind::Const
    } else {
        Kind::Static
    }
}

/// Where the signature of that item is cut.
spec fn rust_cut(node: SyntaxModel) -> Option<nat> {
    if node.kind == "function_item"@ || node.kind == "struct_item"@ || node.kind == "enum_item"@
        || node.kind == "trait_item"@ {
        rust::start_of(node, "body"@)
    } else if node.kind == "type_item"@ {
        None
    } else {
        rust::start_of(node, "value"@)
    }
}

/// A Rust declaration that stands elsewhere, and is otherwise the same, gives
/// the same items but for their lines.
pub proof fn law_moved_rust_declarations_keep_their_items(
    one: SyntaxModel,
    one_source: Seq<char>,
    other: SyntaxModel,
    other_source: Seq<char>,
    path: Seq<char>,
    by: int,
)
    requires
        syntax::readable(one, one_source),
        syntax::readable(other, other_source),
        moved::shifted(one, other, by),
        moved::same_span(one_source, other_source, one.start as int, one.end as int, by),
    ensures
        same_but_line(
            rust::declaration_items(one, one_source, path),
            rust::declaration_items(other, other_source, path),
        ),
{
    assert(moved(one, one_source, other, other_source));
    let kind = rust_kind(one);
    let cut = rust_cut(one);
    let other_cut = rust_cut(other);
    lemma_moved_start(one, one_source, other, other_source, "body"@);
    lemma_moved_start(one, one_source, other, other_source, "value"@);
    lemma_moved_rust_named(
        one,
        one_source,
        other,
        other_source,
        path,
        kind,
        cut,
        other_cut,
    );
    lemma_moved_rust_composite(one, one_source, other, other_source, path, Members::Variants);
    lemma_moved_rust_composite(one, one_source, other, other_source, path, Members::TraitMembers);
    lemma_moved_rust_impl(one, one_source, other, other_source, path);
    let named = rust::named_items(one, one_source, path, kind, cut);
    let other_named = rust::named_items(other, other_source, path, kind, other_cut);
    if one.kind == "function_item"@ {
        assert(rust::declaration_items(one, one_source, path) == named);
    } else if one.kind == "struct_item"@ {
        moved::lemma_join_but_line(
            named,
            other_named,
            rust::struct_items(one, one_source, path),
            rust::struct_items(other, other_source, path),
        );
    } else if one.kind == "enum_item"@ {
        moved::lemma_join_but_line(
            named,
            other_named,
            rust::body_items(one, one_source, path, Members::Variants),
            rust::body_items(other, other_source, path, Members::Variants),
        );
    } else if one.kind == "trait_item"@ {
        moved::lemma_join_but_line(
            named,
            other_named,
            rust::body_items(one, one_source, path, Members::TraitMembers),
            rust::body_items(other, other_source, path, Members::TraitMembers),
        );
    }
}

} // verus!
