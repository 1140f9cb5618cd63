//! Trees that moved: the same tree over the same text, further on or further
//! back in its source.

use vstd::prelude::*;
use vstd::utf8::*;

use crate::item::ItemModel;
use crate::producer::go;
use crate::producer::refs;
use crate::producer::syntax::{self, Grammar, SyntaxModel};
use crate::text;

verus! {

/// Whether two trees are the same, but that the second stands `by` bytes
/// further on.
pub open spec fn shifted(one: SyntaxModel, other: SyntaxModel, by: int) -> bool
    decreases one,
{
    &&& one.kind == other.kind
    &&& one.named == other.named
    &&& other.start == one.start + by
    &&& other.end == one.end + by
    &&& one.children.len() == other.children.len()
    &&& forall|i: int|
        0 <= i < one.children.len() ==> (#[trigger] one.children[i]).field
            == other.children[i].field
    &&& forall|i: int|
        0 <= i < one.children.len() ==> shifted(
            #[trigger] one.children[i].node,
            other.children[i].node,
            by,
        )
}

/// Whether the bytes `from..to` of one source are those `by` further on in the
/// other.
pub open spec fn same_span(one: Seq<char>, other: Seq<char>, from: int, to: int, by: int) -> bool {
    &&& 0 <= from <= to <= encode_utf8(one).len()
    &&& 0 <= from + by
    &&& to + by <= encode_utf8(other).len()
    &&& encode_utf8(one).subrange(from, to) == encode_utf8(other).subrange(from + by, to + by)
}

/// Whether two trees in two sources are the same over the same text, wherever
/// they stand.
pub open spec fn moved(
    one: SyntaxModel,
    one_source: Seq<char>,
    other: SyntaxModel,
    other_source: Seq<char>,
) -> bool {
    let by = other.start - one.start;
    &&& syntax::readable(one, one_source)
    &&& syntax::readable(other, other_source)
    &&& shifted(one, other, by)
    &&& same_span(one_source, other_source, one.start as int, one.end as int, by)
}

/// Whether neither of two nodes is there, or the second is the first moved
/// `by` bytes.
pub open spec fn pair_moved(
    one: Option<SyntaxModel>,
    one_source: Seq<char>,
    other: Option<SyntaxModel>,
    other_source: Seq<char>,
    by: int,
) -> bool {
    match (one, other) {
        (Some(a), Some(b)) => moved(a, one_source, b, other_source) && b.start == a.start + by,
        (None, None) => true,
        _ => false,
    }
}

/// Whether the nodes of one list are those of another, moved.
pub open spec fn all_moved(
    one: Seq<SyntaxModel>,
    one_source: Seq<char>,
    other: Seq<SyntaxModel>,
    other_source: Seq<char>,
) -> bool {
    &&& one.len() == other.len()
    &&& forall|k: int|
        0 <= k < one.len() ==> moved(#[trigger] one[k], one_source, other[k], other_source)
}

/// Whether two cuts are the same, but that the second lies `by` bytes further
/// on.
pub open spec fn cut_moved(one: Option<nat>, other: Option<nat>, by: int) -> bool {
    match (one, other) {
        (Some(a), Some(b)) => b == a + by,
        (None, None) => true,
        _ => false,
    }
}

/// Whether two sequences of items differ at most in the lines on which the
/// items stand.
pub open spec fn same_but_line(one: Seq<ItemModel>, other: Seq<ItemModel>) -> bool {
    &&& one.len() == other.len()
    &&& forall|k: int|
        0 <= k < one.len() ==> #[trigger] one[k] == (ItemModel { line: one[k].line, ..other[k] })
}

/// Joined items differ at most in their lines if both parts do.
pub proof fn lemma_join_but_line(
    a: Seq<ItemModel>,
    b: Seq<ItemModel>,
    more_a: Seq<ItemModel>,
    more_b: Seq<ItemModel>,
)
    requires
        same_but_line(a, b),
        same_but_line(more_a, more_b),
    ensures
        same_but_line(a + more_a, b + more_b),
{
    let all_a = a + more_a;
    let all_b = b + more_b;
    assert forall|k: int| 0 <= k < all_a.len() implies #[trigger] all_a[k] == (ItemModel {
        line: all_a[k].line,
        ..all_b[k]
    }) by {
        if k < a.len() {
            assert(all_a[k] == a[k] && all_b[k] == b[k]);
        } else {
            assert(all_a[k] == more_a[k - a.len()] && all_b[k] == more_b[k - a.len()]);
        }
    }
}

/// Part of a span that two sources share is shared.
pub proof fn lemma_same_part(
    one: Seq<char>,
    other: Seq<char>,
    from: int,
    to: int,
    by: int,
    start: int,
    end: int,
)
    requires
        same_span(one, other, from, to, by),
        from <= start <= end <= to,
    ensures
        same_span(one, other, start, end, by),
        text::byte_text(one, start, end) == text::byte_text(other, start + by, end + by),
{
    let a = encode_utf8(one);
    let b = encode_utf8(other);
    assert(a.subrange(start, end) =~= a.subrange(from, to).subrange(start - from, end - from));
    assert(b.subrange(start + by, end + by) =~= b.subrange(from + by, to + by).subrange(
        start - from,
        end - from,
    ));
}

/// Moved trees cover the same text.
pub proof fn lemma_moved_text(
    one: SyntaxModel,
    one_source: Seq<char>,
    other: SyntaxModel,
    other_source: Seq<char>,
)
    requires
        moved(one, one_source, other, other_source),
    ensures
        syntax::node_text(one, one_source) == syntax::node_text(other, other_source),
{
}

/// The children of moved trees are moved.
pub proof fn lemma_moved_child(
    one: SyntaxModel,
    one_source: Seq<char>,
    other: SyntaxModel,
    other_source: Seq<char>,
    i: int,
)
    requires
        moved(one, one_source, other, other_source),
        0 <= i < one.children.len(),
    ensures
        one.children[i].field == other.children[i].field,
        moved(one.children[i].node, one_source, other.children[i].node, other_source),
        other.children[i].node.start - one.children[i].node.start == other.start - one.start,
{
    let by = other.start - one.start;
    let child = one.children[i].node;
    assert(one.children[i].field == other.children[i].field);
    assert(shifted(child, other.children[i].node, by));
    assert(syntax::fits_in(one, child));
    assert(syntax::readable(child, one_source));
    assert(syntax::readable(other.children[i].node, other_source));
    lemma_same_part(
        one_source,
        other_source,
        one.start as int,
        one.end as int,
        by,
        child.start as int,
        child.end as int,
    );
}

/// Type names in moved trees are the same.
pub proof fn lemma_moved_names(
    grammar: Grammar,
    one: SyntaxModel,
    one_source: Seq<char>,
    other: SyntaxModel,
    other_source: Seq<char>,
    cut: Option<nat>,
    other_cut: Option<nat>,
)
    requires
        moved(one, one_source, other, other_source),
        cut_moved(cut, other_cut, other.start - one.start),
    ensures
        refs::names_in(grammar, one, one_source, cut) == refs::names_in(
            grammar,
            other,
            other_source,
            other_cut,
        ),
    decreases one, one.children.len() + 1,
{
    let n = one.children.len() as int;
    lemma_moved_text(one, one_source, other, other_source);
    lemma_moved_names_upto(grammar, one, one_source, other, other_source, cut, other_cut, n);
}

/// Type names in the first children of moved trees are the same.
proof fn lemma_moved_names_upto(
    grammar: Grammar,
    one: SyntaxModel,
    one_source: Seq<char>,
    other: SyntaxModel,
    other_source: Seq<char>,
    cut: Option<nat>,
    other_cut: Option<nat>,
    n: int,
)
    requires
        moved(one, one_source, other, other_source),
        cut_moved(cut, other_cut, other.start - one.start),
    ensures
        refs::names_upto(grammar, one, one_source, cut, n) == refs::names_upto(
            grammar,
            other,
            other_source,
            other_cut,
            n,
        ),
    decreases one, n,
{
    if 0 < n <= one.children.len() {
        lemma_moved_child(one, one_source, other, other_source, n - 1);
        lemma_moved_names_upto(
            grammar,
            one,
            one_source,
            other,
            other_source,
            cut,
            other_cut,
            n - 1,
        );
        lemma_moved_names(
            grammar,
            one.children[n - 1].node,
            one_source,
            other.children[n - 1].node,
            other_source,
            cut,
            other_cut,
        );
    }
}

/// A field is filled at the same place in moved trees.
proof fn lemma_moved_field(
    one: SyntaxModel,
    one_source: Seq<char>,
    other: SyntaxModel,
    other_source: Seq<char>,
    field: Seq<char>,
    i: int,
)
    requires
        moved(one, one_source, other, other_source),
        0 <= i <= one.children.len(),
    ensures
        syntax::field_at(one, field, i) == syntax::field_at(other, field, i),
        syntax::field_at(one, field, i) matches Some(at) ==> i <= at < one.children.len(),
    decreases one.children.len() - i,
{
    if i < one.children.len() {
        lemma_moved_child(one, one_source, other, other_source, i);
        lemma_moved_field(one, one_source, other, other_source, field, i + 1);
    }
}

/// What fills a field of moved trees is moved, and lies within them.
pub proof fn lemma_moved_in(
    one: SyntaxModel,
    one_source: Seq<char>,
    other: SyntaxModel,
    other_source: Seq<char>,
    field: Seq<char>,
)
    requires
        moved(one, one_source, other, other_source),
    ensures
        pair_moved(
            syntax::child_in(one, field),
            one_source,
            syntax::child_in(other, field),
            other_source,
            other.start - one.start,
        ),
        syntax::child_in(one, field) matches Some(child) ==> syntax::fits_in(one, child),
{
    lemma_moved_field(one, one_source, other, other_source, field, 0);
    if let Some(at) = syntax::field_at(one, field, 0) {
        lemma_moved_child(one, one_source, other, other_source, at);
        assert(syntax::fits_in(one, one.children[at].node));
    }
}

/// The first children of a kind in moved trees are moved.
pub proof fn lemma_moved_kind(
    one: SyntaxModel,
    one_source: Seq<char>,
    other: SyntaxModel,
    other_source: Seq<char>,
    kind: Seq<char>,
    i: int,
)
    requires
        moved(one, one_source, other, other_source),
        0 <= i <= one.children.len(),
    ensures
        pair_moved(
            go::first_of_kind(one, kind, i),
            one_source,
            go::first_of_kind(other, kind, i),
            other_source,
            other.start - one.start,
        ),
    decreases one.children.len() - i,
{
    if i < one.children.len() {
        lemma_moved_child(one, one_source, other, other_source, i);
        lemma_moved_kind(one, one_source, other, other_source, kind, i + 1);
    }
}

/// The first named children of moved trees are moved.
proof fn lemma_moved_first(
    one: SyntaxModel,
    one_source: Seq<char>,
    other: SyntaxModel,
    other_source: Seq<char>,
    i: int,
)
    requires
        moved(one, one_source, other, other_source),
        0 <= i <= one.children.len(),
    ensures
        pair_moved(
            go::first_named(one, i),
            one_source,
            go::first_named(other, i),
            other_source,
            other.start - one.start,
        ),
    decreases one.children.len() - i,
{
    if i < one.children.len() {
        lemma_moved_child(one, one_source, other, other_source, i);
        lemma_moved_first(one, one_source, other, other_source, i + 1);
    }
}

/// What moved types point to is moved.
pub proof fn lemma_moved_pointed(
    one: SyntaxModel,
    one_source: Seq<char>,
    other: SyntaxModel,
    other_source: Seq<char>,
)
    requires
        moved(one, one_source, other, other_source),
    ensures
        moved(go::pointed(one), one_source, go::pointed(other), other_source),
{
    lemma_moved_first(one, one_source, other, other_source, 0);
}

/// The named ones of the first children of moved trees are moved.
pub proof fn lemma_moved_list(
    one: SyntaxModel,
    one_source: Seq<char>,
    other: SyntaxModel,
    other_source: Seq<char>,
    n: int,
)
    requires
        moved(one, one_source, other, other_source),
        0 <= n <= one.children.len(),
    ensures
        all_moved(
            syntax::named_upto(one, n),
            one_source,
            syntax::named_upto(other, n),
            other_source,
        ),
    decreases n,
{
    if n > 0 {
        lemma_moved_child(one, one_source, other, other_source, n - 1);
        lemma_moved_list(one, one_source, other, other_source, n - 1);
    }
}

} // verus!
