//! How often the diff shows an item: no more often than it is declared.

use vstd::prelude::*;

use crate::changes::{self, Place, ViewModel};
use crate::item::{IdModel, ItemModel};
use crate::surface;

verus! {

/// How many of the items are identified by `id`.
pub open spec fn declared(items: Seq<ItemModel>, id: IdModel) -> nat
    decreases items.len(),
{
    if items.len() == 0 {
        0
    } else {
        declared(items.drop_last(), id) + one_if(items.last().id == id)
    }
}

/// How many of the rows show the item identified by `id`.
pub open spec fn listed(rows: Seq<ViewModel>, id: IdModel) -> nat
    decreases rows.len(),
{
    if rows.len() == 0 {
        0
    } else {
        listed(rows.drop_last(), id) + one_if(rows.last().item.id == id)
    }
}

/// How many rows of the blocks, headers and members alike, show the item
/// identified by `id`.
pub open spec fn shown(blocks: Seq<ViewModel>, id: IdModel) -> nat
    decreases blocks.len(),
{
    if blocks.len() == 0 {
        0
    } else {
        shown(blocks.drop_last(), id) + one_if(blocks.last().item.id == id) + listed(
            blocks.last().members,
            id,
        )
    }
}

/// One, or none.
pub open spec fn one_if(here: bool) -> nat {
    if here {
        1
    } else {
        0
    }
}

/// Whether no two items share an id.
pub open spec fn distinct_ids(items: Seq<ItemModel>) -> bool {
    forall|i: int, j: int|
        0 <= i < j < items.len() ==> (#[trigger] items[i]).id != (#[trigger] items[j]).id
}

/// How many of `0..n` that are hits go to `at`.
spec fn bucket(
    to: spec_fn(int) -> Option<int>,
    hit: spec_fn(int) -> bool,
    at: int,
    n: int,
) -> nat
    decreases n,
{
    if n <= 0 {
        0
    } else {
        bucket(to, hit, at, n - 1) + one_if(hit(n - 1) && to(n - 1) == Some(at))
    }
}

/// How many of `0..n` that are hits go to the first `k` places.
spec fn spread(
    to: spec_fn(int) -> Option<int>,
    hit: spec_fn(int) -> bool,
    places: Seq<int>,
    k: int,
    n: int,
) -> nat
    decreases k,
{
    if k <= 0 {
        0
    } else {
        spread(to, hit, places, k - 1, n) + bucket(to, hit, places[k - 1], n)
    }
}

/// How many of `0..n` that are hits go anywhere.
spec fn placed(to: spec_fn(int) -> Option<int>, hit: spec_fn(int) -> bool, n: int) -> nat
    decreases n,
{
    if n <= 0 {
        0
    } else {
        placed(to, hit, n - 1) + one_if(hit(n - 1) && to(n - 1) is Some)
    }
}

/// How many of `0..n` that are hits go nowhere.
spec fn left_over(to: spec_fn(int) -> Option<int>, hit: spec_fn(int) -> bool, n: int) -> nat
    decreases n,
{
    if n <= 0 {
        0
    } else {
        left_over(to, hit, n - 1) + one_if(hit(n - 1) && to(n - 1) is None)
    }
}

/// One more number goes to one place at most.
proof fn lemma_spread_step(
    to: spec_fn(int) -> Option<int>,
    hit: spec_fn(int) -> bool,
    places: Seq<int>,
    k: int,
    n: int,
)
    requires
        places.no_duplicates(),
        k <= places.len(),
        n > 0,
    ensures
        spread(to, hit, places, k, n) <= spread(to, hit, places, k, n - 1) + one_if(
            hit(n - 1) && to(n - 1) is Some,
        ),
        (forall|b: int| 0 <= b < k ==> to(n - 1) != Some(#[trigger] places[b])) ==> spread(
            to,
            hit,
            places,
            k,
            n,
        ) == spread(to, hit, places, k, n - 1),
    decreases k,
{
    if k > 0 {
        lemma_spread_step(to, hit, places, k - 1, n);
        if to(n - 1) == Some(places[k - 1]) {
            assert forall|b: int| 0 <= b < k - 1 implies to(n - 1) != Some(#[trigger] places[b]) by {
                assert(places[b] != places[k - 1]);
            }
        }
    }
}

/// What goes to distinct places is no more than what goes anywhere.
proof fn lemma_spread(
    to: spec_fn(int) -> Option<int>,
    hit: spec_fn(int) -> bool,
    places: Seq<int>,
    n: int,
)
    requires
        places.no_duplicates(),
    ensures
        spread(to, hit, places, places.len() as int, n) <= placed(to, hit, n),
    decreases n,
{
    if n > 0 {
        lemma_spread(to, hit, places, n - 1);
        lemma_spread_step(to, hit, places, places.len() as int, n);
    } else {
        lemma_spread_none(to, hit, places, places.len() as int, n);
    }
}

/// Nothing goes nowhere.
proof fn lemma_spread_none(
    to: spec_fn(int) -> Option<int>,
    hit: spec_fn(int) -> bool,
    places: Seq<int>,
    k: int,
    n: int,
)
    requires
        n <= 0,
    ensures
        spread(to, hit, places, k, n) == 0,
    decreases k,
{
    if k > 0 {
        lemma_spread_none(to, hit, places, k - 1, n);
    }
}

/// What goes somewhere and what goes nowhere is everything.
proof fn lemma_all_counted(
    items: Seq<ItemModel>,
    id: IdModel,
    to: spec_fn(int) -> Option<int>,
    hit: spec_fn(int) -> bool,
    n: int,
)
    requires
        0 <= n <= items.len(),
        forall|i: int| 0 <= i < items.len() ==> (#[trigger] hit(i) ==> items[i].id == id),
    ensures
        placed(to, hit, n) + left_over(to, hit, n) <= declared(items.take(n), id),
    decreases n,
{
    if n > 0 {
        lemma_all_counted(items, id, to, hit, n - 1);
        assert(items.take(n).drop_last() =~= items.take(n - 1));
        assert(items.take(n).last() == items[n - 1]);
    }
}

/// The items that start a block ascend.
proof fn lemma_starts_ascend(head: Seq<ItemModel>, n: int)
    ensures
        changes::headers(head, n).no_duplicates(),
        forall|b: int|
            0 <= b < changes::headers(head, n).len() ==> 0 <= #[trigger] changes::headers(head, n)[b]
                < n,
    decreases n,
{
    if n > 0 {
        lemma_starts_ascend(head, n - 1);
    }
}

/// How many of the first `k` blocks start with a hit.
spec fn heads(hit: spec_fn(int) -> bool, starts: Seq<int>, k: int) -> nat
    decreases k,
{
    if k <= 0 {
        0
    } else {
        heads(hit, starts, k - 1) + one_if(hit(starts[k - 1]))
    }
}

/// Starts that are joined by more are counted the same.
proof fn lemma_heads_prefix(hit: spec_fn(int) -> bool, starts: Seq<int>, more: Seq<int>, k: int)
    requires
        k <= starts.len() <= more.len(),
        forall|b: int| 0 <= b < starts.len() ==> starts[b] == #[trigger] more[b],
    ensures
        heads(hit, starts, k) == heads(hit, more, k),
    decreases k,
{
    if k > 0 {
        lemma_heads_prefix(hit, starts, more, k - 1);
        assert(starts[k - 1] == more[k - 1]);
    }
}

/// Blocks start with the items that join none.
proof fn lemma_heads(
    head: Seq<ItemModel>,
    to: spec_fn(int) -> Option<int>,
    hit: spec_fn(int) -> bool,
    n: int,
)
    requires
        to == (|i: int| changes::owner(head, i)),
    ensures
        heads(hit, changes::headers(head, n), changes::headers(head, n).len() as int)
            == left_over(to, hit, n),
    decreases n,
{
    if n > 0 {
        lemma_heads(head, to, hit, n - 1);
        let before = changes::headers(head, n - 1);
        lemma_heads_prefix(hit, before, changes::headers(head, n), before.len() as int);
    }
}

/// The members that head items bring to a block.
proof fn lemma_head_members(
    base: Seq<ItemModel>,
    head: Seq<ItemModel>,
    id: IdModel,
    to: spec_fn(int) -> Option<int>,
    hit: spec_fn(int) -> bool,
    at: int,
    n: int,
)
    requires
        to == (|i: int| changes::owner(head, i)),
        hit == (|i: int| head[i].id == id),
    ensures
        listed(changes::head_members(base, head, at, n), id) == bucket(to, hit, at, n),
    decreases n,
{
    if n > 0 {
        lemma_head_members(base, head, id, to, hit, at, n - 1);
        let before = changes::head_members(base, head, at, n - 1);
        let now = changes::head_members(base, head, at, n);
        if changes::owner(head, n - 1) == Some(at) {
            assert(now.drop_last() =~= before);
        }
    }
}

/// The block a removed base item goes to.
spec fn block_of(base: Seq<ItemModel>, head: Seq<ItemModel>, i: int) -> Option<int> {
    match changes::place(base, head, i) {
        Place::Member(at) => Some(at),
        _ => None,
    }
}

/// The removal rows that go to a block.
proof fn lemma_block_removals(
    base: Seq<ItemModel>,
    head: Seq<ItemModel>,
    id: IdModel,
    to: spec_fn(int) -> Option<int>,
    hit: spec_fn(int) -> bool,
    at: int,
    n: int,
)
    requires
        to == (|i: int| block_of(base, head, i)),
        hit == (|i: int| changes::removed(base, head, i) && base[i].id == id),
    ensures
        listed(changes::removals(base, head, Place::Member(at), n), id) == bucket(to, hit, at, n),
    decreases n,
{
    if n > 0 {
        lemma_block_removals(base, head, id, to, hit, at, n - 1);
        let before = changes::removals(base, head, Place::Member(at), n - 1);
        let now = changes::removals(base, head, Place::Member(at), n);
        if changes::removed(base, head, n - 1) && changes::place(base, head, n - 1)
            == Place::Member(at) {
            assert(now.drop_last() =~= before);
        }
    }
}

/// The removal rows that trail the file.
proof fn lemma_tail_removals(
    base: Seq<ItemModel>,
    head: Seq<ItemModel>,
    id: IdModel,
    to: spec_fn(int) -> Option<int>,
    hit: spec_fn(int) -> bool,
    n: int,
)
    requires
        to == (|i: int| block_of(base, head, i)),
        hit == (|i: int| changes::removed(base, head, i) && base[i].id == id),
    ensures
        shown(changes::removals(base, head, Place::Tail, n), id) <= left_over(to, hit, n),
    decreases n,
{
    if n > 0 {
        lemma_tail_removals(base, head, id, to, hit, n - 1);
        let before = changes::removals(base, head, Place::Tail, n - 1);
        let now = changes::removals(base, head, Place::Tail, n);
        if changes::removed(base, head, n - 1) && changes::place(base, head, n - 1) == Place::Tail {
            assert(now.drop_last() =~= before);
            assert(now.last().members =~= seq![]);
        }
    }
}

/// Rows joined are counted together.
proof fn lemma_listed_join(a: Seq<ViewModel>, b: Seq<ViewModel>, id: IdModel)
    ensures
        listed(a + b, id) == listed(a, id) + listed(b, id),
    decreases b.len(),
{
    if b.len() == 0 {
        assert(a + b =~= a);
    } else {
        lemma_listed_join(a, b.drop_last(), id);
        assert((a + b).drop_last() =~= a + b.drop_last());
    }
}

/// Blocks joined are counted together.
proof fn lemma_shown_join(a: Seq<ViewModel>, b: Seq<ViewModel>, id: IdModel)
    ensures
        shown(a + b, id) == shown(a, id) + shown(b, id),
    decreases b.len(),
{
    if b.len() == 0 {
        assert(a + b =~= a);
    } else {
        lemma_shown_join(a, b.drop_last(), id);
        assert((a + b).drop_last() =~= a + b.drop_last());
    }
}

/// A choice of blocks shows no more than all of them.
proof fn lemma_shown_filter(blocks: Seq<ViewModel>, keep: spec_fn(ViewModel) -> bool, id: IdModel)
    ensures
        shown(blocks.filter(keep), id) <= shown(blocks, id),
    decreases blocks.len(),
{
    reveal(Seq::filter);
    if blocks.len() > 0 {
        lemma_shown_filter(blocks.drop_last(), keep, id);
        let rest = blocks.drop_last().filter(keep);
        if keep(blocks.last()) {
            assert(blocks.filter(keep).drop_last() =~= rest);
        }
    }
}

/// What the first `k` blocks of the head show.
proof fn lemma_blocks(
    base: Seq<ItemModel>,
    head: Seq<ItemModel>,
    id: IdModel,
    starts: Seq<int>,
    k: int,
)
    requires
        0 <= k <= starts.len(),
    ensures
        ({
            let owner = |i: int| changes::owner(head, i);
            let same = |i: int| head[i].id == id;
            let place = |i: int| block_of(base, head, i);
            let gone = |i: int| changes::removed(base, head, i) && base[i].id == id;
            shown(Seq::new(k as nat, |b: int| changes::block(base, head, starts[b])), id) == heads(
                same,
                starts,
                k,
            ) + spread(owner, same, starts, k, head.len() as int) + spread(
                place,
                gone,
                starts,
                k,
                base.len() as int,
            )
        }),
    decreases k,
{
    let owner = |i: int| changes::owner(head, i);
    let same = |i: int| head[i].id == id;
    let place = |i: int| block_of(base, head, i);
    let gone = |i: int| changes::removed(base, head, i) && base[i].id == id;
    let blocks = Seq::new(k as nat, |b: int| changes::block(base, head, starts[b]));
    if k > 0 {
        let at = starts[k - 1];
        let members = changes::head_members(base, head, at, head.len() as int);
        let removals = changes::removals(base, head, Place::Member(at), base.len() as int);
        lemma_blocks(base, head, id, starts, k - 1);
        assert(blocks.drop_last() =~= Seq::new(
            (k - 1) as nat,
            |b: int| changes::block(base, head, starts[b]),
        ));
        assert(blocks.last() == changes::block(base, head, at));
        lemma_listed_join(members, removals, id);
        lemma_head_members(base, head, id, owner, same, at, head.len() as int);
        lemma_block_removals(base, head, id, place, gone, at, base.len() as int);
    }
}

/// Without a hit nothing is counted.
proof fn lemma_no_hit(to: spec_fn(int) -> Option<int>, hit: spec_fn(int) -> bool, n: int)
    requires
        forall|i: int| 0 <= i < n ==> !#[trigger] hit(i),
    ensures
        placed(to, hit, n) == 0,
        left_over(to, hit, n) == 0,
    decreases n,
{
    if n > 0 {
        lemma_no_hit(to, hit, n - 1);
    }
}

/// No item is shown more often than it is declared: one that the head has, no
/// more often than there; one that is gone, no more often than in the base.
pub proof fn law_items_are_shown_as_often_as_declared(
    base: Seq<ItemModel>,
    head: Seq<ItemModel>,
    id: IdModel,
)
    ensures
        shown(changes::diff_blocks(base, head), id) <= (if surface::has_id(head, id) {
            declared(head, id)
        } else {
            declared(base, id)
        }),
{
    let owner = |i: int| changes::owner(head, i);
    let same = |i: int| head[i].id == id;
    let place = |i: int| block_of(base, head, i);
    let gone = |i: int| changes::removed(base, head, i) && base[i].id == id;
    let n = head.len() as int;
    let m = base.len() as int;
    let starts = changes::headers(head, n);
    let k = starts.len() as int;
    let blocks = Seq::new(starts.len(), |b: int| changes::block(base, head, starts[b]));
    let tail = changes::removals(base, head, Place::Tail, m);
    lemma_shown_filter(
        changes::all_blocks(base, head),
        |view: ViewModel| changes::view_changed(view),
        id,
    );
    lemma_shown_join(blocks, tail, id);
    lemma_blocks(base, head, id, starts, k);
    lemma_starts_ascend(head, n);
    lemma_heads(head, owner, same, n);
    lemma_spread(owner, same, starts, n);
    lemma_spread(place, gone, starts, m);
    lemma_tail_removals(base, head, id, place, gone, m);
    lemma_all_counted(head, id, owner, same, n);
    lemma_all_counted(base, id, place, gone, m);
    assert(head.take(n) =~= head);
    assert(base.take(m) =~= base);
    if surface::has_id(head, id) {
        lemma_no_hit(place, gone, m);
    } else {
        lemma_no_hit(owner, same, n);
    }
}

/// An id that no two items share is declared at most once.
proof fn lemma_declared_once(items: Seq<ItemModel>, id: IdModel)
    requires
        distinct_ids(items),
    ensures
        declared(items, id) <= one_if(surface::has_id(items, id)),
    decreases items.len(),
{
    if items.len() > 0 {
        let rest = items.drop_last();
        assert forall|i: int, j: int| 0 <= i < j < rest.len() implies (#[trigger] rest[i]).id != (
        #[trigger] rest[j]).id by {
            assert(items[i].id != items[j].id);
        }
        lemma_declared_once(rest, id);
        if surface::has_id(rest, id) {
            let at = choose|at: int| 0 <= at < rest.len() && (#[trigger] rest[at]).id == id;
            assert(items[at].id == id);
            assert(items[items.len() - 1].id != id);
        } else if items.last().id == id {
            assert(items[items.len() - 1].id == id);
        }
    }
}

/// No item is shown twice, as long as no two items of a side share an id.
pub proof fn law_no_item_is_shown_twice(
    base: Seq<ItemModel>,
    head: Seq<ItemModel>,
    id: IdModel,
)
    requires
        distinct_ids(base),
        distinct_ids(head),
    ensures
        shown(changes::diff_blocks(base, head), id) <= 1,
{
    law_items_are_shown_as_often_as_declared(base, head, id);
    lemma_declared_once(base, id);
    lemma_declared_once(head, id);
}

} // verus!
