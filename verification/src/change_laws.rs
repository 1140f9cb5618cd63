//! Which rows a diff has: what became of an item, whose block it stands in, and
//! in which order.

use vstd::prelude::*;

use crate::changes::{self, Place, StatusModel, ViewModel};
use crate::diff_laws;
use crate::item::{IdModel, ItemModel};
use crate::layout;
use crate::surface;

verus! {

/// Whether no item is identified by `id`.
pub open spec fn unknown(items: Seq<ItemModel>, id: IdModel) -> bool {
    forall|i: int| 0 <= i < items.len() ==> (#[trigger] items[i]).id != id
}

/// Whether item `at` is the last one identified by `id`.
pub open spec fn last_of(items: Seq<ItemModel>, id: IdModel, at: int) -> bool {
    &&& 0 <= at < items.len()
    &&& items[at].id == id
    &&& forall|k: int| at < k < items.len() ==> (#[trigger] items[k]).id != id
}

/// An id finds the last item that it identifies, and nothing exactly if it
/// identifies none.
pub proof fn law_ids_find_their_last_item(items: Seq<ItemModel>, id: IdModel, at: int)
    ensures
        unknown(items, id) <==> surface::by_id(items, id) is None,
        last_of(items, id, at) ==> surface::by_id(items, id) == Some(items[at]),
{
    surface::lemma_by_id(items, id);
    if surface::by_id(items, id) is Some {
        let found = choose|found: int|
            #[trigger] surface::last_with_id(items, id, found) && surface::by_id(items, id)
                == Some(items[found]);
        assert(items[found].id == id);
        if last_of(items, id, at) {
            if at < found {
                assert(items[found].id != id);
            }
            if found < at {
                assert(items[at].id != id);
            }
        }
    } else {
        assert forall|i: int| 0 <= i < items.len() implies (#[trigger] items[i]).id != id by {
            if items[i].id == id {
                assert(surface::has_id(items, id));
            }
        }
    }
}

/// What became of a head item is told by its id and its signature alone: it is
/// added if the base does not know its id, unchanged if the base has it with the
/// same signature, and modified, from what the base has, if with another.
pub proof fn law_signatures_tell_what_changed(base: Seq<ItemModel>, item: ItemModel, at: int)
    ensures
        unknown(base, item.id) ==> changes::status_of(base, item) == StatusModel::Added,
        last_of(base, item.id, at) && base[at].signature == item.signature ==> changes::status_of(
            base,
            item,
        ) == StatusModel::Unchanged,
        last_of(base, item.id, at) && base[at].signature != item.signature ==> changes::status_of(
            base,
            item,
        ) == (StatusModel::Modified { before: base[at] }),
{
    law_ids_find_their_last_item(base, item.id, at);
}

/// Whether item `k` stands on its own and is called `name`.
pub open spec fn is_type(items: Seq<ItemModel>, name: Seq<char>, k: int) -> bool {
    items[k].parent is None && items[k].id.name == name
}

/// Whether item `t` is the last of the first `n` that stands on its own and is
/// called `name`.
pub open spec fn last_type(items: Seq<ItemModel>, name: Seq<char>, n: int, t: int) -> bool {
    &&& 0 <= t < n
    &&& is_type(items, name, t)
    &&& forall|k: int| t < k < n ==> !#[trigger] is_type(items, name, k)
}

/// The last item of a name is found, and nothing if there is none.
proof fn lemma_last_top(items: Seq<ItemModel>, name: Seq<char>, n: int)
    ensures
        match changes::last_top(items, name, n) {
            Some(t) => last_type(items, name, n, t),
            None => forall|k: int| 0 <= k < n ==> !#[trigger] is_type(items, name, k),
        },
    decreases n,
{
    if n > 0 {
        lemma_last_top(items, name, n - 1);
    }
}

/// Whether head item `i` stands in the block of head item `t`: it has a parent,
/// and `t` is the last item before it that stands on its own and is called like
/// that.
pub open spec fn belongs(head: Seq<ItemModel>, i: int, t: int) -> bool {
    head[i].parent matches Some(parent) && last_type(head, parent, i, t)
}

/// Whether head item `i` starts a block of its own: it has no parent, or none
/// that stands before it.
pub open spec fn starts(head: Seq<ItemModel>, i: int) -> bool {
    match head[i].parent {
        None => true,
        Some(parent) => forall|k: int| 0 <= k < i ==> !#[trigger] is_type(head, parent, k),
    }
}

/// Who owns a head item.
proof fn lemma_owner(head: Seq<ItemModel>, i: int, t: int)
    ensures
        changes::owner(head, i) == Some(t) <==> belongs(head, i, t),
        changes::owner(head, i) is None <==> starts(head, i),
{
    if let Some(parent) = head[i].parent {
        lemma_last_top(head, parent, i);
        if let Some(found) = changes::last_top(head, parent, i) {
            assert(is_type(head, parent, found));
            if belongs(head, i, t) {
                assert(is_type(head, parent, t));
            }
        }
    }
}

/// Whether base item `j` is gone: the head does not know its id.
pub open spec fn gone(base: Seq<ItemModel>, head: Seq<ItemModel>, j: int) -> bool {
    unknown(head, base[j].id)
}

/// Whether a type of that name is gone.
pub open spec fn type_gone(base: Seq<ItemModel>, head: Seq<ItemModel>, name: Seq<char>) -> bool {
    exists|k: int| 0 <= k < base.len() && #[trigger] is_type(base, name, k) && gone(base, head, k)
}

/// Whether base item `j` is shown as removed from the block of head item `t`: it
/// is gone, its parent is not, and `t` is the last that is called like that.
pub open spec fn leaves(base: Seq<ItemModel>, head: Seq<ItemModel>, j: int, t: int) -> bool {
    gone(base, head, j) && (base[j].parent matches Some(parent) && !type_gone(base, head, parent)
        && last_type(head, parent, head.len() as int, t))
}

/// Whether base item `j` is shown as removed after everything else: it is gone,
/// and it had no parent, or one that neither went with it nor is in the head.
pub open spec fn trails(base: Seq<ItemModel>, head: Seq<ItemModel>, j: int) -> bool {
    gone(base, head, j) && match base[j].parent {
        None => true,
        Some(parent) => !type_gone(base, head, parent) && forall|k: int|
            0 <= k < head.len() ==> !#[trigger] is_type(head, parent, k),
    }
}

/// Where a removed item goes.
proof fn lemma_place(base: Seq<ItemModel>, head: Seq<ItemModel>, j: int, t: int)
    ensures
        changes::removed(base, head, j) <==> gone(base, head, j),
        changes::removed(base, head, j) && changes::place(base, head, j) == Place::Member(t)
            <==> leaves(base, head, j, t),
        changes::removed(base, head, j) && changes::place(base, head, j) == Place::Tail <==> trails(
            base,
            head,
            j,
        ),
{
    lemma_gone(base, head, j);
    if let Some(parent) = base[j].parent {
        lemma_last_top(head, parent, head.len() as int);
        assert(changes::removed_composite(base, head, parent) <==> type_gone(base, head, parent)) by {
            if changes::removed_composite(base, head, parent) {
                let k = choose|k: int|
                    0 <= k < base.len() && #[trigger] changes::top_level(base[k])
                        && changes::removed(base, head, k) && base[k].id.name == parent;
                lemma_gone(base, head, k);
                assert(is_type(base, parent, k));
            }
            if type_gone(base, head, parent) {
                let k = choose|k: int|
                    0 <= k < base.len() && #[trigger] is_type(base, parent, k) && gone(
                        base,
                        head,
                        k,
                    );
                lemma_gone(base, head, k);
                assert(changes::top_level(base[k]));
            }
        }
        if let Some(found) = changes::last_top(head, parent, head.len() as int) {
            assert(is_type(head, parent, found));
            if last_type(head, parent, head.len() as int, t) {
                assert(is_type(head, parent, t));
            }
        }
    }
}

/// A base item is gone if the head does not know its id.
proof fn lemma_gone(base: Seq<ItemModel>, head: Seq<ItemModel>, j: int)
    ensures
        changes::removed(base, head, j) <==> gone(base, head, j),
{
    if surface::has_id(head, base[j].id) {
        let at = choose|at: int| 0 <= at < head.len() && (#[trigger] head[at]).id == base[j].id;
        assert(head[at].id == base[j].id);
    } else {
        assert forall|i: int| 0 <= i < head.len() implies (#[trigger] head[i]).id != base[j].id by {
            if head[i].id == base[j].id {
                assert(surface::has_id(head, base[j].id));
            }
        }
    }
}

/// A row of its own.
pub open spec fn row(status: StatusModel, item: ItemModel) -> Seq<ViewModel> {
    seq![ViewModel { status, item, members: seq![] }]
}

/// The block of a head item is the item itself with what became of it, then all
/// of its members that the head has, in the head's order and with what became of
/// each, then all of its members that are gone, in the base's order; and nothing
/// else.
pub proof fn law_blocks_hold_all_their_members(
    base: Seq<ItemModel>,
    head: Seq<ItemModel>,
    t: int,
) -> (split: int)
    ensures
        ({
            let block = changes::block(base, head, t);
            &&& block.item == head[t]
            &&& block.status == changes::status_of(base, head[t])
            &&& 0 <= split <= block.members.len()
            &&& layout::in_turn(
                block.members.take(split),
                |i: int|
                    if belongs(head, i, t) {
                        row(changes::status_of(base, head[i]), head[i])
                    } else {
                        seq![]
                    },
                head.len() as int,
            )
            &&& layout::in_turn(
                block.members.skip(split),
                |j: int|
                    if leaves(base, head, j, t) {
                        row(StatusModel::Removed, base[j])
                    } else {
                        seq![]
                    },
                base.len() as int,
            )
        }),
{
    let block = changes::block(base, head, t);
    let stay = changes::head_members(base, head, t, head.len() as int);
    let go = changes::removals(base, head, Place::Member(t), base.len() as int);
    lemma_stay(base, head, t, head.len() as int);
    lemma_go(base, head, t, base.len() as int);
    assert(block.members.take(stay.len() as int) =~= stay);
    assert(block.members.skip(stay.len() as int) =~= go);
    stay.len() as int
}

/// The members that the first `n` head items bring.
proof fn lemma_stay(base: Seq<ItemModel>, head: Seq<ItemModel>, t: int, n: int)
    requires
        0 <= n <= head.len(),
    ensures
        layout::in_turn(
            changes::head_members(base, head, t, n),
            |i: int|
                if belongs(head, i, t) {
                    row(changes::status_of(base, head[i]), head[i])
                } else {
                    seq![]
                },
            n,
        ),
    decreases n,
{
    let piece = |i: int|
        if belongs(head, i, t) {
            row(changes::status_of(base, head[i]), head[i])
        } else {
            seq![]
        };
    if n == 0 {
        layout::lemma_no_pieces(piece);
    } else {
        lemma_stay(base, head, t, n - 1);
        lemma_owner(head, n - 1, t);
        let before = changes::head_members(base, head, t, n - 1);
        layout::lemma_one_more(before, piece, n - 1);
        assert(changes::head_members(base, head, t, n) =~= before + piece(n - 1));
    }
}

/// The removal rows that the first `n` base items bring.
proof fn lemma_go(base: Seq<ItemModel>, head: Seq<ItemModel>, t: int, n: int)
    requires
        0 <= n <= base.len(),
    ensures
        layout::in_turn(
            changes::removals(base, head, Place::Member(t), n),
            |j: int|
                if leaves(base, head, j, t) {
                    row(StatusModel::Removed, base[j])
                } else {
                    seq![]
                },
            n,
        ),
    decreases n,
{
    let piece = |j: int|
        if leaves(base, head, j, t) {
            row(StatusModel::Removed, base[j])
        } else {
            seq![]
        };
    if n == 0 {
        layout::lemma_no_pieces(piece);
    } else {
        lemma_go(base, head, t, n - 1);
        lemma_place(base, head, n - 1, t);
        let before = changes::removals(base, head, Place::Member(t), n - 1);
        layout::lemma_one_more(before, piece, n - 1);
        assert(changes::removals(base, head, Place::Member(t), n) =~= before + piece(n - 1));
    }
}

/// Whether a block has anything to show: it changed, or one of its members did.
pub open spec fn worth_showing(block: ViewModel) -> bool {
    block.status != StatusModel::Unchanged || exists|m: int|
        0 <= m < block.members.len() && (#[trigger] block.members[m]).status
            != StatusModel::Unchanged
}

/// A diff is the blocks that have anything to show, all of them and whole, in the
/// head's order, and then what is gone without a block to stand in, in the
/// base's order; and nothing else.
pub proof fn law_diffs_hold_what_changed(base: Seq<ItemModel>, head: Seq<ItemModel>) -> (split: int)
    ensures
        ({
            let diff = changes::diff_blocks(base, head);
            &&& 0 <= split <= diff.len()
            &&& layout::in_turn(
                diff.take(split),
                |i: int|
                    if starts(head, i) && worth_showing(changes::block(base, head, i)) {
                        seq![changes::block(base, head, i)]
                    } else {
                        seq![]
                    },
                head.len() as int,
            )
            &&& layout::in_turn(
                diff.skip(split),
                |j: int|
                    if trails(base, head, j) {
                        row(StatusModel::Removed, base[j])
                    } else {
                        seq![]
                    },
                base.len() as int,
            )
        }),
{
    let n = head.len() as int;
    let diff = changes::diff_blocks(base, head);
    let headers = changes::headers(head, n);
    let blocks = Seq::new(headers.len(), |b: int| changes::block(base, head, headers[b]));
    let changed = |view: ViewModel| changes::view_changed(view);
    let front = blocks.filter(changed);
    let tail = changes::removals(base, head, Place::Tail, base.len() as int);
    diff_laws::law_removals_trail(base, head);
    assert(diff == front + tail);
    lemma_front(base, head, n);
    lemma_trail(base, head, base.len() as int);
    assert(diff.take(front.len() as int) =~= front);
    assert(diff.skip(front.len() as int) =~= tail);
    front.len() as int
}

/// The blocks that the first `n` head items start.
proof fn lemma_front(base: Seq<ItemModel>, head: Seq<ItemModel>, n: int)
    requires
        0 <= n <= head.len(),
    ensures
        layout::in_turn(
            Seq::new(
                changes::headers(head, n).len(),
                |b: int| changes::block(base, head, changes::headers(head, n)[b]),
            ).filter(|view: ViewModel| changes::view_changed(view)),
            |i: int|
                if starts(head, i) && worth_showing(changes::block(base, head, i)) {
                    seq![changes::block(base, head, i)]
                } else {
                    seq![]
                },
            n,
        ),
    decreases n,
{
    let piece = |i: int|
        if starts(head, i) && worth_showing(changes::block(base, head, i)) {
            seq![changes::block(base, head, i)]
        } else {
            seq![]
        };
    let changed = |view: ViewModel| changes::view_changed(view);
    let headers = changes::headers(head, n);
    let blocks = Seq::new(headers.len(), |b: int| changes::block(base, head, headers[b]));
    reveal(Seq::filter);
    if n == 0 {
        layout::lemma_no_pieces(piece);
        assert(blocks.filter(changed) =~= seq![]);
    } else {
        lemma_front(base, head, n - 1);
        lemma_owner(head, n - 1, 0);
        let less = changes::headers(head, n - 1);
        let had = Seq::new(less.len(), |b: int| changes::block(base, head, less[b]));
        let own = changes::block(base, head, n - 1);
        layout::lemma_one_more(had.filter(changed), piece, n - 1);
        assert(changes::view_changed(own) <==> worth_showing(own));
        if starts(head, n - 1) {
            assert(blocks.drop_last() =~= had);
            assert(blocks.last() == own);
        } else {
            assert(blocks =~= had);
        }
        assert(blocks.filter(changed) =~= had.filter(changed) + piece(n - 1));
    }
}

/// The removal rows of the first `n` base items that trail.
proof fn lemma_trail(base: Seq<ItemModel>, head: Seq<ItemModel>, n: int)
    requires
        0 <= n <= base.len(),
    ensures
        layout::in_turn(
            changes::removals(base, head, Place::Tail, n),
            |j: int|
                if trails(base, head, j) {
                    row(StatusModel::Removed, base[j])
                } else {
                    seq![]
                },
            n,
        ),
    decreases n,
{
    let piece = |j: int|
        if trails(base, head, j) {
            row(StatusModel::Removed, base[j])
        } else {
            seq![]
        };
    if n == 0 {
        layout::lemma_no_pieces(piece);
    } else {
        lemma_trail(base, head, n - 1);
        lemma_place(base, head, n - 1, 0);
        let before = changes::removals(base, head, Place::Tail, n - 1);
        layout::lemma_one_more(before, piece, n - 1);
        assert(changes::removals(base, head, Place::Tail, n) =~= before + piece(n - 1));
    }
}

/// Whether a row tells the truth: an added item is the head's and the base does
/// not know it; a removed one is the base's and the head does not know it; a
/// modified one is on both sides with two signatures, and an unchanged one with
/// one.
pub open spec fn truthful(base: Seq<ItemModel>, head: Seq<ItemModel>, shown: ViewModel) -> bool {
    match shown.status {
        StatusModel::Added => head.contains(shown.item) && unknown(base, shown.item.id),
        StatusModel::Removed => base.contains(shown.item) && unknown(head, shown.item.id),
        StatusModel::Modified { before } => head.contains(shown.item) && base.contains(before)
            && before.id == shown.item.id && before.signature != shown.item.signature,
        StatusModel::Unchanged => head.contains(shown.item) && exists|b: int|
            0 <= b < base.len() && (#[trigger] base[b]).id == shown.item.id && base[b].signature
                == shown.item.signature,
    }
}

/// The status of a head item tells the truth.
pub proof fn law_statuses_are_truthful(base: Seq<ItemModel>, head: Seq<ItemModel>, i: int)
    requires
        0 <= i < head.len(),
    ensures
        truthful(
            base,
            head,
            ViewModel {
                status: changes::status_of(base, head[i]),
                item: head[i],
                members: seq![],
            },
        ),
        changes::status_of(base, head[i]) != StatusModel::Removed,
{
    surface::lemma_by_id(base, head[i].id);
    assert(head.contains(head[i]));
    if surface::by_id(base, head[i].id) is Some {
        let at = choose|at: int|
            #[trigger] surface::last_with_id(base, head[i].id, at) && surface::by_id(
                base,
                head[i].id,
            ) == Some(base[at]);
        assert(base[at].id == head[i].id);
        assert(base.contains(base[at]));
    } else {
        law_ids_find_their_last_item(base, head[i].id, 0);
    }
}

} // verus!
