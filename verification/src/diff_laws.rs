//! What the diff promises as a whole: nothing that changed is lost, nothing
//! else is shown, and blocks come whole and in order.

use vstd::prelude::*;

use crate::changes::{self, Place, StatusModel, ViewModel};
use crate::item;
use crate::surface;

verus! {

/// Whether two surfaces have the same shape: every head item is in the base
/// with its signature, and every base item is still in the head.
pub open spec fn same_shape(
    base: Seq<item::ItemModel>,
    head: Seq<item::ItemModel>,
) -> bool {
    &&& forall|i: int|
        0 <= i < head.len() ==> changes::status_of(base, #[trigger] head[i])
            == StatusModel::Unchanged
    &&& forall|i: int| 0 <= i < base.len() ==> surface::has_id(head, (#[trigger] base[i]).id)
}

/// Whether items that share an id also share a signature.
pub open spec fn consistent(items: Seq<item::ItemModel>) -> bool {
    forall|i: int, j: int|
        0 <= i < items.len() && 0 <= j < items.len() && (#[trigger] items[i]).id == (
        #[trigger] items[j]).id ==> items[i].signature == items[j].signature
}

/// Whether two surfaces differ at most in the lines on which their items
/// stand.
pub open spec fn same_but_lines(
    base: Seq<item::ItemModel>,
    head: Seq<item::ItemModel>,
) -> bool {
    &&& base.len() == head.len()
    &&& forall|i: int|
        0 <= i < base.len() ==> (#[trigger] base[i]).id == head[i].id && base[i].signature
            == head[i].signature
}

/// A head item that joins no block starts one.
proof fn lemma_starts(head: Seq<item::ItemModel>, i: int, n: int)
    requires
        0 <= i < n,
        changes::owner(head, i) is None,
    ensures
        changes::headers(head, n).contains(i),
    decreases n,
{
    let before = changes::headers(head, n - 1);
    if i < n - 1 {
        lemma_starts(head, i, n - 1);
        let b = choose|b: int| 0 <= b < before.len() && before[b] == i;
        assert(changes::headers(head, n)[b] == i);
    } else {
        assert(changes::headers(head, n)[before.len() as int] == i);
    }
}

/// What starts a block joins none.
proof fn lemma_started(head: Seq<item::ItemModel>, n: int, b: int)
    requires
        0 <= b < changes::headers(head, n).len(),
    ensures
        0 <= changes::headers(head, n)[b] < n,
        changes::owner(head, changes::headers(head, n)[b]) is None,
    decreases n,
{
    if n > 0 {
        let before = changes::headers(head, n - 1);
        if b < before.len() {
            lemma_started(head, n - 1, b);
        }
    }
}

/// A top-level item found by name is one of those looked at.
proof fn lemma_found(items: Seq<item::ItemModel>, name: Seq<char>, n: int)
    ensures
        changes::last_top(items, name, n) is Some ==> 0 <= changes::last_top(items, name, n)->0 < n
            && changes::top_level(items[changes::last_top(items, name, n)->0]),
    decreases n,
{
    if n > 0 {
        lemma_found(items, name, n - 1);
    }
}

/// Whether `view` is the row of one of the first `n` head items that join the
/// block of head item `at`.
spec fn joins(
    base: Seq<item::ItemModel>,
    head: Seq<item::ItemModel>,
    at: int,
    n: int,
    view: ViewModel,
) -> bool {
    exists|i: int|
        0 <= i < n && #[trigger] changes::owner(head, i) == Some(at) && view == changes::leaf(
            changes::status_of(base, head[i]),
            head[i],
        )
}

/// The members the head brings to a block are those that join it, each with
/// its status.
proof fn lemma_head_members(
    base: Seq<item::ItemModel>,
    head: Seq<item::ItemModel>,
    at: int,
    n: int,
)
    ensures
        forall|m: int|
            0 <= m < changes::head_members(base, head, at, n).len() ==> joins(
                base,
                head,
                at,
                n,
                #[trigger] changes::head_members(base, head, at, n)[m],
            ),
        forall|i: int|
            0 <= i < n && changes::owner(head, i) == Some(at) ==> changes::head_members(
                base,
                head,
                at,
                n,
            ).contains(changes::leaf(changes::status_of(base, head[i]), #[trigger] head[i])),
    decreases n,
{
    if n > 0 {
        lemma_head_members(base, head, at, n - 1);
        let before = changes::head_members(base, head, at, n - 1);
        let all = changes::head_members(base, head, at, n);
        assert forall|m: int| 0 <= m < all.len() implies joins(
            base,
            head,
            at,
            n,
            #[trigger] all[m],
        ) by {
            if m < before.len() {
                assert(joins(base, head, at, n - 1, before[m]));
            } else {
                assert(changes::owner(head, n - 1) == Some(at));
            }
        }
        assert forall|i: int|
            0 <= i < n && changes::owner(head, i) == Some(at) implies all.contains(
            changes::leaf(changes::status_of(base, head[i]), #[trigger] head[i]),
        ) by {
            let row = changes::leaf(changes::status_of(base, head[i]), head[i]);
            if i < n - 1 {
                let m = choose|m: int| 0 <= m < before.len() && before[m] == row;
                assert(all[m] == row);
            } else {
                assert(all[before.len() as int] == row);
            }
        }
    }
}

/// The removal rows that go to a place are those of the removed base items
/// that go there.
proof fn lemma_removals(
    base: Seq<item::ItemModel>,
    head: Seq<item::ItemModel>,
    to: Place,
    n: int,
)
    ensures
        forall|m: int|
            0 <= m < changes::removals(base, head, to, n).len() ==> exists|i: int|
                0 <= i < n && changes::removed(base, head, i) && changes::place(base, head, i) == to
                    && (#[trigger] changes::removals(base, head, to, n)[m]) == changes::leaf(
                    StatusModel::Removed,
                    #[trigger] base[i],
                ),
        forall|i: int|
            0 <= i < n && changes::removed(base, head, i) && changes::place(base, head, i) == to
                ==> changes::removals(base, head, to, n).contains(
                changes::leaf(StatusModel::Removed, #[trigger] base[i]),
            ),
    decreases n,
{
    if n > 0 {
        lemma_removals(base, head, to, n - 1);
        let before = changes::removals(base, head, to, n - 1);
        let all = changes::removals(base, head, to, n);
        assert forall|m: int| 0 <= m < all.len() implies exists|i: int|
            0 <= i < n && changes::removed(base, head, i) && changes::place(base, head, i) == to
                && #[trigger] all[m] == changes::leaf(StatusModel::Removed, #[trigger] base[i]) by {
            if m < before.len() {
                assert(all[m] == before[m]);
            } else {
                assert(all[m] == changes::leaf(StatusModel::Removed, base[n - 1]));
            }
        }
        assert forall|i: int|
            0 <= i < n && changes::removed(base, head, i) && changes::place(base, head, i)
                == to implies all.contains(
            changes::leaf(StatusModel::Removed, #[trigger] base[i]),
        ) by {
            let row = changes::leaf(StatusModel::Removed, base[i]);
            if i < n - 1 {
                let m = choose|m: int| 0 <= m < before.len() && before[m] == row;
                assert(all[m] == row);
            } else {
                assert(all[before.len() as int] == row);
            }
        }
    }
}

/// The changed views of a sequence are exactly those that filtering keeps.
proof fn lemma_kept(all: Seq<ViewModel>, view: ViewModel)
    ensures
        all.filter(|v: ViewModel| changes::view_changed(v)).contains(view) <==> all.contains(view)
            && changes::view_changed(view),
    decreases all.len(),
{
    let changed = |v: ViewModel| changes::view_changed(v);
    reveal(Seq::filter);
    if all.len() > 0 {
        let rest = all.drop_last();
        lemma_kept(rest, view);
        let kept = rest.filter(changed);
        let now = all.filter(changed);
        if now.contains(view) {
            let k = choose|k: int| 0 <= k < now.len() && now[k] == view;
            if k < kept.len() {
                assert(kept[k] == view);
                assert(kept.contains(view));
                let r = choose|r: int| 0 <= r < rest.len() && rest[r] == view;
                assert(all[r] == view);
            } else {
                assert(all.last() == view);
            }
        }
        if all.contains(view) && changes::view_changed(view) {
            let a = choose|a: int| 0 <= a < all.len() && all[a] == view;
            if a < rest.len() {
                assert(rest[a] == view);
                assert(rest.contains(view));
                let k = choose|k: int| 0 <= k < kept.len() && kept[k] == view;
                assert(now[k] == view);
            } else {
                assert(now[kept.len() as int] == view);
            }
        }
    }
}

/// Every block of the diff holds a change, and is either the whole block of a
/// head item or the removal row of a base item.
pub proof fn law_blocks(
    base: Seq<item::ItemModel>,
    head: Seq<item::ItemModel>,
    view: ViewModel,
)
    ensures
        changes::diff_blocks(base, head).contains(view) <==> {
            &&& changes::view_changed(view)
            &&& {
                ||| exists|at: int|
                    0 <= at < head.len() && #[trigger] changes::owner(head, at) is None && view
                        == changes::block(base, head, at)
                ||| exists|i: int|
                    0 <= i < base.len() && changes::removed(base, head, i) && changes::place(
                        base,
                        head,
                        i,
                    ) == Place::Tail && view == changes::leaf(
                        StatusModel::Removed,
                        #[trigger] base[i],
                    )
            }
        },
{
    let all = changes::all_blocks(base, head);
    let n = head.len() as int;
    let starts = changes::headers(head, n);
    let heads = Seq::new(starts.len(), |b: int| changes::block(base, head, starts[b]));
    let tails = changes::removals(base, head, Place::Tail, base.len() as int);
    lemma_kept(all, view);
    lemma_removals(base, head, Place::Tail, base.len() as int);
    assert(all == heads + tails);
    if all.contains(view) {
        let a = choose|a: int| 0 <= a < all.len() && all[a] == view;
        if a < heads.len() {
            lemma_started(head, n, a);
            assert(changes::owner(head, starts[a]) is None);
            assert(view == changes::block(base, head, starts[a]));
        } else {
            assert(view == tails[a - heads.len()]);
        }
    }
    if exists|at: int|
        0 <= at < head.len() && #[trigger] changes::owner(head, at) is None && view
            == changes::block(base, head, at) {
        let at = choose|at: int|
            0 <= at < head.len() && #[trigger] changes::owner(head, at) is None && view
                == changes::block(base, head, at);
        lemma_starts(head, at, n);
        let b = choose|b: int| 0 <= b < starts.len() && starts[b] == at;
        assert(all[b] == view);
    }
    if exists|i: int|
        0 <= i < base.len() && changes::removed(base, head, i) && changes::place(base, head, i)
            == Place::Tail && view == changes::leaf(StatusModel::Removed, #[trigger] base[i]) {
        assert(tails.contains(view));
        let t = choose|t: int| 0 <= t < tails.len() && tails[t] == view;
        assert(all[heads.len() + t] == view);
    }
}

/// An added or modified head item is shown: as a block of its own, or as a
/// member of the block it joins.
pub proof fn law_head_changes_are_shown(
    base: Seq<item::ItemModel>,
    head: Seq<item::ItemModel>,
    i: int,
)
    requires
        0 <= i < head.len(),
        changes::status_of(base, head[i]) != StatusModel::Unchanged,
    ensures
        match changes::owner(head, i) {
            None => changes::diff_blocks(base, head).contains(changes::block(base, head, i)),
            Some(at) => changes::diff_blocks(base, head).contains(changes::block(base, head, at))
                && changes::block(base, head, at).members.contains(
                changes::leaf(changes::status_of(base, head[i]), head[i]),
            ),
        },
{
    match changes::owner(head, i) {
        None => {
            law_blocks(base, head, changes::block(base, head, i));
        },
        Some(at) => {
            lemma_found(head, head[i].parent->0, i);
            lemma_member_shown(base, head, i, at);
            law_blocks(base, head, changes::block(base, head, at));
        },
    }
}

/// A head item that joins a block is one of its members, and changes the
/// block if it changed.
proof fn lemma_member_shown(
    base: Seq<item::ItemModel>,
    head: Seq<item::ItemModel>,
    i: int,
    at: int,
)
    requires
        0 <= i < head.len(),
        changes::owner(head, i) == Some(at),
    ensures
        0 <= at < head.len(),
        changes::owner(head, at) is None,
        changes::block(base, head, at).members.contains(
            changes::leaf(changes::status_of(base, head[i]), head[i]),
        ),
        changes::status_of(base, head[i]) != StatusModel::Unchanged ==> changes::view_changed(
            changes::block(base, head, at),
        ),
{
    lemma_found(head, head[i].parent->0, i);
    lemma_head_members(base, head, at, head.len() as int);
    let row = changes::leaf(changes::status_of(base, head[i]), head[i]);
    let members = changes::head_members(base, head, at, head.len() as int);
    assert(members.contains(row));
    let m = choose|m: int| 0 <= m < members.len() && members[m] == row;
    let whole = changes::block(base, head, at);
    assert(whole.members[m] == row);
}

/// A removed base item is shown: as a removal row at the end, as a removed
/// member of its block, or folded into the removal row of its composite.
pub proof fn law_removals_are_shown(
    base: Seq<item::ItemModel>,
    head: Seq<item::ItemModel>,
    i: int,
)
    requires
        0 <= i < base.len(),
        changes::removed(base, head, i),
    ensures
        match changes::place(base, head, i) {
            Place::Tail => changes::diff_blocks(base, head).contains(
                changes::leaf(StatusModel::Removed, base[i]),
            ),
            Place::Member(at) => changes::diff_blocks(base, head).contains(
                changes::block(base, head, at),
            ) && changes::block(base, head, at).members.contains(
                changes::leaf(StatusModel::Removed, base[i]),
            ),
            Place::Folded => exists|j: int|
                0 <= j < base.len() && (#[trigger] base[j]).id.name == base[i].parent->0
                    && changes::top_level(base[j]) && changes::diff_blocks(base, head).contains(
                    changes::leaf(StatusModel::Removed, base[j]),
                ),
        },
{
    match changes::place(base, head, i) {
        Place::Tail => {
            law_blocks(base, head, changes::leaf(StatusModel::Removed, base[i]));
        },
        Place::Member(at) => {
            lemma_found(head, base[i].parent->0, head.len() as int);
            lemma_removals(base, head, Place::Member(at), base.len() as int);
            let row = changes::leaf(StatusModel::Removed, base[i]);
            let kept = changes::head_members(base, head, at, head.len() as int);
            let gone = changes::removals(base, head, Place::Member(at), base.len() as int);
            assert(gone.contains(row));
            let m = choose|m: int| 0 <= m < gone.len() && gone[m] == row;
            let whole = changes::block(base, head, at);
            assert(whole.members[kept.len() + m] == row);
            law_blocks(base, head, whole);
            assert(changes::owner(head, at) is None);
        },
        Place::Folded => {
            let name = base[i].parent->0;
            let j = choose|j: int|
                0 <= j < base.len() && #[trigger] changes::top_level(base[j]) && changes::removed(
                    base,
                    head,
                    j,
                ) && base[j].id.name == name;
            law_blocks(base, head, changes::leaf(StatusModel::Removed, base[j]));
        },
    }
}

/// The diff is empty exactly when the two surfaces have the same shape.
pub proof fn law_empty_iff_same_shape(
    base: Seq<item::ItemModel>,
    head: Seq<item::ItemModel>,
)
    ensures
        changes::diff_blocks(base, head).len() == 0 <==> same_shape(base, head),
{
    let blocks = changes::diff_blocks(base, head);
    if blocks.len() == 0 {
        assert forall|i: int| 0 <= i < head.len() implies changes::status_of(
            base,
            #[trigger] head[i],
        ) == StatusModel::Unchanged by {
            if changes::status_of(base, head[i]) != StatusModel::Unchanged {
                law_head_changes_are_shown(base, head, i);
            }
        }
        assert forall|i: int| 0 <= i < base.len() implies surface::has_id(
            head,
            (#[trigger] base[i]).id,
        ) by {
            if changes::removed(base, head, i) {
                law_removals_are_shown(base, head, i);
            }
        }
    }
    if same_shape(base, head) && blocks.len() > 0 {
        let view = blocks[0];
        assert(blocks.contains(view));
        law_blocks(base, head, view);
        if exists|at: int|
            0 <= at < head.len() && #[trigger] changes::owner(head, at) is None && view
                == changes::block(base, head, at) {
            let at = choose|at: int|
                0 <= at < head.len() && #[trigger] changes::owner(head, at) is None && view
                    == changes::block(base, head, at);
            let n = head.len() as int;
            let kept = changes::head_members(base, head, at, n);
            let gone = changes::removals(base, head, Place::Member(at), base.len() as int);
            lemma_head_members(base, head, at, n);
            lemma_removals(base, head, Place::Member(at), base.len() as int);
            assert(changes::status_of(base, head[at]) == StatusModel::Unchanged);
            assert forall|m: int| 0 <= m < view.members.len() implies (
            #[trigger] view.members[m]).status == StatusModel::Unchanged by {
                if m < kept.len() {
                    assert(joins(base, head, at, n, kept[m]));
                } else {
                    assert(view.members[m] == gone[m - kept.len()]);
                }
            }
        }
    }
}

/// A surface does not differ from itself, as long as items that share an id
/// share a signature.
pub proof fn law_no_change_against_itself(items: Seq<item::ItemModel>)
    requires
        consistent(items),
    ensures
        changes::diff_blocks(items, items).len() == 0,
{
    law_moved_lines_are_no_change(items, items);
}

/// Moving items to other lines is no change, as long as items that share an
/// id share a signature.
pub proof fn law_moved_lines_are_no_change(
    base: Seq<item::ItemModel>,
    head: Seq<item::ItemModel>,
)
    requires
        same_but_lines(base, head),
        consistent(base),
    ensures
        changes::diff_blocks(base, head).len() == 0,
{
    assert forall|i: int| 0 <= i < head.len() implies changes::status_of(base, #[trigger] head[i])
        == StatusModel::Unchanged by {
        let id = head[i].id;
        assert(base[i].id == id);
        surface::lemma_by_id(base, id);
        let at = choose|at: int|
            #[trigger] surface::last_with_id(base, id, at) && surface::by_id(base, id) == Some(
                base[at],
            );
        assert(base[at].id == base[i].id);
    }
    assert forall|i: int| 0 <= i < base.len() implies surface::has_id(
        head,
        (#[trigger] base[i]).id,
    ) by {
        assert(head[i].id == base[i].id);
    }
    law_empty_iff_same_shape(base, head);
}

/// A block of the diff carries every member of its composite that the head
/// still has, changed or not, each with its status.
pub proof fn law_blocks_come_whole(
    base: Seq<item::ItemModel>,
    head: Seq<item::ItemModel>,
    i: int,
    at: int,
)
    requires
        0 <= i < head.len(),
        changes::owner(head, i) == Some(at),
    ensures
        changes::block(base, head, at).members.contains(
            changes::leaf(changes::status_of(base, head[i]), head[i]),
        ),
        changes::diff_blocks(base, head).contains(changes::block(base, head, at))
            <==> changes::view_changed(changes::block(base, head, at)),
{
    lemma_member_shown(base, head, i, at);
    law_blocks(base, head, changes::block(base, head, at));
}

/// Head order drives the blocks, and removed top-level items trail the file.
pub proof fn law_removals_trail(
    base: Seq<item::ItemModel>,
    head: Seq<item::ItemModel>,
)
    ensures
        changes::diff_blocks(base, head) == Seq::new(
            changes::headers(head, head.len() as int).len(),
            |b: int| changes::block(base, head, changes::headers(head, head.len() as int)[b]),
        ).filter(|view: ViewModel| changes::view_changed(view)) + changes::removals(
            base,
            head,
            Place::Tail,
            base.len() as int,
        ),
        forall|b: int, c: int|
            0 <= b < c < changes::headers(head, head.len() as int).len()
                ==> #[trigger] changes::headers(head, head.len() as int)[b]
                < #[trigger] changes::headers(head, head.len() as int)[c],
{
    let n = head.len() as int;
    let starts = changes::headers(head, n);
    let heads = Seq::new(starts.len(), |b: int| changes::block(base, head, starts[b]));
    let tails = changes::removals(base, head, Place::Tail, base.len() as int);
    let changed = |view: ViewModel| changes::view_changed(view);
    Seq::filter_distributes_over_add(heads, tails, changed);
    lemma_removals(base, head, Place::Tail, base.len() as int);
    lemma_filter_all(tails);
    changes::lemma_headers(head, n);
}

/// Filtering drops nothing from views that all changed.
proof fn lemma_filter_all(views: Seq<ViewModel>)
    requires
        forall|v: int| 0 <= v < views.len() ==> changes::view_changed(#[trigger] views[v]),
    ensures
        views.filter(|view: ViewModel| changes::view_changed(view)) == views,
    decreases views.len(),
{
    reveal(Seq::filter);
    if views.len() > 0 {
        lemma_filter_all(views.drop_last());
        assert(views.drop_last().push(views.last()) =~= views);
    }
}

} // verus!
