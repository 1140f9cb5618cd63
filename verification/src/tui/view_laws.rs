//! The shape of a rendering: stops ascend, each file has one header, and a stop
//! has a row's identity exactly if it is no header.

use vstd::prelude::*;

use crate::changes::{self, ViewModel};
use crate::item;
use crate::tui::rows::{self, CtxModel, RowModel};
use crate::tui::rows_laws;
use crate::tui::view::{self, RenderedModel};

verus! {

/// How many of the rows are file headers.
spec fn header_count(all: Seq<RowModel>) -> nat
    decreases all.len(),
{
    if all.len() == 0 {
        0
    } else {
        let before = header_count(all.drop_last());
        match all.last().stop {
            Some(stop) => if stop.header {
                before + 1
            } else {
                before
            },
            None => before,
        }
    }
}

/// Whether a row that is a stop has an identity exactly if it is no header.
spec fn marked(row: RowModel) -> bool {
    row.stop matches Some(stop) ==> (stop.header <==> stop.path is None)
}

/// Whether all rows are so.
spec fn all_marked(all: Seq<RowModel>) -> bool {
    forall|i: int| 0 <= i < all.len() ==> marked(#[trigger] all[i])
}

/// Headers add up.
proof fn lemma_count_join(a: Seq<RowModel>, b: Seq<RowModel>)
    ensures
        header_count(a + b) == header_count(a) + header_count(b),
    decreases b.len(),
{
    if b.len() == 0 {
        assert(a + b =~= a);
    } else {
        lemma_count_join(a, b.drop_last());
        assert((a + b).drop_last() =~= a + b.drop_last());
        assert((a + b).last() == b.last());
    }
}

/// Joined rows are marked if both parts are.
proof fn lemma_marked_join(a: Seq<RowModel>, b: Seq<RowModel>)
    requires
        all_marked(a),
        all_marked(b),
    ensures
        all_marked(a + b),
{
    let all = a + b;
    assert forall|i: int| 0 <= i < all.len() implies marked(#[trigger] all[i]) by {
        if i < a.len() {
            assert(all[i] == a[i]);
        } else {
            assert(all[i] == b[i - a.len()]);
        }
    }
}

/// Item rows hold no header.
proof fn lemma_no_header(all: Seq<RowModel>)
    requires
        rows_laws::all_below(all, 0),
    ensures
        header_count(all) == 0,
        all_marked(all),
    decreases all.len(),
{
    if all.len() > 0 {
        let rest = all.drop_last();
        assert forall|i: int| 0 <= i < rest.len() implies #[trigger] rows_laws::row_below(
            rest[i],
            0,
        ) by {
            assert(rows_laws::row_below(all[i], 0));
        }
        lemma_no_header(rest);
        assert(rows_laws::row_below(all[all.len() - 1], 0));
        assert forall|i: int| 0 <= i < all.len() implies marked(#[trigger] all[i]) by {
            assert(rows_laws::row_below(all[i], 0));
        }
    }
}

/// A review row and what is unfolded beneath it are item rows.
proof fn lemma_item_below(shown: ViewModel, indent: nat, ctx: CtxModel)
    requires
        rows::bounded(ctx),
    ensures
        rows_laws::all_below(rows::item_rows(shown, indent, seq![], ctx), 0),
{
    let path = Seq::<item::IdModel>::empty().push(shown.item.id);
    let own = rows::own_rows(shown, indent, path, ctx);
    let rest = rows::unfolded_rows(shown, indent, path, ctx);
    rows_laws::lemma_unfolded_below(shown, indent, path, ctx);
    rows_laws::lemma_still_below(rest, path.len(), 0);
    assert(rows_laws::all_below(own, 0));
    rows_laws::lemma_join_below(own, rest, 0);
}

/// The rows of a block's members are item rows.
proof fn lemma_members_below(members: Seq<ViewModel>, ctx: CtxModel, n: int)
    requires
        rows::bounded(ctx),
    ensures
        rows_laws::all_below(view::block_member_rows(members, ctx, n), 0),
    decreases n,
{
    if n > 0 {
        lemma_members_below(members, ctx, n - 1);
        lemma_item_below(members[n - 1], 6, ctx);
        rows_laws::lemma_join_below(
            view::block_member_rows(members, ctx, n - 1),
            rows::item_rows(members[n - 1], 6, seq![], ctx),
            0,
        );
    }
}

/// The rows of a file's blocks are item rows.
proof fn lemma_blocks_below(blocks: Seq<ViewModel>, ctx: CtxModel, n: int)
    requires
        rows::bounded(ctx),
    ensures
        rows_laws::all_below(view::block_rows(blocks, ctx, n), 0),
    decreases n,
{
    if n > 0 {
        lemma_blocks_below(blocks, ctx, n - 1);
        let block = blocks[n - 1];
        let before = view::block_rows(blocks, ctx, n - 1);
        let apart = if view::composite(block) || (n >= 2 && view::composite(blocks[n - 2])) {
            seq![view::blank_row()]
        } else {
            seq![]
        };
        let own = rows::item_rows(block, 2, seq![], ctx);
        let m = block.members.len() as int;
        lemma_item_below(block, 2, ctx);
        lemma_members_below(block.members, ctx, m);
        assert(rows_laws::all_below(apart, 0));
        rows_laws::lemma_join_below(before, apart, 0);
        rows_laws::lemma_join_below(before + apart, own, 0);
        rows_laws::lemma_join_below(
            before + apart + own,
            view::block_member_rows(block.members, ctx, m),
            0,
        );
    }
}

/// A file has one header.
proof fn lemma_one_header(file: changes::FileModel, ctx: CtxModel)
    requires
        rows::bounded(ctx),
    ensures
        header_count(view::file_rows(file, ctx)) == 1,
        all_marked(view::file_rows(file, ctx)),
{
    let all = view::file_rows(file, ctx);
    let header = seq![all[0]];
    assert(header.drop_last() =~= seq![]);
    assert(header_count(header) == 1) by {
        reveal_with_fuel(header_count, 2);
    }
    match file.kind {
        changes::FileKindModel::Deleted => {
            assert(all =~= header);
        },
        changes::FileKindModel::Changed(blocks) => {
            let rest = view::block_rows(blocks, ctx, blocks.len() as int);
            lemma_blocks_below(blocks, ctx, blocks.len() as int);
            lemma_no_header(rest);
            assert(all =~= header + rest);
            lemma_count_join(header, rest);
            lemma_marked_join(header, rest);
        },
    }
}

/// The first `n` files have a header each.
proof fn lemma_headers(review: Seq<changes::FileModel>, ctx: CtxModel, n: int)
    requires
        rows::bounded(ctx),
        0 <= n,
    ensures
        header_count(view::files_rows(review, ctx, n)) == n,
        all_marked(view::files_rows(review, ctx, n)),
    decreases n,
{
    if n > 0 {
        lemma_headers(review, ctx, n - 1);
        let before = view::files_rows(review, ctx, n - 1);
        let apart = if n > 1 {
            seq![view::blank_row()]
        } else {
            seq![]
        };
        assert(rows_laws::all_below(apart, 0));
        lemma_no_header(apart);
        lemma_one_header(review[n - 1], ctx);
        lemma_count_join(before, apart);
        lemma_marked_join(before, apart);
        lemma_count_join(before + apart, view::file_rows(review[n - 1], ctx));
        lemma_marked_join(before + apart, view::file_rows(review[n - 1], ctx));
    }
}

/// Rows amount to as many headers as they hold.
proof fn lemma_counted(all: Seq<RowModel>)
    ensures
        view::rendered(all).headers.len() == header_count(all),
    decreases all.len(),
{
    if all.len() > 0 {
        lemma_counted(all.drop_last());
    }
}

/// A stop has an identity exactly if it is no header.
proof fn lemma_paths(all: Seq<RowModel>, s: int)
    requires
        all_marked(all),
        all.len() <= usize::MAX,
        0 <= s < view::rendered(all).stops.len(),
    ensures
        view::rendered(all).paths[s] is None <==> view::rendered(all).headers.contains(s as usize),
    decreases all.len(),
{
    if all.len() > 0 {
        let rest = all.drop_last();
        let before = view::rendered(rest);
        let now = view::rendered(all);
        view::lemma_aligned(rest);
        view::lemma_aligned(all);
        assert(all_marked(rest)) by {
            assert forall|i: int| 0 <= i < rest.len() implies marked(#[trigger] rest[i]) by {
                assert(rest[i] == all[i]);
            }
        }
        assert(marked(all[all.len() - 1]));
        if s < before.stops.len() {
            lemma_paths(rest, s);
            assert(now.paths[s] == before.paths[s]);
            if before.headers.contains(s as usize) {
                let h = choose|h: int| 0 <= h < before.headers.len() && before.headers[h] == s;
                assert(now.headers[h] == s);
            }
            if now.headers.contains(s as usize) {
                let h = choose|h: int| 0 <= h < now.headers.len() && now.headers[h] == s;
                if h < before.headers.len() {
                    assert(before.headers[h] == s);
                }
            }
        } else {
            let stop = all.last().stop->0;
            if stop.header {
                assert(now.headers[before.headers.len() as int] == s);
            } else if now.headers.contains(s as usize) {
                let h = choose|h: int| 0 <= h < now.headers.len() && now.headers[h] == s;
                assert(before.headers[h] == s);
            }
        }
    }
}

/// Stops ascend as long as every line can be numbered.
proof fn lemma_ascend(all: Seq<RowModel>, s: int, t: int)
    requires
        all.len() <= u16::MAX + 1,
        0 <= s < t < view::rendered(all).stops.len(),
    ensures
        view::rendered(all).stops[s] < view::rendered(all).stops[t],
    decreases all.len(),
{
    if all.len() > 0 {
        let rest = all.drop_last();
        let before = view::rendered(rest);
        let now = view::rendered(all);
        view::lemma_aligned(rest);
        assert(now.stops[s] == before.stops[s]);
        if t < before.stops.len() {
            lemma_ascend(rest, s, t);
            assert(now.stops[t] == before.stops[t]);
        } else {
            assert(before.stops[s] < before.lines.len());
        }
    }
}

/// Whether the stops lie on lines further and further down.
pub open spec fn ascending(shown: RenderedModel) -> bool {
    forall|s: int, t: int|
        0 <= s < t < shown.stops.len() ==> (#[trigger] shown.stops[s]) < #[trigger] shown.stops[t]
}

/// A rendering lists its stops in ascending order, each on a line of its own,
/// as long as every line can be numbered, and marks each of them; it has one
/// header per file, in ascending order, and a stop has a row's identity exactly
/// if it is no header. An untouched surface is one line and no stop.
pub proof fn law_renderings_are_shaped(review: Seq<changes::FileModel>, ctx: CtxModel)
    requires
        rows::bounded(ctx),
        view::review_rows(review, ctx).len() <= usize::MAX,
    ensures
        ({
            let shown = view::rendered(view::review_rows(review, ctx));
            &&& shown.lines.len() <= u16::MAX + 1 ==> ascending(shown)
            &&& forall|s: int|
                0 <= s < shown.stops.len() ==> (#[trigger] shown.stops[s]) < shown.lines.len()
            &&& shown.jumps.len() == shown.stops.len()
            &&& shown.expandable.len() == shown.stops.len()
            &&& shown.referenced.len() == shown.stops.len()
            &&& shown.paths.len() == shown.stops.len()
            &&& shown.headers.len() == review.len()
            &&& forall|g: int, h: int|
                0 <= g < h < shown.headers.len() ==> (#[trigger] shown.headers[g])
                    < #[trigger] shown.headers[h]
            &&& forall|s: int|
                0 <= s < shown.stops.len() ==> ((#[trigger] shown.paths[s]) is None
                    <==> shown.headers.contains(s as usize))
            &&& review.len() == 0 ==> shown.lines.len() == 1 && shown.stops.len() == 0
        }),
{
    let all = view::review_rows(review, ctx);
    let shown = view::rendered(all);
    view::lemma_aligned(all);
    lemma_counted(all);
    if review.len() == 0 {
        assert(rows_laws::all_below(all, 0));
        lemma_no_header(all);
        assert(all.drop_last() =~= seq![]);
        reveal_with_fuel(view::rendered, 2);
    } else {
        lemma_headers(review, ctx, review.len() as int);
    }
    assert forall|s: int| 0 <= s < shown.stops.len() implies ((#[trigger] shown.paths[s]) is None
        <==> shown.headers.contains(s as usize)) by {
        lemma_paths(all, s);
    }
    if shown.lines.len() <= u16::MAX + 1 {
        assert forall|s: int, t: int| 0 <= s < t < shown.stops.len() implies (
        #[trigger] shown.stops[s]) < #[trigger] shown.stops[t] by {
            lemma_ascend(all, s, t);
        }
    }
}

} // verus!
