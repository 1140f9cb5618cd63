//! Unfolding a row changes nothing above it: the row itself is still shown,
//! and the cursor finds it again. What a row is marked with tells what unfolding
//! it brings up.

use vstd::prelude::*;

use crate::changes::{self, ViewModel};
use crate::index;
use crate::item;
use crate::tui::pane::{self, AppModel};
use crate::tui::rows::{self, CtxModel, RowModel, StopModel};
use crate::tui::view::{self, RenderedModel};

verus! {

/// Whether the row is the one that `path` identifies.
pub open spec fn row_is(row: RowModel, path: Seq<item::IdModel>) -> bool {
    row.stop matches Some(stop) && stop.path == Some(path)
}

/// Whether a row is shown.
pub open spec fn has_row(all: Seq<RowModel>, row: RowModel) -> bool {
    exists|i: int| 0 <= i < all.len() && #[trigger] all[i] == row
}

/// Whether a row, if the cursor may land on it, is an item's and lies more than
/// `n` levels deep.
pub open spec fn row_below(row: RowModel, n: nat) -> bool {
    row.stop matches Some(stop) ==> !stop.header && (stop.path matches Some(path) && path.len() > n)
}

/// Whether all rows the cursor may land on lie more than `n` levels deep.
pub open spec fn all_below(all: Seq<RowModel>, n: nat) -> bool {
    forall|i: int| 0 <= i < all.len() ==> #[trigger] row_below(all[i], n)
}

/// Whether two contexts open the same rows, but for `path`.
pub open spec fn same_but(a: CtxModel, b: CtxModel, path: Seq<item::IdModel>) -> bool {
    &&& a.index == b.index
    &&& forall|p: Seq<item::IdModel>|
        p != path ==> #[trigger] a.expanded.contains(p) == b.expanded.contains(p)
    &&& forall|p: Seq<item::IdModel>|
        p != path ==> #[trigger] a.usages_open.contains(p) == b.usages_open.contains(p)
}

/// A row is in a concatenation if it is in either part.
proof fn lemma_in_either(a: Seq<RowModel>, b: Seq<RowModel>, row: RowModel)
    ensures
        has_row(a + b, row) == (has_row(a, row) || has_row(b, row)),
{
    let all = a + b;
    if has_row(a, row) {
        let i = choose|i: int| 0 <= i < a.len() && #[trigger] a[i] == row;
        assert(all[i] == row);
    }
    if has_row(b, row) {
        let i = choose|i: int| 0 <= i < b.len() && #[trigger] b[i] == row;
        assert(all[a.len() + i] == row);
    }
    if has_row(all, row) {
        let i = choose|i: int| 0 <= i < all.len() && #[trigger] all[i] == row;
        if i < a.len() {
            assert(a[i] == row);
        } else {
            assert(b[i - a.len()] == row);
        }
    }
}

/// A row is in what one more row makes if it is that row or was in already.
proof fn lemma_in_pushed(a: Seq<RowModel>, own: RowModel, row: RowModel)
    ensures
        has_row(a.push(own), row) == (has_row(a, row) || own == row),
{
    assert(a.push(own) =~= a + seq![own]);
    lemma_in_either(a, seq![own], row);
    if own == row {
        assert(seq![own][0] == row);
    }
}

/// Rows below a level do not hold a row of that level.
proof fn lemma_not_below(
    all: Seq<RowModel>,
    path: Seq<item::IdModel>,
    row: RowModel,
    n: nat,
)
    requires
        all_below(all, n),
        row_is(row, path),
        path.len() <= n,
    ensures
        !has_row(all, row),
{
    if has_row(all, row) {
        let i = choose|i: int| 0 <= i < all.len() && #[trigger] all[i] == row;
        assert(row_below(all[i], n));
    }
}

/// Joining rows below a level keeps them below it.
pub proof fn lemma_join_below(a: Seq<RowModel>, b: Seq<RowModel>, n: nat)
    requires
        all_below(a, n),
        all_below(b, n),
    ensures
        all_below(a + b, n),
{
    let all = a + b;
    assert forall|i: int| 0 <= i < all.len() implies #[trigger] row_below(all[i], n) by {
        if i < a.len() {
            assert(row_below(a[i], n));
        } else {
            assert(row_below(b[i - a.len()], n));
        }
    }
}

/// Rows below a level are below any higher one.
pub proof fn lemma_still_below(all: Seq<RowModel>, n: nat, m: nat)
    requires
        all_below(all, n),
        m <= n,
    ensures
        all_below(all, m),
{
    assert forall|i: int| 0 <= i < all.len() implies #[trigger] row_below(all[i], m) by {
        assert(row_below(all[i], n));
    }
}

/// What is unfolded beneath a row lies below it.
pub proof fn lemma_unfolded_below(
    view: ViewModel,
    indent: nat,
    path: Seq<item::IdModel>,
    ctx: CtxModel,
)
    requires
        rows::bounded(ctx),
    ensures
        all_below(rows::unfolded_rows(view, indent, path, ctx), path.len()),
    decreases rows::reach(ctx, path), 3int, 0int,
{
    let refs = view.item.refs.len() as int;
    let users = index::grouped(ctx.index.users, view.item.id.name).len() as int;
    lemma_expansion_below(view, indent, path, ctx, refs);
    lemma_usages_below(view, indent, path, ctx, users);
    lemma_join_below(
        rows::expansion_rows(view, indent, path, ctx, refs),
        rows::usage_rows(view, indent, path, ctx, users),
        path.len(),
    );
}

/// Referenced definitions lie below the row that references them.
proof fn lemma_expansion_below(
    view: ViewModel,
    indent: nat,
    path: Seq<item::IdModel>,
    ctx: CtxModel,
    n: int,
)
    requires
        rows::bounded(ctx),
    ensures
        all_below(rows::expansion_rows(view, indent, path, ctx, n), path.len()),
    decreases rows::reach(ctx, path), 2int, n,
{
    if n > 0 && ctx.expanded.contains(path) {
        lemma_expansion_below(view, indent, path, ctx, n - 1);
        let before = rows::expansion_rows(view, indent, path, ctx, n - 1);
        let name = view.item.refs[n - 1];
        if let Some(resolved) = index::resolve(ctx.index, name, view.item.id.path) {
            let deep = rows::deeper(indent, 4);
            if path.contains(resolved.def.item.id) {
                lemma_join_below(before, seq![rows::cycle_row(name, deep)], path.len());
                assert(before + seq![rows::cycle_row(name, deep)] =~= before.push(
                    rows::cycle_row(name, deep),
                ));
            } else {
                lemma_definition_below(resolved, deep, path, ctx);
                lemma_join_below(
                    before,
                    rows::definition_rows(resolved, deep, path, ctx),
                    path.len(),
                );
            }
        }
    }
}

/// The rows of a definition lie below the row that references it.
proof fn lemma_definition_below(
    resolved: index::ResolvedModel,
    indent: nat,
    parent: Seq<item::IdModel>,
    ctx: CtxModel,
)
    requires
        rows::bounded(ctx),
    ensures
        all_below(rows::definition_rows(resolved, indent, parent, ctx), parent.len()),
    decreases rows::reach(ctx, parent), 1int, 0int,
{
    let def = resolved.def;
    let path = parent.push(def.item.id);
    let own = seq![rows::definition_row(resolved, indent, path, ctx)];
    assert(all_below(own, parent.len()));
    if ctx.expanded.contains(path) || ctx.usages_open.contains(path) {
        let m = def.members.len() as int;
        let r = def.item.refs.len() as int;
        let u = index::grouped(ctx.index.users, def.item.id.name).len() as int;
        lemma_members_below(def, indent, path, ctx, m);
        lemma_expansion_below(def, indent, path, ctx, r);
        lemma_usages_below(def, indent, path, ctx, u);
        let members = rows::member_rows(def, indent, path, ctx, m);
        let shown = rows::expansion_rows(def, indent, path, ctx, r);
        let used = rows::usage_rows(def, indent, path, ctx, u);
        lemma_still_below(members, path.len(), parent.len());
        lemma_still_below(shown, path.len(), parent.len());
        lemma_still_below(used, path.len(), parent.len());
        lemma_join_below(own, members, parent.len());
        lemma_join_below(own + members, shown, parent.len());
        lemma_join_below(own + members + shown, used, parent.len());
    }
}

/// The members of a definition lie below its header.
proof fn lemma_members_below(
    def: ViewModel,
    indent: nat,
    path: Seq<item::IdModel>,
    ctx: CtxModel,
    n: int,
)
    requires
        rows::bounded(ctx),
    ensures
        all_below(rows::member_rows(def, indent, path, ctx, n), path.len()),
    decreases rows::reach(ctx, path), 2int, n,
{
    if n > 0 && ctx.expanded.contains(path) {
        lemma_members_below(def, indent, path, ctx, n - 1);
        let member = def.members[n - 1];
        let below = path.push(member.item.id);
        let before = rows::member_rows(def, indent, path, ctx, n - 1);
        let own = seq![rows::member_row(member, indent, below, ctx)];
        let rest = rows::unfolded_rows(member, rows::deeper(indent, 2), below, ctx);
        lemma_unfolded_below(member, rows::deeper(indent, 2), below, ctx);
        lemma_still_below(rest, below.len(), path.len());
        assert(all_below(own, path.len()));
        lemma_join_below(before, own, path.len());
        assert(before + own =~= before.push(rows::member_row(member, indent, below, ctx)));
        lemma_join_below(before + own, rest, path.len());
    }
}

/// The users of an item lie below its row.
proof fn lemma_usages_below(
    view: ViewModel,
    indent: nat,
    path: Seq<item::IdModel>,
    ctx: CtxModel,
    n: int,
)
    requires
        rows::bounded(ctx),
    ensures
        all_below(rows::usage_rows(view, indent, path, ctx, n), path.len()),
    decreases rows::reach(ctx, path), 2int, n,
{
    if n > 0 && ctx.usages_open.contains(path) {
        lemma_usages_below(view, indent, path, ctx, n - 1);
        let user = index::grouped(ctx.index.users, view.item.id.name)[n - 1];
        let before = rows::usage_rows(view, indent, path, ctx, n - 1);
        if rows::other_user(view, path, user) {
            let deep = rows::deeper(indent, 4);
            let below = path.push(user.item.id);
            let own = seq![rows::usage_row(user, deep, below, ctx)];
            let rest = rows::unfolded_rows(user, deep, below, ctx);
            lemma_unfolded_below(user, deep, below, ctx);
            lemma_still_below(rest, below.len(), path.len());
            assert(all_below(own, path.len()));
            lemma_join_below(before, own, path.len());
            assert(before + own =~= before.push(rows::usage_row(user, deep, below, ctx)));
            lemma_join_below(before + own, rest, path.len());
        }
    }
}

/// Toggling `on` neither adds nor removes the row `on` beneath another row.
proof fn lemma_unfolded_keeps(
    view: ViewModel,
    indent: nat,
    path: Seq<item::IdModel>,
    a: CtxModel,
    b: CtxModel,
    on: Seq<item::IdModel>,
    row: RowModel,
)
    requires
        rows::bounded(a),
        rows::bounded(b),
        same_but(a, b, on),
        row_is(row, on),
    ensures
        has_row(rows::unfolded_rows(view, indent, path, a), row) == has_row(
            rows::unfolded_rows(view, indent, path, b),
            row,
        ),
    decreases rows::reach(a, path), 3int, 0int,
{
    let refs = view.item.refs.len() as int;
    let users = index::grouped(a.index.users, view.item.id.name).len() as int;
    lemma_expansion_keeps(view, indent, path, a, b, on, row, refs);
    lemma_usages_keep(view, indent, path, a, b, on, row, users);
    lemma_in_either(
        rows::expansion_rows(view, indent, path, a, refs),
        rows::usage_rows(view, indent, path, a, users),
        row,
    );
    lemma_in_either(
        rows::expansion_rows(view, indent, path, b, refs),
        rows::usage_rows(view, indent, path, b, users),
        row,
    );
}

/// Toggling `on` neither adds nor removes the row `on` among definitions.
proof fn lemma_expansion_keeps(
    view: ViewModel,
    indent: nat,
    path: Seq<item::IdModel>,
    a: CtxModel,
    b: CtxModel,
    on: Seq<item::IdModel>,
    row: RowModel,
    n: int,
)
    requires
        rows::bounded(a),
        rows::bounded(b),
        same_but(a, b, on),
        row_is(row, on),
    ensures
        has_row(rows::expansion_rows(view, indent, path, a, n), row) == has_row(
            rows::expansion_rows(view, indent, path, b, n),
            row,
        ),
    decreases rows::reach(a, path), 2int, n,
{
    if path == on {
        lemma_expansion_below(view, indent, path, a, n);
        lemma_expansion_below(view, indent, path, b, n);
        lemma_not_below(rows::expansion_rows(view, indent, path, a, n), on, row, path.len());
        lemma_not_below(rows::expansion_rows(view, indent, path, b, n), on, row, path.len());
    } else if n > 0 && a.expanded.contains(path) {
        lemma_expansion_keeps(view, indent, path, a, b, on, row, n - 1);
        let before_a = rows::expansion_rows(view, indent, path, a, n - 1);
        let before_b = rows::expansion_rows(view, indent, path, b, n - 1);
        let name = view.item.refs[n - 1];
        if let Some(resolved) = index::resolve(a.index, name, view.item.id.path) {
            let deep = rows::deeper(indent, 4);
            if path.contains(resolved.def.item.id) {
                lemma_in_pushed(before_a, rows::cycle_row(name, deep), row);
                lemma_in_pushed(before_b, rows::cycle_row(name, deep), row);
            } else {
                lemma_definition_keeps(resolved, deep, path, a, b, on, row);
                lemma_in_either(before_a, rows::definition_rows(resolved, deep, path, a), row);
                lemma_in_either(before_b, rows::definition_rows(resolved, deep, path, b), row);
            }
        }
    } else {
        assert(n <= 0 || !b.expanded.contains(path));
    }
}

/// A row that a definition's path identifies is among its rows only as its
/// header.
proof fn lemma_own_definition(
    resolved: index::ResolvedModel,
    indent: nat,
    parent: Seq<item::IdModel>,
    ctx: CtxModel,
    row: RowModel,
)
    requires
        rows::bounded(ctx),
        row_is(row, parent.push(resolved.def.item.id)),
    ensures
        has_row(rows::definition_rows(resolved, indent, parent, ctx), row) == (
        rows::definition_row(resolved, indent, parent.push(resolved.def.item.id), ctx) == row),
{
    let def = resolved.def;
    let path = parent.push(def.item.id);
    let header = rows::definition_row(resolved, indent, path, ctx);
    let own = seq![header];
    lemma_in_pushed(seq![], header, row);
    assert(Seq::<RowModel>::empty().push(header) =~= own);
    assert(has_row(own, row) == (header == row));
    if ctx.expanded.contains(path) || ctx.usages_open.contains(path) {
        let m = def.members.len() as int;
        let r = def.item.refs.len() as int;
        let u = index::grouped(ctx.index.users, def.item.id.name).len() as int;
        let members = rows::member_rows(def, indent, path, ctx, m);
        let shown = rows::expansion_rows(def, indent, path, ctx, r);
        let used = rows::usage_rows(def, indent, path, ctx, u);
        lemma_members_below(def, indent, path, ctx, m);
        lemma_expansion_below(def, indent, path, ctx, r);
        lemma_usages_below(def, indent, path, ctx, u);
        lemma_not_below(members, path, row, path.len());
        lemma_not_below(shown, path, row, path.len());
        lemma_not_below(used, path, row, path.len());
        lemma_in_either(own, members, row);
        lemma_in_either(own + members, shown, row);
        lemma_in_either(own + members + shown, used, row);
    }
}

/// Toggling `on` neither adds nor removes the row `on` in a definition.
proof fn lemma_definition_keeps(
    resolved: index::ResolvedModel,
    indent: nat,
    parent: Seq<item::IdModel>,
    a: CtxModel,
    b: CtxModel,
    on: Seq<item::IdModel>,
    row: RowModel,
)
    requires
        rows::bounded(a),
        rows::bounded(b),
        same_but(a, b, on),
        row_is(row, on),
    ensures
        has_row(rows::definition_rows(resolved, indent, parent, a), row) == has_row(
            rows::definition_rows(resolved, indent, parent, b),
            row,
        ),
    decreases rows::reach(a, parent), 1int, 0int,
{
    let def = resolved.def;
    let path = parent.push(def.item.id);
    let m = def.members.len() as int;
    let r = def.item.refs.len() as int;
    let u = index::grouped(a.index.users, def.item.id.name).len() as int;
    let own_a = seq![rows::definition_row(resolved, indent, path, a)];
    let own_b = seq![rows::definition_row(resolved, indent, path, b)];
    assert(own_a == own_b);
    if path == on {
        lemma_own_definition(resolved, indent, parent, a, row);
        lemma_own_definition(resolved, indent, parent, b, row);
    } else if a.expanded.contains(path) || a.usages_open.contains(path) {
        assert(b.expanded.contains(path) || b.usages_open.contains(path));
        lemma_members_keep(def, indent, path, a, b, on, row, m);
        lemma_expansion_keeps(def, indent, path, a, b, on, row, r);
        lemma_usages_keep(def, indent, path, a, b, on, row, u);
        let members_a = rows::member_rows(def, indent, path, a, m);
        let members_b = rows::member_rows(def, indent, path, b, m);
        let shown_a = rows::expansion_rows(def, indent, path, a, r);
        let shown_b = rows::expansion_rows(def, indent, path, b, r);
        lemma_in_either(own_a, members_a, row);
        lemma_in_either(own_b, members_b, row);
        lemma_in_either(own_a + members_a, shown_a, row);
        lemma_in_either(own_b + members_b, shown_b, row);
        lemma_in_either(
            own_a + members_a + shown_a,
            rows::usage_rows(def, indent, path, a, u),
            row,
        );
        lemma_in_either(
            own_b + members_b + shown_b,
            rows::usage_rows(def, indent, path, b, u),
            row,
        );
    } else {
        assert(!b.expanded.contains(path) && !b.usages_open.contains(path));
    }
}

/// Toggling `on` neither adds nor removes the row `on` among members.
proof fn lemma_members_keep(
    def: ViewModel,
    indent: nat,
    path: Seq<item::IdModel>,
    a: CtxModel,
    b: CtxModel,
    on: Seq<item::IdModel>,
    row: RowModel,
    n: int,
)
    requires
        rows::bounded(a),
        rows::bounded(b),
        same_but(a, b, on),
        row_is(row, on),
    ensures
        has_row(rows::member_rows(def, indent, path, a, n), row) == has_row(
            rows::member_rows(def, indent, path, b, n),
            row,
        ),
    decreases rows::reach(a, path), 2int, n,
{
    if path == on {
        lemma_members_below(def, indent, path, a, n);
        lemma_members_below(def, indent, path, b, n);
        lemma_not_below(rows::member_rows(def, indent, path, a, n), on, row, path.len());
        lemma_not_below(rows::member_rows(def, indent, path, b, n), on, row, path.len());
    } else if n > 0 && a.expanded.contains(path) {
        lemma_members_keep(def, indent, path, a, b, on, row, n - 1);
        let member = def.members[n - 1];
        let below = path.push(member.item.id);
        let deep = rows::deeper(indent, 2);
        let before_a = rows::member_rows(def, indent, path, a, n - 1);
        let before_b = rows::member_rows(def, indent, path, b, n - 1);
        let own = rows::member_row(member, indent, below, a);
        assert(own == rows::member_row(member, indent, below, b));
        lemma_unfolded_keeps(member, deep, below, a, b, on, row);
        lemma_in_pushed(before_a, own, row);
        lemma_in_pushed(before_b, own, row);
        lemma_in_either(before_a.push(own), rows::unfolded_rows(member, deep, below, a), row);
        lemma_in_either(before_b.push(own), rows::unfolded_rows(member, deep, below, b), row);
    } else {
        assert(n <= 0 || !b.expanded.contains(path));
    }
}

/// Toggling `on` neither adds nor removes the row `on` among users.
proof fn lemma_usages_keep(
    view: ViewModel,
    indent: nat,
    path: Seq<item::IdModel>,
    a: CtxModel,
    b: CtxModel,
    on: Seq<item::IdModel>,
    row: RowModel,
    n: int,
)
    requires
        rows::bounded(a),
        rows::bounded(b),
        same_but(a, b, on),
        row_is(row, on),
    ensures
        has_row(rows::usage_rows(view, indent, path, a, n), row) == has_row(
            rows::usage_rows(view, indent, path, b, n),
            row,
        ),
    decreases rows::reach(a, path), 2int, n,
{
    if path == on {
        lemma_usages_below(view, indent, path, a, n);
        lemma_usages_below(view, indent, path, b, n);
        lemma_not_below(rows::usage_rows(view, indent, path, a, n), on, row, path.len());
        lemma_not_below(rows::usage_rows(view, indent, path, b, n), on, row, path.len());
    } else if n > 0 && a.usages_open.contains(path) {
        lemma_usages_keep(view, indent, path, a, b, on, row, n - 1);
        let user = index::grouped(a.index.users, view.item.id.name)[n - 1];
        let before_a = rows::usage_rows(view, indent, path, a, n - 1);
        let before_b = rows::usage_rows(view, indent, path, b, n - 1);
        if rows::other_user(view, path, user) {
            let deep = rows::deeper(indent, 4);
            let below = path.push(user.item.id);
            let own = rows::usage_row(user, deep, below, a);
            assert(own == rows::usage_row(user, deep, below, b));
            lemma_unfolded_keeps(user, deep, below, a, b, on, row);
            lemma_in_pushed(before_a, own, row);
            lemma_in_pushed(before_b, own, row);
            lemma_in_either(before_a.push(own), rows::unfolded_rows(user, deep, below, a), row);
            lemma_in_either(before_b.push(own), rows::unfolded_rows(user, deep, below, b), row);
        }
    } else {
        assert(n <= 0 || !b.usages_open.contains(path));
    }
}

/// Toggling `on` neither adds nor removes the row `on` in a review row.
proof fn lemma_item_keeps(
    view: ViewModel,
    indent: nat,
    parent: Seq<item::IdModel>,
    a: CtxModel,
    b: CtxModel,
    on: Seq<item::IdModel>,
    row: RowModel,
)
    requires
        rows::bounded(a),
        rows::bounded(b),
        same_but(a, b, on),
        row_is(row, on),
    ensures
        has_row(rows::item_rows(view, indent, parent, a), row) == has_row(
            rows::item_rows(view, indent, parent, b),
            row,
        ),
{
    let path = parent.push(view.item.id);
    let own = rows::own_rows(view, indent, path, a);
    assert(rows::item_stop(view, path, a) == rows::item_stop(view, path, b));
    assert(own == rows::own_rows(view, indent, path, b));
    lemma_unfolded_keeps(view, indent, path, a, b, on, row);
    lemma_in_either(own, rows::unfolded_rows(view, indent, path, a), row);
    lemma_in_either(own, rows::unfolded_rows(view, indent, path, b), row);
}

/// Toggling `on` neither adds nor removes the row `on` among block members.
proof fn lemma_block_members_keep(
    members: Seq<ViewModel>,
    a: CtxModel,
    b: CtxModel,
    on: Seq<item::IdModel>,
    row: RowModel,
    n: int,
)
    requires
        rows::bounded(a),
        rows::bounded(b),
        same_but(a, b, on),
        row_is(row, on),
    ensures
        has_row(view::block_member_rows(members, a, n), row) == has_row(
            view::block_member_rows(members, b, n),
            row,
        ),
    decreases n,
{
    if n > 0 {
        lemma_block_members_keep(members, a, b, on, row, n - 1);
        lemma_item_keeps(members[n - 1], 6, seq![], a, b, on, row);
        lemma_in_either(
            view::block_member_rows(members, a, n - 1),
            rows::item_rows(members[n - 1], 6, seq![], a),
            row,
        );
        lemma_in_either(
            view::block_member_rows(members, b, n - 1),
            rows::item_rows(members[n - 1], 6, seq![], b),
            row,
        );
    }
}

/// Toggling `on` neither adds nor removes the row `on` among blocks.
proof fn lemma_blocks_keep(
    blocks: Seq<ViewModel>,
    a: CtxModel,
    b: CtxModel,
    on: Seq<item::IdModel>,
    row: RowModel,
    n: int,
)
    requires
        rows::bounded(a),
        rows::bounded(b),
        same_but(a, b, on),
        row_is(row, on),
    ensures
        has_row(view::block_rows(blocks, a, n), row) == has_row(
            view::block_rows(blocks, b, n),
            row,
        ),
    decreases n,
{
    if n > 0 {
        lemma_blocks_keep(blocks, a, b, on, row, n - 1);
        let block = blocks[n - 1];
        let apart = if view::composite(block) || (n >= 2 && view::composite(blocks[n - 2])) {
            seq![view::blank_row()]
        } else {
            seq![]
        };
        let m = block.members.len() as int;
        lemma_item_keeps(block, 2, seq![], a, b, on, row);
        lemma_block_members_keep(block.members, a, b, on, row, m);
        let before_a = view::block_rows(blocks, a, n - 1);
        let before_b = view::block_rows(blocks, b, n - 1);
        let own_a = rows::item_rows(block, 2, seq![], a);
        let own_b = rows::item_rows(block, 2, seq![], b);
        lemma_in_either(before_a, apart, row);
        lemma_in_either(before_b, apart, row);
        lemma_in_either(before_a + apart, own_a, row);
        lemma_in_either(before_b + apart, own_b, row);
        lemma_in_either(
            before_a + apart + own_a,
            view::block_member_rows(block.members, a, m),
            row,
        );
        lemma_in_either(
            before_b + apart + own_b,
            view::block_member_rows(block.members, b, m),
            row,
        );
    }
}

/// Toggling `on` neither adds nor removes the row `on` among files.
proof fn lemma_files_keep(
    review: Seq<changes::FileModel>,
    a: CtxModel,
    b: CtxModel,
    on: Seq<item::IdModel>,
    row: RowModel,
    n: int,
)
    requires
        rows::bounded(a),
        rows::bounded(b),
        same_but(a, b, on),
        row_is(row, on),
    ensures
        has_row(view::files_rows(review, a, n), row) == has_row(
            view::files_rows(review, b, n),
            row,
        ),
    decreases n,
{
    if n > 0 {
        lemma_files_keep(review, a, b, on, row, n - 1);
        let file = review[n - 1];
        let apart = if n > 1 {
            seq![view::blank_row()]
        } else {
            seq![]
        };
        let before_a = view::files_rows(review, a, n - 1);
        let before_b = view::files_rows(review, b, n - 1);
        if let changes::FileKindModel::Changed(blocks) = file.kind {
            let k = blocks.len() as int;
            lemma_blocks_keep(blocks, a, b, on, row, k);
            let header = seq![view::file_rows(file, a)[0]];
            assert(view::file_rows(file, a) =~= header + view::block_rows(blocks, a, k));
            assert(view::file_rows(file, b) =~= header + view::block_rows(blocks, b, k));
            lemma_in_either(header, view::block_rows(blocks, a, k), row);
            lemma_in_either(header, view::block_rows(blocks, b, k), row);
        }
        lemma_in_either(before_a, apart, row);
        lemma_in_either(before_b, apart, row);
        lemma_in_either(before_a + apart, view::file_rows(file, a), row);
        lemma_in_either(before_b + apart, view::file_rows(file, b), row);
    }
}

/// Opening or closing a row, in either direction of unfolding, leaves the row
/// itself shown as it was, and shows it nowhere it was not.
pub proof fn law_a_toggled_row_stays(
    review: Seq<changes::FileModel>,
    a: CtxModel,
    b: CtxModel,
    on: Seq<item::IdModel>,
    row: RowModel,
)
    requires
        rows::bounded(a),
        rows::bounded(b),
        same_but(a, b, on),
        row_is(row, on),
    ensures
        has_row(view::review_rows(review, a), row) == has_row(view::review_rows(review, b), row),
{
    lemma_files_keep(review, a, b, on, row, review.len() as int);
}

/// Whether stop `s` of a display is marked as `stop` says.
pub open spec fn listed_at(shown: RenderedModel, s: int, stop: StopModel) -> bool {
    &&& 0 <= s < shown.paths.len()
    &&& shown.jumps[s] == stop.jump
    &&& shown.expandable[s] == stop.expandable
    &&& shown.referenced[s] == stop.referenced
    &&& shown.paths[s] == stop.path
}

/// Whether stop `s` of a display is that of a row.
pub open spec fn row_listed(shown: RenderedModel, s: int, row: RowModel) -> bool {
    row.stop matches Some(stop) && listed_at(shown, s, stop)
}

/// There is a mark of each kind per stop.
proof fn lemma_marks(all: Seq<RowModel>)
    ensures
        view::rendered(all).jumps.len() == view::rendered(all).paths.len(),
        view::rendered(all).expandable.len() == view::rendered(all).paths.len(),
        view::rendered(all).referenced.len() == view::rendered(all).paths.len(),
    decreases all.len(),
{
    if all.len() > 0 {
        lemma_marks(all.drop_last());
    }
}

/// A row the cursor may land on is listed.
proof fn lemma_listed(all: Seq<RowModel>, i: int) -> (s: int)
    requires
        0 <= i < all.len(),
        all[i].stop is Some,
    ensures
        row_listed(view::rendered(all), s, all[i]),
    decreases all.len(),
{
    let rest = all.drop_last();
    lemma_marks(rest);
    if i < rest.len() {
        assert(rest[i] == all[i]);
        lemma_listed(rest, i)
    } else {
        view::rendered(rest).paths.len() as int
    }
}

/// What is listed is a row.
proof fn lemma_row_of(all: Seq<RowModel>, s: int) -> (i: int)
    requires
        0 <= s < view::rendered(all).paths.len(),
    ensures
        0 <= i < all.len(),
        row_listed(view::rendered(all), s, all[i]),
    decreases all.len(),
{
    let rest = all.drop_last();
    if all.len() > 0 {
        lemma_marks(rest);
    }
    if all.len() > 0 && s < view::rendered(rest).paths.len() {
        let i = lemma_row_of(rest, s);
        assert(rest[i] == all[i]);
        i
    } else {
        all.len() - 1
    }
}

/// A row listed is found, and what is found is it.
proof fn lemma_row_at(
    paths: Seq<Option<Seq<item::IdModel>>>,
    path: Seq<item::IdModel>,
    i: int,
)
    requires
        0 <= i <= paths.len(),
    ensures
        pane::row_at(paths, path, i) matches Some(at) ==> i <= at < paths.len() && paths[at]
            == Some(path),
        pane::row_at(paths, path, i) is None ==> forall|k: int|
            i <= k < paths.len() ==> #[trigger] paths[k] != Some(path),
    decreases paths.len() - i,
{
    if i < paths.len() && paths[i] != Some(path) {
        lemma_row_at(paths, path, i + 1);
    }
}

/// The context of a pane.
pub open spec fn context(app: AppModel) -> CtxModel {
    CtxModel { expanded: app.expanded, usages_open: app.usages_open, index: app.index }
}

/// The cursor is on the same row after the row is unfolded or folded as
/// before, wherever the rows around it moved.
pub proof fn law_cursor_stays_on_its_row(app: AppModel)
    requires
        pane::in_sync(app),
        rows::bounded(context(app)),
        pane::row_of_cursor(app) is Some,
    ensures
        pane::row_of_cursor(pane::expand_toggled(app)) == pane::row_of_cursor(app),
        pane::row_of_cursor(pane::usages_toggled(app)) == pane::row_of_cursor(app),
{
    let on = pane::row_of_cursor(app)->0;
    let opened = AppModel { expanded: rows::toggled(app.expanded, on), ..app };
    let used = AppModel { usages_open: rows::toggled(app.usages_open, on), ..app };
    lemma_refound(app, opened, on);
    lemma_refound(app, used, on);
}

/// The row `on` is found again once the display follows other open rows, marked
/// as before.
proof fn lemma_refound(app: AppModel, next: AppModel, on: Seq<item::IdModel>) -> (found: (
    StopModel,
    int,
))
    requires
        pane::in_sync(app),
        rows::bounded(context(app)),
        pane::row_of_cursor(app) == Some(on),
        next == (AppModel { expanded: next.expanded, usages_open: next.usages_open, ..app }),
        next.expanded == app.expanded || next.expanded == rows::toggled(app.expanded, on),
        next.usages_open == app.usages_open || next.usages_open == rows::toggled(
            app.usages_open,
            on,
        ),
    ensures
        pane::row_of_cursor(pane::rerendered(next)) == Some(on),
        rows::bounded(context(next)),
        listed_at(app.shown, app.cursor, found.0),
        listed_at(pane::look(next), found.1, found.0),
{
    let a = context(app);
    let b = context(next);
    let n = choose|n: nat| rows::limits(a, n);
    assert(rows::limits(b, n + on.len()));
    assert(same_but(a, b, on));
    let all_a = view::review_rows(app.review, a);
    let all_b = view::review_rows(app.review, b);
    assert(app.shown.paths[app.cursor] == Some(on));
    let i = lemma_row_of(all_a, app.cursor);
    let row = all_a[i];
    let stop = row.stop->0;
    assert(row_is(row, on));
    law_a_toggled_row_stays(app.review, a, b, on, row);
    assert(has_row(all_a, row));
    let j = choose|j: int| 0 <= j < all_b.len() && #[trigger] all_b[j] == row;
    let s = lemma_listed(all_b, j);
    let fresh = AppModel { shown: pane::look(next), ..next };
    assert(fresh.shown.paths[s] == Some(on));
    lemma_row_at(fresh.shown.paths, on, 0);
    (stop, s)
}

/// Whether no two stops show the same row.
pub open spec fn distinct_rows(shown: RenderedModel) -> bool {
    forall|s: int, t: int|
        0 <= s < shown.paths.len() && 0 <= t < shown.paths.len() && s != t
            && #[trigger] shown.paths[s] is Some ==> shown.paths[s] != #[trigger] shown.paths[t]
}

/// Expanding a row and collapsing it again gives back what was shown, and the
/// cursor where it was; in between, that row alone is opened or closed, and the
/// cursor is still on it.
pub proof fn law_expanding_twice_restores(app: AppModel)
    requires
        pane::in_sync(app),
        rows::bounded(context(app)),
        pane::can_toggle_expand(app),
        distinct_rows(app.shown),
        distinct_rows(pane::expand_toggled(app).shown),
    ensures
        ({
            let on = pane::row_of_cursor(app)->0;
            let once = pane::expand_toggled(app);
            let twice = pane::expand_toggled(once);
            &&& once.expanded == rows::toggled(app.expanded, on)
            &&& once.usages_open == app.usages_open
            &&& pane::row_of_cursor(once) == Some(on)
            &&& pane::can_toggle_expand(once)
            &&& twice.expanded == app.expanded
            &&& twice.usages_open == app.usages_open
            &&& twice.shown == app.shown
            &&& twice.cursor == app.cursor
        }),
{
    let on = pane::row_of_cursor(app)->0;
    let opened = AppModel { expanded: rows::toggled(app.expanded, on), ..app };
    let once = pane::expand_toggled(app);
    let (_, s) = lemma_refound(app, opened, on);
    assert(once.shown == pane::look(opened));
    assert(once.shown.paths[s] == Some(on));
    assert(once.shown.paths[once.cursor] == Some(on));
    assert(once.cursor == s);
    lemma_marks(view::review_rows(app.review, context(opened)));
    assert(pane::can_toggle_expand(once));
    let closed = AppModel { expanded: rows::toggled(once.expanded, on), ..once };
    assert(closed.expanded =~= app.expanded);
    assert(pane::look(closed) == pane::look(app));
    lemma_row_at(app.shown.paths, on, 0);
    assert(app.shown.paths[app.cursor] == Some(on));
}

/// Opening a row's used-by list and closing it again gives back what was shown,
/// and the cursor where it was; in between, that list alone is opened or closed,
/// and the cursor is still on the row.
pub proof fn law_opening_usages_twice_restores(app: AppModel)
    requires
        pane::in_sync(app),
        rows::bounded(context(app)),
        pane::can_toggle_usages(app),
        distinct_rows(app.shown),
        distinct_rows(pane::usages_toggled(app).shown),
    ensures
        ({
            let on = pane::row_of_cursor(app)->0;
            let once = pane::usages_toggled(app);
            let twice = pane::usages_toggled(once);
            &&& once.usages_open == rows::toggled(app.usages_open, on)
            &&& once.expanded == app.expanded
            &&& pane::row_of_cursor(once) == Some(on)
            &&& pane::can_toggle_usages(once)
            &&& twice.usages_open == app.usages_open
            &&& twice.expanded == app.expanded
            &&& twice.shown == app.shown
            &&& twice.cursor == app.cursor
        }),
{
    let on = pane::row_of_cursor(app)->0;
    let opened = AppModel { usages_open: rows::toggled(app.usages_open, on), ..app };
    let once = pane::usages_toggled(app);
    let (_, s) = lemma_refound(app, opened, on);
    assert(once.shown == pane::look(opened));
    assert(once.shown.paths[s] == Some(on));
    assert(once.shown.paths[once.cursor] == Some(on));
    assert(once.cursor == s);
    lemma_marks(view::review_rows(app.review, context(opened)));
    assert(pane::can_toggle_usages(once));
    let closed = AppModel { usages_open: rows::toggled(once.usages_open, on), ..once };
    assert(closed.usages_open =~= app.usages_open);
    assert(pane::look(closed) == pane::look(app));
    lemma_row_at(app.shown.paths, on, 0);
    assert(app.shown.paths[app.cursor] == Some(on));
}

/// On a row that is not marked for it, `Tab` and `gr` change nothing.
pub proof fn law_unmarked_rows_do_not_unfold(app: AppModel)
    requires
        pane::in_sync(app),
        0 <= app.cursor < app.shown.stops.len(),
    ensures
        !app.shown.expandable[app.cursor] ==> pane::expand_toggled(app) == app,
        !app.shown.referenced[app.cursor] ==> pane::usages_toggled(app) == app,
{
}

/// Whether the cursor may land on one of the rows.
pub open spec fn has_stop(all: Seq<RowModel>) -> bool {
    exists|i: int| 0 <= i < all.len() && (#[trigger] all[i]).stop is Some
}

/// The cursor may land on a concatenation if it may land on either part.
proof fn lemma_stop_in_either(a: Seq<RowModel>, b: Seq<RowModel>)
    ensures
        has_stop(a + b) == (has_stop(a) || has_stop(b)),
{
    let all = a + b;
    if has_stop(a) {
        let i = choose|i: int| 0 <= i < a.len() && (#[trigger] a[i]).stop is Some;
        assert(all[i].stop is Some);
    }
    if has_stop(b) {
        let i = choose|i: int| 0 <= i < b.len() && (#[trigger] b[i]).stop is Some;
        assert(all[a.len() + i].stop is Some);
    }
    if has_stop(all) {
        let i = choose|i: int| 0 <= i < all.len() && (#[trigger] all[i]).stop is Some;
        if i < a.len() {
            assert(a[i].stop is Some);
        } else {
            assert(b[i - a.len()].stop is Some);
        }
    }
}

/// The first `n` references unfold a row to land on exactly if one of them
/// leads on.
proof fn lemma_expansion_lands(
    shown: ViewModel,
    indent: nat,
    path: Seq<item::IdModel>,
    ctx: CtxModel,
    n: int,
)
    requires
        rows::bounded(ctx),
        ctx.expanded.contains(path),
        0 <= n <= shown.item.refs.len(),
    ensures
        has_stop(rows::expansion_rows(shown, indent, path, ctx, n)) <==> exists|r: int|
            0 <= r < n && #[trigger] rows::leads_on(shown, path, ctx.index, r),
    decreases n,
{
    if n > 0 {
        lemma_expansion_lands(shown, indent, path, ctx, n - 1);
        let before = rows::expansion_rows(shown, indent, path, ctx, n - 1);
        let name = shown.item.refs[n - 1];
        match index::resolve(ctx.index, name, shown.item.id.path) {
            None => {
                assert(!rows::leads_on(shown, path, ctx.index, n - 1));
            },
            Some(resolved) => {
                let deep = rows::deeper(indent, 4);
                if path.contains(resolved.def.item.id) {
                    let note = rows::cycle_row(name, deep);
                    assert(!rows::leads_on(shown, path, ctx.index, n - 1));
                    assert(before.push(note) =~= before + seq![note]);
                    lemma_stop_in_either(before, seq![note]);
                } else {
                    assert(rows::leads_on(shown, path, ctx.index, n - 1));
                    let below = rows::definition_rows(resolved, deep, path, ctx);
                    assert(below[0].stop is Some);
                    lemma_stop_in_either(before, below);
                }
            },
        }
    }
}

/// The first `n` users unfold a row to land on exactly if one of them is worth
/// showing.
proof fn lemma_usages_land(
    shown: ViewModel,
    indent: nat,
    path: Seq<item::IdModel>,
    ctx: CtxModel,
    n: int,
)
    requires
        rows::bounded(ctx),
        ctx.usages_open.contains(path),
        0 <= n <= index::grouped(ctx.index.users, shown.item.id.name).len(),
    ensures
        has_stop(rows::usage_rows(shown, indent, path, ctx, n)) <==> exists|u: int|
            0 <= u < n && #[trigger] rows::other_user(
                shown,
                path,
                index::grouped(ctx.index.users, shown.item.id.name)[u],
            ),
    decreases n,
{
    if n > 0 {
        lemma_usages_land(shown, indent, path, ctx, n - 1);
        let before = rows::usage_rows(shown, indent, path, ctx, n - 1);
        let user = index::grouped(ctx.index.users, shown.item.id.name)[n - 1];
        if rows::other_user(shown, path, user) {
            let below = path.push(user.item.id);
            let deep = rows::deeper(indent, 4);
            let row = rows::usage_row(user, deep, below, ctx);
            assert(before.push(row).last().stop is Some);
            lemma_stop_in_either(
                before.push(row),
                rows::unfolded_rows(user, deep, below, ctx),
            );
        }
    }
}

/// A row is marked expandable exactly if expanding it brings up rows the
/// cursor may land on; cycle notes are none.
pub proof fn law_expandable_tells_what_tab_does(
    shown: ViewModel,
    indent: nat,
    path: Seq<item::IdModel>,
    ctx: CtxModel,
)
    requires
        rows::bounded(ctx),
        ctx.expanded.contains(path),
    ensures
        rows::item_stop(shown, path, ctx).expandable <==> has_stop(
            rows::expansion_rows(shown, indent, path, ctx, shown.item.refs.len() as int),
        ),
{
    lemma_expansion_lands(shown, indent, path, ctx, shown.item.refs.len() as int);
}

/// A row is marked referenced exactly if opening its used-by list brings up
/// rows the cursor may land on.
pub proof fn law_referenced_tells_what_gr_does(
    shown: ViewModel,
    indent: nat,
    path: Seq<item::IdModel>,
    ctx: CtxModel,
)
    requires
        rows::bounded(ctx),
        ctx.usages_open.contains(path),
    ensures
        rows::item_stop(shown, path, ctx).referenced <==> has_stop(
            rows::usage_rows(
                shown,
                indent,
                path,
                ctx,
                index::grouped(ctx.index.users, shown.item.id.name).len() as int,
            ),
        ),
{
    lemma_usages_land(
        shown,
        indent,
        path,
        ctx,
        index::grouped(ctx.index.users, shown.item.id.name).len() as int,
    );
}

/// A reference back to a type already on the row's path does not unfold it
/// again: it renders as a note, on which the cursor does not land.
pub proof fn law_cycles_are_noted(
    shown: ViewModel,
    indent: nat,
    path: Seq<item::IdModel>,
    ctx: CtxModel,
    r: int,
)
    requires
        rows::bounded(ctx),
        ctx.expanded.contains(path),
        0 <= r < shown.item.refs.len(),
        index::resolve(ctx.index, shown.item.refs[r], shown.item.id.path) matches Some(resolved)
            && path.contains(resolved.def.item.id),
    ensures
        rows::expansion_rows(shown, indent, path, ctx, r + 1) == rows::expansion_rows(
            shown,
            indent,
            path,
            ctx,
            r,
        ).push(rows::cycle_row(shown.item.refs[r], rows::deeper(indent, 4))),
        rows::cycle_row(shown.item.refs[r], rows::deeper(indent, 4)).stop is None,
{
}

/// A row that is not opened unfolds nothing.
pub proof fn law_closed_rows_unfold_nothing(
    shown: ViewModel,
    indent: nat,
    path: Seq<item::IdModel>,
    ctx: CtxModel,
)
    requires
        rows::bounded(ctx),
        !ctx.expanded.contains(path),
        !ctx.usages_open.contains(path),
    ensures
        rows::unfolded_rows(shown, indent, path, ctx) == Seq::<RowModel>::empty(),
{
}

} // verus!
