//! What the pane looks like: how each row reads, in which color, where it
//! leads, and what is unfolded beneath it.

use vstd::prelude::*;

use crate::changes::{FileKindModel, FileModel, StatusModel, ViewModel};
use crate::index;
use crate::item::{IdModel, Line};
use crate::layout;
use crate::render_laws;
use crate::text;
use crate::tui::rows::{self, CtxModel, JumpModel, RowModel};
use crate::tui::style::{self, Color, LineModel, SpanModel, Style};
use crate::tui::view;

verus! {

/// Whether a style is a color and nothing else.
pub open spec fn only_color(how: Style, color: Color) -> bool {
    how.fg == Some(color) && !how.bold && !how.dim && !how.underlined && !how.crossed_out
        && !how.reversed
}

/// Whether a style is dimmed and nothing else.
pub open spec fn only_dim(how: Style) -> bool {
    how.fg is None && how.dim && !how.bold && !how.underlined && !how.crossed_out && !how.reversed
}

/// Whether a line is one span of a text.
pub open spec fn reads(line: LineModel, words: Seq<char>) -> bool {
    line.spans.len() == 1 && line.spans[0].content == words && line.spans[0].style == style::plain()
}

/// An item that was added is green, a removed one red, a modified one yellow, and
/// an unchanged one dimmed. Only a modified one has a second row, dimmed, on which
/// the cursor does not land. The first row leads to where the item stands, unless
/// it was removed, and is known by its path.
pub proof fn law_items_are_colored_by_status(
    shown: ViewModel,
    indent: nat,
    path: Seq<IdModel>,
    ctx: CtxModel,
)
    ensures
        ({
            let own = rows::own_rows(shown, indent, path, ctx);
            &&& own.len() == (if shown.status is Modified { 2int } else { 1 })
            &&& match shown.status {
                StatusModel::Added => only_color(own[0].line.style, Color::Green),
                StatusModel::Removed => only_color(own[0].line.style, Color::Red),
                StatusModel::Modified { .. } => only_color(own[0].line.style, Color::Yellow)
                    && only_dim(own[1].line.style) && own[1].stop is None,
                StatusModel::Unchanged => only_dim(own[0].line.style),
            }
            &&& own[0].stop matches Some(stop) && {
                &&& !stop.header
                &&& stop.path == Some(path)
                &&& shown.status is Removed <==> stop.jump is None
                &&& stop.jump matches Some(jump) ==> jump.path == shown.item.id.path && jump.line
                    == shown.item.line
                &&& stop.expandable <==> exists|r: int| #[trigger] unfolds(shown, path, ctx, r)
                &&& stop.referenced <==> exists|u: int| #[trigger] used_by(shown, path, ctx, u)
            }
        }),
{
    if rows::expands(shown, path, ctx.index) {
        let r = choose|r: int|
            0 <= r < shown.item.refs.len() && #[trigger] rows::leads_on(shown, path, ctx.index, r);
        assert(unfolds(shown, path, ctx, r));
    }
    if exists|r: int| #[trigger] unfolds(shown, path, ctx, r) {
        let r = choose|r: int| #[trigger] unfolds(shown, path, ctx, r);
        assert(rows::leads_on(shown, path, ctx.index, r));
    }
    let users = index::grouped(ctx.index.users, shown.item.id.name);
    if rows::used(shown, path, ctx.index) {
        let u = choose|u: int|
            0 <= u < users.len() && #[trigger] rows::other_user(shown, path, users[u]);
        assert(used_by(shown, path, ctx, u));
    }
    if exists|u: int| #[trigger] used_by(shown, path, ctx, u) {
        let u = choose|u: int| #[trigger] used_by(shown, path, ctx, u);
        assert(rows::other_user(shown, path, users[u]));
    }
}

/// Whether reference `r` of an item leads to a definition that is not on the path
/// already.
pub open spec fn unfolds(shown: ViewModel, path: Seq<IdModel>, ctx: CtxModel, r: int) -> bool {
    &&& 0 <= r < shown.item.refs.len()
    &&& index::resolve(ctx.index, shown.item.refs[r], shown.item.id.path) matches Some(found)
        && !path.contains(found.def.item.id)
}

/// Whether user `u` of an item's name is another item, and not on the path
/// already.
pub open spec fn used_by(shown: ViewModel, path: Seq<IdModel>, ctx: CtxModel, u: int) -> bool {
    let users = index::grouped(ctx.index.users, shown.item.id.name);
    &&& 0 <= u < users.len()
    &&& users[u].item.id != shown.item.id
    &&& !path.contains(users[u].item.id)
}

/// Beneath a row come the definitions of what it references, if it is expanded,
/// and then what uses it, if that is opened; and nothing else.
pub proof fn law_rows_unfold_both_ways(
    shown: ViewModel,
    indent: nat,
    path: Seq<IdModel>,
    ctx: CtxModel,
)
    requires
        rows::bounded(ctx),
    ensures
        ({
            let users = index::grouped(ctx.index.users, shown.item.id.name);
            let below = rows::expansion_rows(
                shown,
                indent,
                path,
                ctx,
                shown.item.refs.len() as int,
            );
            let above = rows::usage_rows(shown, indent, path, ctx, users.len() as int);
            &&& rows::unfolded_rows(shown, indent, path, ctx) == below + above
            &&& !ctx.expanded.contains(path) ==> below.len() == 0
            &&& !ctx.usages_open.contains(path) ==> above.len() == 0
            &&& rows::item_rows(shown, indent, path.drop_last(), ctx) == rows::own_rows(
                shown,
                indent,
                path.drop_last().push(shown.item.id),
                ctx,
            ) + rows::unfolded_rows(shown, indent, path.drop_last().push(shown.item.id), ctx)
        }),
{
}

/// Four columns further in, as far as that goes.
pub open spec fn further_in(indent: nat) -> nat {
    if indent + 4 > usize::MAX {
        usize::MAX as nat
    } else {
        indent + 4
    }
}

/// What lies deeper is so many columns further in, as far as that goes.
pub proof fn law_depth_is_shown_by_columns(indent: nat, by: nat)
    requires
        indent + by <= usize::MAX,
    ensures
        rows::deeper(indent, by) == indent + by,
{
}

/// An expanded row shows what each of its references means, in order, four
/// columns further in: the definition, or a note if that is on the path already,
/// or nothing if it means nothing.
pub proof fn law_references_unfold_in_order(
    shown: ViewModel,
    indent: nat,
    path: Seq<IdModel>,
    ctx: CtxModel,
    n: int,
)
    requires
        rows::bounded(ctx),
        ctx.expanded.contains(path),
        0 <= n <= shown.item.refs.len(),
    ensures
        layout::in_turn(
            rows::expansion_rows(shown, indent, path, ctx, n),
            |r: int|
                match index::resolve(ctx.index, shown.item.refs[r], shown.item.id.path) {
                    None => seq![],
                    Some(found) => if path.contains(found.def.item.id) {
                        seq![rows::cycle_row(shown.item.refs[r], further_in(indent))]
                    } else {
                        rows::definition_rows(found, further_in(indent), path, ctx)
                    },
                },
            n,
        ),
    decreases n,
{
    let piece = |r: int|
        match index::resolve(ctx.index, shown.item.refs[r], shown.item.id.path) {
            None => seq![],
            Some(found) => if path.contains(found.def.item.id) {
                seq![rows::cycle_row(shown.item.refs[r], further_in(indent))]
            } else {
                rows::definition_rows(found, further_in(indent), path, ctx)
            },
        };
    if n == 0 {
        layout::lemma_no_pieces(piece);
    } else {
        law_references_unfold_in_order(shown, indent, path, ctx, n - 1);
        let before = rows::expansion_rows(shown, indent, path, ctx, n - 1);
        layout::lemma_one_more(before, piece, n - 1);
        assert(rows::expansion_rows(shown, indent, path, ctx, n) =~= before + piece(n - 1));
    }
}

/// A row whose users are opened shows each of them that is another item and not
/// on the path already, in order, four columns further in, with whatever is
/// unfolded beneath it.
pub proof fn law_users_unfold_in_order(
    shown: ViewModel,
    indent: nat,
    path: Seq<IdModel>,
    ctx: CtxModel,
    n: int,
)
    requires
        rows::bounded(ctx),
        ctx.usages_open.contains(path),
        0 <= n <= index::grouped(ctx.index.users, shown.item.id.name).len(),
    ensures
        layout::in_turn(
            rows::usage_rows(shown, indent, path, ctx, n),
            |u: int|
                if used_by(shown, path, ctx, u) {
                    let user = index::grouped(ctx.index.users, shown.item.id.name)[u];
                    let below = path.push(user.item.id);
                    seq![rows::usage_row(user, further_in(indent), below, ctx)]
                        + rows::unfolded_rows(user, further_in(indent), below, ctx)
                } else {
                    seq![]
                },
            n,
        ),
    decreases n,
{
    let users = index::grouped(ctx.index.users, shown.item.id.name);
    let piece = |u: int|
        if used_by(shown, path, ctx, u) {
            let user = index::grouped(ctx.index.users, shown.item.id.name)[u];
            let below = path.push(user.item.id);
            seq![rows::usage_row(user, further_in(indent), below, ctx)] + rows::unfolded_rows(
                user,
                further_in(indent),
                below,
                ctx,
            )
        } else {
            seq![]
        };
    if n == 0 {
        layout::lemma_no_pieces(piece);
    } else {
        law_users_unfold_in_order(shown, indent, path, ctx, n - 1);
        let before = rows::usage_rows(shown, indent, path, ctx, n - 1);
        layout::lemma_one_more(before, piece, n - 1);
        assert(rows::other_user(shown, path, users[n - 1]) <==> used_by(shown, path, ctx, n - 1));
        assert(rows::usage_rows(shown, indent, path, ctx, n) =~= before + piece(n - 1));
    }
}

/// A definition is one row, and as long as it is neither expanded nor its users
/// are opened, nothing else. Expanded, it shows its members, and then what it
/// references; opened, what uses it.
pub proof fn law_definitions_unfold(
    found: index::ResolvedModel,
    indent: nat,
    parent: Seq<IdModel>,
    ctx: CtxModel,
)
    requires
        rows::bounded(ctx),
    ensures
        ({
            let path = parent.push(found.def.item.id);
            let all = rows::definition_rows(found, indent, parent, ctx);
            let members = rows::member_rows(
                found.def,
                indent,
                path,
                ctx,
                found.def.members.len() as int,
            );
            &&& all.len() > 0
            &&& all[0] == rows::definition_row(found, indent, path, ctx)
            &&& all.skip(1) == members + rows::unfolded_rows(found.def, indent, path, ctx)
            &&& !ctx.expanded.contains(path) ==> members.len() == 0
            &&& !ctx.expanded.contains(path) && !ctx.usages_open.contains(path) ==> all.len() == 1
        }),
{
    let path = parent.push(found.def.item.id);
    let all = rows::definition_rows(found, indent, parent, ctx);
    let members = rows::member_rows(found.def, indent, path, ctx, found.def.members.len() as int);
    let rest = rows::unfolded_rows(found.def, indent, path, ctx);
    if !ctx.expanded.contains(path) && !ctx.usages_open.contains(path) {
        assert(rest =~= seq![]);
        assert(members =~= seq![]);
        assert(all.skip(1) =~= members + rest);
    } else {
        assert(all =~= seq![rows::definition_row(found, indent, path, ctx)] + (members + rest));
        assert(all.skip(1) =~= members + rest);
    }
}

/// An expanded definition shows its members in order, each with whatever is
/// unfolded beneath it.
pub proof fn law_members_unfold_in_order(
    def: ViewModel,
    indent: nat,
    path: Seq<IdModel>,
    ctx: CtxModel,
    n: int,
)
    requires
        rows::bounded(ctx),
        ctx.expanded.contains(path),
        0 <= n <= def.members.len(),
    ensures
        layout::in_turn(
            rows::member_rows(def, indent, path, ctx, n),
            |m: int|
                {
                    let below = path.push(def.members[m].item.id);
                    seq![rows::member_row(def.members[m], indent, below, ctx)]
                        + rows::unfolded_rows(
                        def.members[m],
                        rows::deeper(indent, 2),
                        below,
                        ctx,
                    )
                },
            n,
        ),
    decreases n,
{
    let piece = |m: int|
        {
            let below = path.push(def.members[m].item.id);
            seq![rows::member_row(def.members[m], indent, below, ctx)] + rows::unfolded_rows(
                def.members[m],
                rows::deeper(indent, 2),
                below,
                ctx,
            )
        };
    if n == 0 {
        layout::lemma_no_pieces(piece);
    } else {
        law_members_unfold_in_order(def, indent, path, ctx, n - 1);
        let before = rows::member_rows(def, indent, path, ctx, n - 1);
        layout::lemma_one_more(before, piece, n - 1);
        assert(rows::member_rows(def, indent, path, ctx, n) =~= before + piece(n - 1));
    }
}

/// Whether a stop leads to where an item stands, and is known by its path.
pub open spec fn leads_to(
    stop: rows::StopModel,
    shown: ViewModel,
    path: Seq<IdModel>,
) -> bool {
    &&& !stop.header
    &&& stop.path == Some(path)
    &&& stop.jump == Some(JumpModel { path: shown.item.id.path, line: shown.item.line })
}

/// `  · path:line`.
pub open spec fn place(shown: ViewModel) -> Seq<char> {
    "  · "@ + shown.item.id.path + seq![':'] + text::decimal(shown.item.line.0 as nat)
}

/// Whether a line is a text and, dimmed, another.
pub open spec fn reads_both(line: LineModel, what: Seq<char>, at: Seq<char>) -> bool {
    &&& line.spans.len() == 2
    &&& line.spans[0] == (SpanModel { content: what, style: style::plain() })
    &&& line.spans[1].content == at
    &&& only_dim(line.spans[1].style)
}

/// What is unfolded beneath a row is told apart by a mark and a color: a
/// definition by `▸` in cyan, with where it stands and how many contest its name
/// if several do; its members plainly in dim cyan; a user by `◂` in magenta, with
/// where it stands; a cycle by `↺` in dim cyan, with the name that closes it. All but
/// the last lead to where the item stands.
pub proof fn law_unfolded_rows_are_told_apart(
    found: index::ResolvedModel,
    shown: ViewModel,
    name: Seq<char>,
    indent: nat,
    path: Seq<IdModel>,
    ctx: CtxModel,
)
    ensures
        ({
            let pad = text::spaces(indent);
            let def = rows::definition_row(found, indent, path, ctx);
            let member = rows::member_row(shown, indent, path, ctx);
            let user = rows::usage_row(shown, indent, path, ctx);
            let cycle = rows::cycle_row(name, indent);
            &&& found.candidates <= 1 ==> reads_both(
                def.line,
                pad + "▸ "@ + found.def.item.signature,
                place(found.def),
            )
            &&& found.candidates > 1 ==> reads_both(
                def.line,
                pad + "▸ "@ + found.def.item.signature,
                place(found.def) + " (1 of "@ + text::decimal(found.candidates) + " definitions)"@,
            )
            &&& only_color(def.line.style, Color::Cyan)
            &&& def.stop matches Some(stop) && leads_to(stop, found.def, path)
                && (stop.expandable <==> found.def.members.len() > 0 || exists|r: int| #[trigger]
                unfolds(found.def, path, ctx, r)) && (stop.referenced <==> exists|u: int| #[trigger]
                used_by(found.def, path, ctx, u))
            &&& reads(member.line, pad + "  "@ + shown.item.signature)
            &&& member.line.style.fg == Some(Color::Cyan) && member.line.style.dim
            &&& member.stop matches Some(stop) && leads_to(stop, shown, path)
            &&& reads_both(user.line, pad + "◂ "@ + shown.item.signature, place(shown))
            &&& only_color(user.line.style, Color::Magenta)
            &&& user.stop matches Some(stop) && leads_to(stop, shown, path)
            &&& reads(cycle.line, pad + "↺ "@ + name + " (cycle)"@)
            &&& cycle.line.style.fg == Some(Color::Cyan) && cycle.line.style.dim
            &&& cycle.stop is None
        }),
{
    reveal_strlit(":");
    assert(":"@ =~= seq![':']);
    law_items_are_colored_by_status(found.def, indent, path, ctx);
}

/// What is unfolded is marked expandable and referenced like any row.
pub proof fn law_unfolded_rows_are_marked(
    shown: ViewModel,
    indent: nat,
    path: Seq<IdModel>,
    ctx: CtxModel,
)
    ensures
        ({
            let own = rows::own_rows(shown, indent, path, ctx)[0];
            let member = rows::member_row(shown, indent, path, ctx);
            let user = rows::usage_row(shown, indent, path, ctx);
            &&& own.stop is Some && member.stop is Some && user.stop is Some
            &&& (member.stop->0).expandable == (own.stop->0).expandable
            &&& (member.stop->0).referenced == (own.stop->0).referenced
            &&& (user.stop->0).expandable == (own.stop->0).expandable
            &&& (user.stop->0).referenced == (own.stop->0).referenced
        }),
{
}

/// The rows of a block's members come in order, six columns in, each with
/// whatever is unfolded beneath it.
pub proof fn law_pane_members_follow_each_other(members: Seq<ViewModel>, ctx: CtxModel, n: int)
    requires
        0 <= n <= members.len(),
    ensures
        layout::in_turn(
            view::block_member_rows(members, ctx, n),
            |m: int| rows::item_rows(members[m], 6, seq![], ctx),
            n,
        ),
    decreases n,
{
    let piece = |m: int| rows::item_rows(members[m], 6, seq![], ctx);
    if n == 0 {
        layout::lemma_no_pieces(piece);
    } else {
        law_pane_members_follow_each_other(members, ctx, n - 1);
        layout::lemma_one_more(view::block_member_rows(members, ctx, n - 1), piece, n - 1);
    }
}

/// A blank row if a block has members or the block before it has.
pub open spec fn gap(blocks: Seq<ViewModel>, b: int) -> Seq<RowModel> {
    if render_laws::air(blocks, b).len() > 0 {
        seq![view::blank_row()]
    } else {
        seq![]
    }
}

/// The rows of a file's blocks come in order, each set off where members are, two
/// columns in, with whatever is unfolded beneath it and then all of its members.
pub proof fn law_pane_blocks_follow_each_other(blocks: Seq<ViewModel>, ctx: CtxModel, n: int)
    requires
        0 <= n <= blocks.len(),
    ensures
        layout::in_turn(
            view::block_rows(blocks, ctx, n),
            |b: int|
                gap(blocks, b) + rows::item_rows(blocks[b], 2, seq![], ctx)
                    + view::block_member_rows(
                    blocks[b].members,
                    ctx,
                    blocks[b].members.len() as int,
                ),
            n,
        ),
    decreases n,
{
    let piece = |b: int|
        gap(blocks, b) + rows::item_rows(blocks[b], 2, seq![], ctx) + view::block_member_rows(
            blocks[b].members,
            ctx,
            blocks[b].members.len() as int,
        );
    if n == 0 {
        layout::lemma_no_pieces(piece);
    } else {
        law_pane_blocks_follow_each_other(blocks, ctx, n - 1);
        let before = view::block_rows(blocks, ctx, n - 1);
        layout::lemma_one_more(before, piece, n - 1);
        assert(view::block_rows(blocks, ctx, n) =~= before + piece(n - 1));
    }
}

/// A file's first row is bold, is a header without an identity, and neither
/// unfolds. A deleted file's is red, leads nowhere, and is all there is; a changed
/// file's leads to the first line of the file, and all of its blocks follow.
pub proof fn law_pane_files_are_headed(file: FileModel, ctx: CtxModel)
    ensures
        ({
            let all = view::file_rows(file, ctx);
            &&& all.len() > 0
            &&& all[0].line.style.bold
            &&& all[0].stop matches Some(stop) && stop.header && stop.path is None
                && !stop.expandable && !stop.referenced
            &&& match file.kind {
                FileKindModel::Deleted => all.len() == 1 && reads(
                    all[0].line,
                    "DELETED "@ + file.path,
                ) && all[0].line.style.fg == Some(Color::Red) && (all[0].stop->0).jump is None,
                FileKindModel::Changed(blocks) => reads(all[0].line, file.path)
                    && all[0].line.style.fg is None && (all[0].stop->0).jump == Some(
                    JumpModel { path: file.path, line: Line(1) },
                ) && all.skip(1) == view::block_rows(blocks, ctx, blocks.len() as int),
            }
        }),
{
    if let FileKindModel::Changed(blocks) = file.kind {
        let all = view::file_rows(file, ctx);
        assert(all.skip(1) =~= view::block_rows(blocks, ctx, blocks.len() as int));
    }
}

/// The files of a review come in order, a blank row between each two; a review
/// without files is one dimmed line that says so.
pub proof fn law_pane_files_follow_each_other(review: Seq<FileModel>, ctx: CtxModel)
    ensures
        review.len() > 0 ==> layout::in_turn(
            view::review_rows(review, ctx),
            |f: int|
                (if f > 0 {
                    seq![view::blank_row()]
                } else {
                    seq![]
                }) + view::file_rows(review[f], ctx),
            review.len() as int,
        ),
        review.len() == 0 ==> view::review_rows(review, ctx).len() == 1 && reads(
            view::review_rows(review, ctx)[0].line,
            "No structural changes — the API surface is untouched."@,
        ) && only_dim(view::review_rows(review, ctx)[0].line.style) && view::review_rows(
            review,
            ctx,
        )[0].stop is None,
        view::blank_row().stop is None,
        view::blank_row().line.spans.len() == 0,
{
    if review.len() > 0 {
        lemma_files(review, ctx, review.len() as int);
    }
}

/// The first `n` files follow each other.
proof fn lemma_files(review: Seq<FileModel>, ctx: CtxModel, n: int)
    requires
        0 <= n <= review.len(),
    ensures
        layout::in_turn(
            view::files_rows(review, ctx, n),
            |f: int|
                (if f > 0 {
                    seq![view::blank_row()]
                } else {
                    seq![]
                }) + view::file_rows(review[f], ctx),
            n,
        ),
    decreases n,
{
    let piece = |f: int|
        (if f > 0 {
            seq![view::blank_row()]
        } else {
            seq![]
        }) + view::file_rows(review[f], ctx);
    if n == 0 {
        layout::lemma_no_pieces(piece);
    } else {
        lemma_files(review, ctx, n - 1);
        let before = view::files_rows(review, ctx, n - 1);
        layout::lemma_one_more(before, piece, n - 1);
        assert(view::files_rows(review, ctx, n) =~= before + piece(n - 1));
    }
}

/// The pane shows a line per row, and the cursor lands on those rows that are
/// stops, in order: each stop is the number of its row's line, and says what the
/// row's stop says. The headers are the stops of the rows that head a file.
pub proof fn law_stops_are_the_rows_to_land_on(all: Seq<RowModel>, n: int)
    requires
        0 <= n <= all.len(),
        all.len() <= u16::MAX,
    ensures
        ({
            let shown = view::rendered(all.take(n));
            &&& shown.lines.len() == n
            &&& forall|i: int| 0 <= i < n ==> #[trigger] shown.lines[i] == all[i].line
            &&& layout::in_turn(
                shown.stops,
                |i: int|
                    if all[i].stop is Some {
                        seq![i as u16]
                    } else {
                        seq![]
                    },
                n,
            )
            &&& layout::in_turn(
                shown.jumps,
                |i: int|
                    match all[i].stop {
                        Some(stop) => seq![stop.jump],
                        None => seq![],
                    },
                n,
            )
            &&& layout::in_turn(
                shown.paths,
                |i: int|
                    match all[i].stop {
                        Some(stop) => seq![stop.path],
                        None => seq![],
                    },
                n,
            )
            &&& layout::in_turn(
                shown.expandable,
                |i: int|
                    match all[i].stop {
                        Some(stop) => seq![stop.expandable],
                        None => seq![],
                    },
                n,
            )
            &&& layout::in_turn(
                shown.referenced,
                |i: int|
                    match all[i].stop {
                        Some(stop) => seq![stop.referenced],
                        None => seq![],
                    },
                n,
            )
            &&& layout::in_turn(
                shown.headers,
                |i: int|
                    if all[i].stop is Some && all[i].stop->0.header {
                        seq![view::rendered(all.take(i)).stops.len() as usize]
                    } else {
                        seq![]
                    },
                n,
            )
        }),
    decreases n,
{
    let headers = |i: int|
        if all[i].stop is Some && all[i].stop->0.header {
            seq![view::rendered(all.take(i)).stops.len() as usize]
        } else {
            seq![]
        };
    let stops = |i: int|
        if all[i].stop is Some {
            seq![i as u16]
        } else {
            seq![]
        };
    let jumps = |i: int|
        match all[i].stop {
            Some(stop) => seq![stop.jump],
            None => seq![],
        };
    let paths = |i: int|
        match all[i].stop {
            Some(stop) => seq![stop.path],
            None => seq![],
        };
    let expandable = |i: int|
        match all[i].stop {
            Some(stop) => seq![stop.expandable],
            None => seq![],
        };
    let referenced = |i: int|
        match all[i].stop {
            Some(stop) => seq![stop.referenced],
            None => seq![],
        };
    if n == 0 {
        layout::lemma_no_pieces(stops);
        layout::lemma_no_pieces(jumps);
        layout::lemma_no_pieces(paths);
        layout::lemma_no_pieces(expandable);
        layout::lemma_no_pieces(referenced);
        layout::lemma_no_pieces(headers);
    } else {
        law_stops_are_the_rows_to_land_on(all, n - 1);
        assert(all.take(n).drop_last() =~= all.take(n - 1));
        assert(all.take(n).last() == all[n - 1]);
        let before = view::rendered(all.take(n - 1));
        let now = view::rendered(all.take(n));
        layout::lemma_one_more(before.stops, stops, n - 1);
        layout::lemma_one_more(before.jumps, jumps, n - 1);
        layout::lemma_one_more(before.paths, paths, n - 1);
        layout::lemma_one_more(before.expandable, expandable, n - 1);
        layout::lemma_one_more(before.referenced, referenced, n - 1);
        assert(now.stops =~= before.stops + stops(n - 1));
        assert(now.jumps =~= before.jumps + jumps(n - 1));
        assert(now.paths =~= before.paths + paths(n - 1));
        assert(now.expandable =~= before.expandable + expandable(n - 1));
        assert(now.referenced =~= before.referenced + referenced(n - 1));
        layout::lemma_one_more(before.headers, headers, n - 1);
        assert(now.headers =~= before.headers + headers(n - 1));
        assert forall|i: int| 0 <= i < n implies #[trigger] now.lines[i] == all[i].line by {
            if i < n - 1 {
                assert(now.lines[i] == before.lines[i]);
            }
        }
    }
}

/// Lines are numbered as they come, up to the last number there is.
pub proof fn law_lines_are_numbered(n: nat)
    ensures
        n <= u16::MAX ==> view::line_number(n) == n,
        n > u16::MAX ==> view::line_number(n) == u16::MAX,
{
}

/// The text of a line is that of its spans, one after the other.
pub proof fn law_lines_read_as_their_spans(spans: Seq<SpanModel>, n: int)
    requires
        0 <= n <= spans.len(),
    ensures
        layout::in_turn(style::spans_text(spans.take(n)), |p: int| spans[p].content, n),
    decreases n,
{
    let piece = |p: int| spans[p].content;
    if n == 0 {
        layout::lemma_no_pieces(piece);
        assert(style::spans_text(spans.take(0)) =~= seq![]);
    } else {
        law_lines_read_as_their_spans(spans, n - 1);
        assert(spans.take(n).drop_last() =~= spans.take(n - 1));
        assert(spans.take(n).last() == spans[n - 1]);
        layout::lemma_one_more(style::spans_text(spans.take(n - 1)), piece, n - 1);
    }
}

} // verus!
