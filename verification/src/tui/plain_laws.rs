//! The pane and the plain frontend agree: with nothing unfolded, the lines of
//! the pane are those of the plain text.

use vstd::prelude::*;

use crate::changes::{self, StatusModel, ViewModel};
use crate::item;
use crate::render;
use crate::text;
use crate::tui::rows::{self, CtxModel, RowModel};
use crate::tui::rows_laws;
use crate::tui::style::{self, LineModel, SpanModel};
use crate::tui::tokens;
use crate::tui::tokens_laws;
use crate::tui::view;

verus! {

/// The text of display lines, styles aside.
pub open spec fn lines_text(lines: Seq<LineModel>) -> Seq<char>
    decreases lines.len(),
{
    if lines.len() == 0 {
        seq![]
    } else {
        lines_text(lines.drop_last()) + render::line(style::spans_text(lines.last().spans))
    }
}

/// Whether nothing is unfolded.
pub open spec fn folded(ctx: CtxModel) -> bool {
    &&& forall|p: Seq<item::IdModel>| !#[trigger] ctx.expanded.contains(p)
    &&& forall|p: Seq<item::IdModel>| !#[trigger] ctx.usages_open.contains(p)
}

/// The text of rows.
spec fn rows_text(all: Seq<RowModel>) -> Seq<char>
    decreases all.len(),
{
    if all.len() == 0 {
        seq![]
    } else {
        rows_text(all.drop_last()) + render::line(style::spans_text(all.last().line.spans))
    }
}

/// What rows amount to has their text.
proof fn lemma_rendered_text(all: Seq<RowModel>)
    ensures
        lines_text(view::rendered(all).lines) == rows_text(all),
    decreases all.len(),
{
    if all.len() > 0 {
        lemma_rendered_text(all.drop_last());
        let before = view::rendered(all.drop_last()).lines;
        assert(before.push(all.last().line).drop_last() =~= before);
    }
}

/// The text of joined rows.
proof fn lemma_text_join(a: Seq<RowModel>, b: Seq<RowModel>)
    ensures
        rows_text(a + b) == rows_text(a) + rows_text(b),
    decreases b.len(),
{
    if b.len() == 0 {
        assert(a + b =~= a);
        assert(rows_text(a) + rows_text(b) =~= rows_text(a));
    } else {
        lemma_text_join(a, b.drop_last());
        assert((a + b).drop_last() =~= a + b.drop_last());
        assert((a + b).last() == b.last());
        let last = render::line(style::spans_text(b.last().line.spans));
        assert(rows_text(a) + (rows_text(b.drop_last()) + last) =~= rows_text(a) + rows_text(
            b.drop_last(),
        ) + last);
    }
}

/// The text of one row.
proof fn lemma_one_row(row: RowModel)
    ensures
        rows_text(seq![row]) == render::line(style::spans_text(row.line.spans)),
{
    let all = seq![row];
    assert(all.drop_last() =~= seq![]);
    assert(rows_text(all.drop_last()) =~= seq![]);
    assert(rows_text(all) =~= render::line(style::spans_text(row.line.spans)));
}

/// The text of a line of one span.
proof fn lemma_one_span(content: Seq<char>, how: style::Style)
    ensures
        style::spans_text(style::one_span(content, how).spans) == content,
{
    let spans = style::one_span(content, how).spans;
    assert(spans.drop_last() =~= seq![]);
    assert(style::spans_text(spans.drop_last()) =~= seq![]);
    assert(style::spans_text(spans) =~= content);
}

/// The text of one span before others.
proof fn lemma_first_span(first: SpanModel, rest: Seq<SpanModel>)
    ensures
        style::spans_text(seq![first] + rest) == first.content + style::spans_text(rest),
    decreases rest.len(),
{
    let all = seq![first] + rest;
    if rest.len() == 0 {
        assert(all.drop_last() =~= seq![]);
        assert(style::spans_text(all.drop_last()) =~= seq![]);
        assert(style::spans_text(all) =~= first.content + style::spans_text(rest));
    } else {
        lemma_first_span(first, rest.drop_last());
        assert(all.drop_last() =~= seq![first] + rest.drop_last());
        assert(style::spans_text(all) =~= first.content + style::spans_text(rest));
    }
}

/// An item's own rows spell what the plain frontend writes of it.
proof fn lemma_own_text(
    shown: ViewModel,
    indent: nat,
    path: Seq<item::IdModel>,
    ctx: CtxModel,
)
    ensures
        rows_text(rows::own_rows(shown, indent, path, ctx)) == render::row_text(shown, indent),
{
    let all = rows::own_rows(shown, indent, path, ctx);
    let pad = text::spaces(indent);
    let signature = shown.item.signature;
    match shown.status {
        StatusModel::Added => {
            lemma_one_row(all[0]);
            lemma_one_span(pad + "+ "@ + signature, all[0].line.style);
            assert(all =~= seq![all[0]]);
        },
        StatusModel::Removed => {
            lemma_one_row(all[0]);
            lemma_one_span(pad + "- "@ + signature, all[0].line.style);
            assert(all =~= seq![all[0]]);
        },
        StatusModel::Unchanged => {
            lemma_one_row(all[0]);
            lemma_one_span(pad + "  "@ + signature, all[0].line.style);
            assert(all =~= seq![all[0]]);
        },
        StatusModel::Modified { before } => {
            let was = before.signature;
            lemma_one_row(all[0]);
            lemma_one_row(all[1]);
            lemma_text_join(seq![all[0]], seq![all[1]]);
            assert(all =~= seq![all[0]] + seq![all[1]]);
            tokens_laws::law_marking_keeps_the_text(was, signature);
            lemma_first_span(
                SpanModel { content: pad + "~ "@, style: style::plain() },
                tokens::new_side(was, signature),
            );
            lemma_first_span(
                SpanModel { content: pad + "    was: "@, style: style::plain() },
                tokens::old_side(was, signature),
            );
        },
    }
}

/// A review row beneath which nothing is unfolded spells what the plain
/// frontend writes of the item.
proof fn lemma_item_text(shown: ViewModel, indent: nat, ctx: CtxModel)
    requires
        folded(ctx),
    ensures
        rows_text(rows::item_rows(shown, indent, seq![], ctx)) == render::row_text(shown, indent),
{
    let path = Seq::<item::IdModel>::empty().push(shown.item.id);
    assert(rows::limits(ctx, 0));
    rows_laws::law_closed_rows_unfold_nothing(shown, indent, path, ctx);
    let own = rows::own_rows(shown, indent, path, ctx);
    assert(own + Seq::<RowModel>::empty() =~= own);
    lemma_own_text(shown, indent, path, ctx);
}

/// The rows of a block's members spell what the plain frontend writes of them.
proof fn lemma_members_text(members: Seq<ViewModel>, ctx: CtxModel, n: int)
    requires
        folded(ctx),
    ensures
        rows_text(view::block_member_rows(members, ctx, n)) == render::members_text(members, n),
    decreases n,
{
    if n > 0 {
        lemma_members_text(members, ctx, n - 1);
        lemma_item_text(members[n - 1], 6, ctx);
        lemma_text_join(
            view::block_member_rows(members, ctx, n - 1),
            rows::item_rows(members[n - 1], 6, seq![], ctx),
        );
    }
}

/// A blank line, or none.
proof fn lemma_blank_text(apart: bool)
    ensures
        rows_text(
            if apart {
                seq![view::blank_row()]
            } else {
                seq![]
            },
        ) == (if apart {
            "\n"@
        } else {
            seq![]
        }),
{
    lemma_one_row(view::blank_row());
    assert(style::spans_text(style::blank().spans) =~= seq![]);
    assert(render::line(seq![]) =~= "\n"@);
}

/// The rows of a file's blocks spell what the plain frontend writes of them.
proof fn lemma_blocks_text(blocks: Seq<ViewModel>, ctx: CtxModel, n: int)
    requires
        folded(ctx),
    ensures
        rows_text(view::block_rows(blocks, ctx, n)) == render::blocks_text(blocks, n),
    decreases n,
{
    if n > 0 {
        let block = blocks[n - 1];
        let apart = view::composite(block) || (n >= 2 && view::composite(blocks[n - 2]));
        let before = view::block_rows(blocks, ctx, n - 1);
        let gap = if apart {
            seq![view::blank_row()]
        } else {
            seq![]
        };
        let own = rows::item_rows(block, 2, seq![], ctx);
        let m = block.members.len() as int;
        assert(apart == render::set_off(blocks, n - 1));
        lemma_blocks_text(blocks, ctx, n - 1);
        lemma_blank_text(apart);
        lemma_item_text(block, 2, ctx);
        lemma_members_text(block.members, ctx, m);
        lemma_text_join(before, gap);
        lemma_text_join(before + gap, own);
        lemma_text_join(before + gap + own, view::block_member_rows(block.members, ctx, m));
    }
}

/// The rows of a file spell what the plain frontend writes of it.
proof fn lemma_file_text(file: changes::FileModel, ctx: CtxModel)
    requires
        folded(ctx),
    ensures
        rows_text(view::file_rows(file, ctx)) == render::file_text(file),
{
    let all = view::file_rows(file, ctx);
    lemma_one_row(all[0]);
    match file.kind {
        changes::FileKindModel::Deleted => {
            lemma_one_span("DELETED "@ + file.path, all[0].line.style);
            assert(all =~= seq![all[0]]);
        },
        changes::FileKindModel::Changed(blocks) => {
            let rest = view::block_rows(blocks, ctx, blocks.len() as int);
            lemma_one_span(file.path, all[0].line.style);
            lemma_blocks_text(blocks, ctx, blocks.len() as int);
            assert(all =~= seq![all[0]] + rest);
            lemma_text_join(seq![all[0]], rest);
        },
    }
}

/// The rows of the first `n` files spell what the plain frontend writes of
/// them.
proof fn lemma_files_text(review: Seq<changes::FileModel>, ctx: CtxModel, n: int)
    requires
        folded(ctx),
    ensures
        rows_text(view::files_rows(review, ctx, n)) == render::files_text(review, n),
    decreases n,
{
    if n > 0 {
        let before = view::files_rows(review, ctx, n - 1);
        let gap = if n > 1 {
            seq![view::blank_row()]
        } else {
            seq![]
        };
        lemma_files_text(review, ctx, n - 1);
        lemma_blank_text(n > 1);
        lemma_file_text(review[n - 1], ctx);
        lemma_text_join(before, gap);
        lemma_text_join(before + gap, view::file_rows(review[n - 1], ctx));
    }
}

/// With nothing unfolded, the lines of the pane spell what the plain frontend
/// writes.
pub proof fn law_folded_panes_spell_the_plain_text(review: Seq<changes::FileModel>, ctx: CtxModel)
    requires
        folded(ctx),
    ensures
        lines_text(view::rendered(view::review_rows(review, ctx)).lines) == render::review_text(
            review,
        ),
{
    let all = view::review_rows(review, ctx);
    lemma_rendered_text(all);
    if review.len() == 0 {
        lemma_one_row(all[0]);
        lemma_one_span(
            "No structural changes — the API surface is untouched."@,
            all[0].line.style,
        );
        assert(all =~= seq![all[0]]);
    } else {
        lemma_files_text(review, ctx, review.len() as int);
    }
}

} // verus!
