//! The rows of a whole review, and the display lines, cursor stops and
//! waypoints they amount to.

use vstd::prelude::*;

use crate::changes::{self, FileChange, FileChangeKind, ItemView};
use crate::item::{self, Line};
use crate::text;
use crate::tui::rows::{
    self, JumpModel, JumpTarget, LineBuilder, RenderCtx, Row, RowModel, RowPath, Stop, StopModel,
};
use crate::tui::style::{self, Color, LineModel, Style, StyledLine};

verus! {

/// A review turned into display lines plus the indices of the lines the
/// cursor may land on.
#[derive(Debug, PartialEq, Eq)]
pub struct Rendered {
    pub lines: Vec<StyledLine>,
    pub stops: Vec<u16>,
    /// Parallel to `stops`: where each stop jumps when opened.
    pub jumps: Vec<Option<JumpTarget>>,
    /// Parallel to `stops`: whether `Tab` will do anything.
    pub expandable: Vec<bool>,
    /// Parallel to `stops`: whether `gr` will do anything.
    pub referenced: Vec<bool>,
    /// Parallel to `stops`: the row's identity, `None` for file headers.
    pub paths: Vec<Option<RowPath>>,
    /// Indices into `stops` that are file rows — the `{` / `}` waypoints.
    pub headers: Vec<usize>,
}

/// The mathematical model of a `Rendered`.
#[verifier::ext_equal]
pub struct RenderedModel {
    pub lines: Seq<LineModel>,
    pub stops: Seq<u16>,
    pub jumps: Seq<Option<JumpModel>>,
    pub expandable: Seq<bool>,
    pub referenced: Seq<bool>,
    pub paths: Seq<Option<Seq<item::IdModel>>>,
    pub headers: Seq<usize>,
}

/// The models of a sequence of optional jumps.
pub open spec fn jump_models(jumps: Seq<Option<JumpTarget>>) -> Seq<Option<JumpModel>> {
    Seq::new(jumps.len(), |i: int| rows::jump_model(jumps[i]))
}

/// The models of a sequence of optional row paths.
pub open spec fn path_models(paths: Seq<Option<RowPath>>) -> Seq<Option<Seq<item::IdModel>>> {
    Seq::new(paths.len(), |i: int| rows::path_model(paths[i]))
}

impl View for Rendered {
    type V = RenderedModel;

    open spec fn view(&self) -> RenderedModel {
        RenderedModel {
            lines: item::views(self.lines@),
            stops: self.stops@,
            jumps: jump_models(self.jumps@),
            expandable: self.expandable@,
            referenced: self.referenced@,
            paths: path_models(self.paths@),
            headers: self.headers@,
        }
    }
}

/// `n`, as far as a line number goes.
pub open spec fn line_number(n: nat) -> u16 {
    if n > u16::MAX {
        u16::MAX
    } else {
        n as u16
    }
}

/// Nothing rendered.
pub open spec fn nothing() -> RenderedModel {
    RenderedModel {
        lines: seq![],
        stops: seq![],
        jumps: seq![],
        expandable: seq![],
        referenced: seq![],
        paths: seq![],
        headers: seq![],
    }
}

/// What is rendered with one more row: its line, and its stop if it is one.
pub open spec fn with_row(before: RenderedModel, row: RowModel) -> RenderedModel {
    match row.stop {
        None => RenderedModel { lines: before.lines.push(row.line), ..before },
        Some(stop) => RenderedModel {
            lines: before.lines.push(row.line),
            stops: before.stops.push(line_number(before.lines.len())),
            jumps: before.jumps.push(stop.jump),
            expandable: before.expandable.push(stop.expandable),
            referenced: before.referenced.push(stop.referenced),
            paths: before.paths.push(stop.path),
            headers: if stop.header {
                before.headers.push(before.stops.len() as usize)
            } else {
                before.headers
            },
        },
    }
}

/// What a sequence of rows amounts to.
pub open spec fn rendered(all: Seq<RowModel>) -> RenderedModel
    decreases all.len(),
{
    if all.len() == 0 {
        nothing()
    } else {
        with_row(rendered(all.drop_last()), all.last())
    }
}

/// Whether the block has members.
pub open spec fn composite(block: changes::ViewModel) -> bool {
    block.members.len() > 0
}

/// The rows of the first `n` members of a block.
pub open spec fn block_member_rows(
    members: Seq<changes::ViewModel>,
    ctx: rows::CtxModel,
    n: int,
) -> Seq<RowModel>
    decreases n,
{
    if n <= 0 {
        seq![]
    } else {
        block_member_rows(members, ctx, n - 1) + rows::item_rows(members[n - 1], 6, seq![], ctx)
    }
}

/// A blank separator.
pub open spec fn blank_row() -> RowModel {
    RowModel { line: style::blank(), stop: None }
}

/// The rows of the first `n` blocks of a file: composites are set off by
/// blank lines, members are indented under their header.
pub open spec fn block_rows(
    blocks: Seq<changes::ViewModel>,
    ctx: rows::CtxModel,
    n: int,
) -> Seq<RowModel>
    decreases n,
{
    if n <= 0 {
        seq![]
    } else {
        let block = blocks[n - 1];
        let apart = composite(block) || (n >= 2 && composite(blocks[n - 2]));
        block_rows(blocks, ctx, n - 1) + (if apart {
            seq![blank_row()]
        } else {
            seq![]
        }) + rows::item_rows(block, 2, seq![], ctx) + block_member_rows(
            block.members,
            ctx,
            block.members.len() as int,
        )
    }
}

/// The stop of a file row.
pub open spec fn file_stop(jump: Option<JumpModel>) -> StopModel {
    StopModel { jump, expandable: false, referenced: false, path: None, header: true }
}

/// The rows of one file: its header, then its blocks.
pub open spec fn file_rows(file: changes::FileModel, ctx: rows::CtxModel) -> Seq<RowModel> {
    match file.kind {
        changes::FileKindModel::Deleted => seq![
            RowModel {
                line: style::one_span(
                    "DELETED "@ + file.path,
                    Style { bold: true, ..rows::colored(Color::Red) },
                ),
                stop: Some(file_stop(None)),
            },
        ],
        changes::FileKindModel::Changed(blocks) => seq![
            RowModel {
                line: style::one_span(file.path, Style { bold: true, ..style::plain() }),
                stop: Some(file_stop(Some(JumpModel { path: file.path, line: Line(1) }))),
            },
        ] + block_rows(blocks, ctx, blocks.len() as int),
    }
}

/// The rows of the first `n` files, separated by blank lines.
pub open spec fn files_rows(
    review: Seq<changes::FileModel>,
    ctx: rows::CtxModel,
    n: int,
) -> Seq<RowModel>
    decreases n,
{
    if n <= 0 {
        seq![]
    } else {
        files_rows(review, ctx, n - 1) + (if n > 1 {
            seq![blank_row()]
        } else {
            seq![]
        }) + file_rows(review[n - 1], ctx)
    }
}

/// The rows of a review.
pub open spec fn review_rows(
    review: Seq<changes::FileModel>,
    ctx: rows::CtxModel,
) -> Seq<RowModel> {
    if review.len() == 0 {
        seq![
            RowModel {
                line: style::one_span(
                    "No structural changes — the API surface is untouched."@,
                    rows::dimmed(),
                ),
                stop: None,
            },
        ]
    } else {
        files_rows(review, ctx, review.len() as int)
    }
}

/// A capped line number.
pub fn number_of(n: usize) -> (line: u16)
    ensures
        line == line_number(n as nat),
{
    if n > 65535 {
        65535
    } else {
        n as u16
    }
}

/// There is a mark of each kind per stop, each stop lies on a line, and each
/// header is a stop.
pub open spec fn aligned(model: RenderedModel) -> bool {
    &&& model.jumps.len() == model.stops.len()
    &&& model.expandable.len() == model.stops.len()
    &&& model.referenced.len() == model.stops.len()
    &&& model.paths.len() == model.stops.len()
    &&& model.stops.len() <= model.lines.len()
    &&& forall|s: int|
        0 <= s < model.stops.len() ==> (#[trigger] model.stops[s]) < model.lines.len()
    &&& forall|h: int|
        0 <= h < model.headers.len() ==> (#[trigger] model.headers[h]) < model.stops.len()
    &&& forall|g: int, h: int|
        0 <= g < h < model.headers.len() ==> (#[trigger] model.headers[g])
            < #[trigger] model.headers[h]
    &&& forall|s: int, t: int|
        0 <= s < t < model.stops.len() ==> (#[trigger] model.stops[s]) <= #[trigger] model.stops[t]
}

/// What rows amount to is aligned.
pub proof fn lemma_aligned(all: Seq<RowModel>)
    requires
        all.len() <= usize::MAX,
    ensures
        aligned(rendered(all)),
        rendered(all).lines.len() == all.len(),
    decreases all.len(),
{
    if all.len() > 0 {
        lemma_aligned(all.drop_last());
        let before = rendered(all.drop_last());
        let now = rendered(all);
        assert forall|s: int| 0 <= s < now.stops.len() implies (#[trigger] now.stops[s])
            < now.lines.len() by {
            if s < before.stops.len() {
                assert(now.stops[s] == before.stops[s]);
            }
        }
        assert forall|h: int| 0 <= h < now.headers.len() implies (#[trigger] now.headers[h])
            < now.stops.len() by {
            if h < before.headers.len() {
                assert(now.headers[h] == before.headers[h]);
            }
        }
        assert forall|g: int, h: int| 0 <= g < h < now.headers.len() implies (
        #[trigger] now.headers[g]) < #[trigger] now.headers[h] by {
            assert(now.headers[g] == before.headers[g]);
            if h < before.headers.len() {
                assert(now.headers[h] == before.headers[h]);
            }
        }
        assert forall|s: int, t: int| 0 <= s < t < now.stops.len() implies (#[trigger] now.stops[s])
            <= #[trigger] now.stops[t] by {
            assert(now.stops[s] == before.stops[s]);
            if t < before.stops.len() {
                assert(now.stops[t] == before.stops[t]);
            }
        }
    }
}

/// Splits rows into lines and what is known of the stops among them.
fn into_rendered(builder: LineBuilder) -> (out: Rendered)
    ensures
        out@ == rendered(builder@),
        aligned(out@),
{
    let mut rest = builder.rows;
    let total: usize = rest.len();
    let ghost all = builder@;
    let mut reversed: Vec<Row> = Vec::new();
    while rest.len() > 0
        invariant
            item::views(rest@) + item::views(reversed@).reverse() == all,
        decreases rest.len(),
    {
        let ghost had = rest@;
        let ghost back = reversed@;
        if let Some(row) = rest.pop() {
            proof {
                item::lemma_views_push(back, row);
                assert(item::views(had) =~= item::views(rest@).push(row@));
            }
            reversed.push(row);
            assert(item::views(rest@) + item::views(reversed@).reverse() =~= item::views(had)
                + item::views(back).reverse());
        }
    }
    assert(item::views(reversed@).reverse() =~= all);
    let mut out = Rendered {
        lines: Vec::new(),
        stops: Vec::new(),
        jumps: Vec::new(),
        expandable: Vec::new(),
        referenced: Vec::new(),
        paths: Vec::new(),
        headers: Vec::new(),
    };
    let ghost mut done: int = 0;
    assert(out@ =~= rendered(all.take(0)));
    while reversed.len() > 0
        invariant
            0 <= done <= all.len(),
            item::views(reversed@).reverse() == all.skip(done),
            out@ == rendered(all.take(done)),
            out.lines@.len() == done,
            out.stops@.len() <= done,
        decreases reversed.len(),
    {
        let ghost had = reversed@;
        let ghost before = out@;
        let at: usize = out.lines.len();
        let count: usize = out.stops.len();
        if let Some(row) = reversed.pop() {
            proof {
                assert(item::views(had) =~= item::views(reversed@).push(row@));
                assert(item::views(had).reverse().len() == all.len() - done);
                assert(item::views(had).reverse()[0] == row@);
                assert(all.skip(done)[0] == all[done]);
                assert(all.take(done + 1).drop_last() =~= all.take(done));
                let now = item::views(reversed@).reverse();
                assert(now.len() == all.len() - done - 1);
                assert forall|k: int| 0 <= k < now.len() implies now[k] == all.skip(done + 1)[k] by {
                    assert(now[k] == item::views(had).reverse()[k + 1]);
                    assert(all.skip(done)[k + 1] == all[done + 1 + k]);
                }
                assert(now =~= all.skip(done + 1));
                done = done + 1;
            }
            let Row { line, stop } = row;
            proof {
                item::lemma_views_push(out.lines@, line);
            }
            out.lines.push(line);
            if let Some(found) = stop {
                let Stop { jump, expandable, referenced, path, header } = found;
                let ghost jumps_before = out.jumps@;
                let ghost paths_before = out.paths@;
                out.stops.push(number_of(at));
                out.jumps.push(jump);
                out.expandable.push(expandable);
                out.referenced.push(referenced);
                out.paths.push(path);
                if header {
                    out.headers.push(count);
                }
                proof {
                    assert(jump_models(out.jumps@) =~= jump_models(jumps_before).push(
                        rows::jump_model(jump),
                    ));
                    assert(path_models(out.paths@) =~= path_models(paths_before).push(
                        rows::path_model(path),
                    ));
                }
            }
            assert(out@ =~= with_row(before, row@));
        }
    }
    proof {
        assert(all.skip(done).len() == 0);
        assert(all.take(done) =~= all);
        assert(all.len() == total);
        lemma_aligned(all);
    }
    out
}

/// Appends the rows of one file.
fn render_file(builder: &mut LineBuilder, file: &FileChange, ctx: &RenderCtx)
    ensures
        final(builder)@ == old(builder)@ + file_rows(file@, ctx@),
{
    let ghost before = builder@;
    match &file.kind {
        FileChangeKind::Deleted => {
            let line = text::join2("DELETED ", file.path.as_str());
            builder.stop(
                StyledLine::of(line, Style::plain().color(Color::Red).bold()),
                Stop {
                    jump: None,
                    expandable: false,
                    referenced: false,
                    path: None,
                    header: true,
                },
            );
            assert(builder@ =~= before + file_rows(file@, ctx@));
        },
        FileChangeKind::Changed(changeset) => {
            let target = JumpTarget { path: file.path.clone(), line: Line(1) };
            builder.stop(
                StyledLine::of(file.path.clone(), Style::plain().bold()),
                Stop {
                    jump: Some(target),
                    expandable: false,
                    referenced: false,
                    path: None,
                    header: true,
                },
            );
            let ghost headed = builder@;
            let root = RowPath::default();
            let mut after_composite = false;
            let mut b: usize = 0;
            assert(headed + block_rows(changeset@, ctx@, 0) =~= headed);
            while b < changeset.blocks.len()
                invariant
                    b <= changeset.blocks@.len(),
                    changeset@ == item::views(changeset.blocks@),
                    root@ == Seq::<item::IdModel>::empty(),
                    after_composite == (b > 0 && composite(changeset@[b - 1])),
                    builder@ == headed + block_rows(changeset@, ctx@, b as int),
                decreases changeset.blocks.len() - b,
            {
                let block = &changeset.blocks[b];
                proof {
                    changes::lemma_model(*block);
                    assert(changeset@[b as int] == block@);
                }
                let is_composite = block.members.len() > 0;
                if is_composite || after_composite {
                    builder.line(StyledLine::blank());
                }
                builder.item_row(block, 2, &root, ctx);
                render_members(builder, &block.members, &root, ctx);
                after_composite = is_composite;
                b = b + 1;
                assert(builder@ =~= headed + block_rows(changeset@, ctx@, b as int));
            }
            assert(builder@ =~= before + file_rows(file@, ctx@));
        },
    }
}

/// Appends the rows of a block's members.
fn render_members(
    builder: &mut LineBuilder,
    members: &Vec<ItemView>,
    root: &RowPath,
    ctx: &RenderCtx,
)
    requires
        root@ == Seq::<item::IdModel>::empty(),
    ensures
        final(builder)@ == old(builder)@ + block_member_rows(
            item::views(members@),
            ctx@,
            members@.len() as int,
        ),
{
    let ghost before = builder@;
    let mut m: usize = 0;
    assert(before + block_member_rows(item::views(members@), ctx@, 0) =~= before);
    while m < members.len()
        invariant
            root@ == Seq::<item::IdModel>::empty(),
            m <= members@.len(),
            builder@ == before + block_member_rows(item::views(members@), ctx@, m as int),
        decreases members.len() - m,
    {
        builder.item_row(&members[m], 6, root, ctx);
        m = m + 1;
        assert(builder@ =~= before + block_member_rows(item::views(members@), ctx@, m as int));
    }
}

/// Turns a review into the styled lines the pane scrolls over, the set of
/// cursor stops, and each stop's jump target. Layout mirrors the plain
/// frontend: members indented under their block header, composites set off as
/// paragraphs, files separated by a blank line. Every item row is a stop
/// (unchanged context included — it can still be expanded or jumped to);
/// removed rows and deleted files have nowhere to go.
pub fn render_lines(review: &Vec<FileChange>, ctx: &RenderCtx) -> (out: Rendered)
    ensures
        out@ == rendered(review_rows(item::views(review@), ctx@)),
        aligned(out@),
{
    let mut builder = LineBuilder { rows: Vec::new() };
    assert(builder@ =~= seq![]);
    if review.len() == 0 {
        let line = "No structural changes — the API surface is untouched.".to_owned();
        builder.line(StyledLine::of(line, Style::plain().dim()));
        assert(builder@ =~= review_rows(item::views(review@), ctx@));
        return into_rendered(builder);
    }
    let mut i: usize = 0;
    while i < review.len()
        invariant
            i <= review@.len(),
            builder@ == files_rows(item::views(review@), ctx@, i as int),
        decreases review.len() - i,
    {
        if i > 0 {
            builder.line(StyledLine::blank());
        }
        render_file(&mut builder, &review[i], ctx);
        i = i + 1;
        assert(builder@ =~= files_rows(item::views(review@), ctx@, i as int));
    }
    into_rendered(builder)
}

} // verus!
