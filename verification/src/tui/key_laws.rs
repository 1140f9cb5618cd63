//! What each key does, and what each frame says.

use vstd::prelude::*;

use crate::changes::{FileKindModel, FileModel, StatusModel, ViewModel};
use crate::text::{self, Separator};
use crate::tui::editor;
use crate::tui::input::{self, InputState, KeyCode, Motion};
use crate::tui::pane;
use crate::tui::rows::JumpModel;
use crate::tui::session::{self, ActionModel, Mode, SessionModel};
use crate::tui::style::{self, SpanModel, Style};
use crate::tui::summary::{self, Tally};
use crate::tui::tokens;
use crate::tui::tokens_laws;

verus! {

/// Whether a key completes a motion in a state and leaves nothing pending.
pub open spec fn does(state: InputState, code: KeyCode, ctrl: bool, motion: Motion) -> bool {
    &&& input::step(state, code, ctrl).motion == Some(motion)
    &&& input::step(state, code, ctrl).state.count is None
    &&& !input::step(state, code, ctrl).state.pending_g
    &&& !input::step(state, code, ctrl).state.pending_z
}

/// Each key does what it is known for, with the count before it if it takes one,
/// and once without.
pub proof fn law_keys_are_mapped(state: InputState, times: usize)
    requires
        !state.pending_z,
        state.count is None ==> times == 1,
        state.count matches Some(n) ==> times == n,
    ensures
        does(state, KeyCode::Char('j'), false, Motion::Down(times)),
        does(state, KeyCode::Down, false, Motion::Down(times)),
        does(state, KeyCode::Char('k'), false, Motion::Up(times)),
        does(state, KeyCode::Up, false, Motion::Up(times)),
        does(state, KeyCode::Char('{'), false, Motion::PrevFile(times)),
        does(state, KeyCode::Char('}'), false, Motion::NextFile(times)),
        does(state, KeyCode::Char('G'), false, Motion::Last(state.count)),
        does(state, KeyCode::PageDown, false, Motion::PageDown),
        does(state, KeyCode::PageUp, false, Motion::PageUp),
        does(state, KeyCode::Char('f'), true, Motion::PageDown),
        does(state, KeyCode::Char('b'), true, Motion::PageUp),
        does(state, KeyCode::Char('d'), true, Motion::HalfPageDown),
        does(state, KeyCode::Char('u'), true, Motion::HalfPageUp),
        does(state, KeyCode::Char('H'), false, Motion::CursorHigh),
        does(state, KeyCode::Char('M'), false, Motion::CursorMiddle),
        does(state, KeyCode::Char('L'), false, Motion::CursorLow),
        does(state, KeyCode::Char('n'), false, Motion::NextMatch),
        does(state, KeyCode::Char('N'), false, Motion::PrevMatch),
        does(state, KeyCode::Tab, false, Motion::Expand),
        does(state, KeyCode::Enter, false, Motion::Open),
        does(state, KeyCode::Char('q'), false, Motion::Quit),
        does(state, KeyCode::Esc, false, Motion::Quit),
        state.pending_g ==> does(state, KeyCode::Char('g'), false, Motion::First(state.count)),
        state.pending_g ==> does(state, KeyCode::Char('r'), false, Motion::Usages),
{
}

/// `g` waits for the next key, and keeps the count; so does `z`. After `z`, `t`,
/// `z` and `b` put the view, and any other key does nothing.
pub proof fn law_prefixes_wait(state: InputState, c: char)
    requires
        !state.pending_z,
        !state.pending_g,
    ensures
        ({
            let g = input::step(state, KeyCode::Char('g'), false);
            let z = input::step(state, KeyCode::Char('z'), false);
            &&& g.motion is None && g.state.pending_g && g.state.count == state.count
            &&& z.motion is None && z.state.pending_z && z.state.count == state.count
            &&& does(z.state, KeyCode::Char('t'), false, Motion::ViewTop)
            &&& does(z.state, KeyCode::Char('z'), false, Motion::ViewCenter)
            &&& does(z.state, KeyCode::Char('b'), false, Motion::ViewBottom)
            &&& c != 't' && c != 'z' && c != 'b' ==> input::step(
                z.state,
                KeyCode::Char(c),
                false,
            ).motion is None
            &&& does(g.state, KeyCode::Char('g'), false, Motion::First(state.count))
            &&& does(g.state, KeyCode::Char('r'), false, Motion::Usages)
            &&& input::step(state, KeyCode::Char('r'), false).motion is None
        }),
{
}

/// A digit goes into the count, and does nothing else; a zero only after another
/// digit.
pub proof fn law_digits_count(state: InputState, c: char)
    requires
        !state.pending_z,
        '0' <= c <= '9',
    ensures
        ({
            let after = input::step(state, KeyCode::Char(c), false);
            let before = match state.count {
                Some(n) => n as int,
                None => 0,
            };
            let grown = 10 * before + (c as int - '0' as int);
            &&& after.motion is None
            &&& (c != '0' || state.count is Some) && grown <= usize::MAX ==> (
            after.state.count matches Some(n) && n == grown) && after.state.pending_g
                == state.pending_g
            &&& (c != '0' || state.count is Some) && grown > usize::MAX ==> after.state.count
                == Some(usize::MAX)
            &&& c == '0' && state.count is None ==> after.state.count is None
        }),
{
}

/// Any other key does nothing, and ends what was pending.
pub proof fn law_other_keys_do_nothing(state: InputState, c: char)
    requires
        !state.pending_z,
        !state.pending_g,
        !('0' <= c <= '9'),
        c != 'j' && c != 'k' && c != '{' && c != '}' && c != 'G' && c != 'H' && c != 'M' && c != 'L',
        c != 'n' && c != 'N' && c != 'q' && c != 'g' && c != 'z',
    ensures
        input::step(state, KeyCode::Char(c), false).motion is None,
        input::step(state, KeyCode::Char(c), false).state.count is None,
        input::step(state, KeyCode::Other, false).motion is None,
        input::step(state, KeyCode::Backspace, false).motion is None,
        c != 'd' && c != 'u' && c != 'f' && c != 'b' ==> input::step(
            state,
            KeyCode::Char(c),
            true,
        ).motion is None,
{
}

/// `/` starts a query. What is typed then goes into it, the last character is
/// taken back by backspace; `Enter` searches for it and leaves the query, `Esc`
/// leaves it and forgets it.
pub proof fn law_queries_are_typed(now: SessionModel, c: char)
    requires
        now.mode == Mode::Search,
    ensures
        ({
            let typed = session::pressed(now, KeyCode::Char(c), false);
            let erased = session::pressed(now, KeyCode::Backspace, false);
            let searched = session::pressed(now, KeyCode::Enter, false);
            let left = session::pressed(now, KeyCode::Esc, false);
            &&& typed.0.query == now.query.push(c) && typed.0.mode == Mode::Search && typed.0.app
                == now.app
            &&& erased.0.query == (if now.query.len() > 0 {
                now.query.take(now.query.len() - 1)
            } else {
                now.query
            }) && erased.0.mode == Mode::Search && erased.0.app == now.app
            &&& searched.0.app == pane::searched(now.app, now.query) && searched.0.mode
                == Mode::Normal && searched.0.query == now.query
            &&& left.0.query.len() == 0 && left.0.mode == Mode::Normal && left.0.app == now.app
            &&& session::pressed(now, KeyCode::Tab, false).0 == now
            &&& session::pressed(now, KeyCode::Up, false).0 == now
            &&& session::pressed(now, KeyCode::Down, false).0 == now
            &&& session::pressed(now, KeyCode::PageUp, false).0 == now
            &&& session::pressed(now, KeyCode::PageDown, false).0 == now
            &&& session::pressed(now, KeyCode::Other, false).0 == now
            &&& typed.1 == ActionModel::Continue && erased.1 == ActionModel::Continue
            &&& searched.1 == ActionModel::Continue && left.1 == ActionModel::Continue
        }),
{
    if now.query.len() > 0 {
        assert(now.query.drop_last() =~= now.query.take(now.query.len() - 1));
    }
}

/// `/` starts an empty query and moves nothing.
pub proof fn law_slash_starts_a_query(now: SessionModel)
    requires
        now.mode == Mode::Normal,
    ensures
        ({
            let next = session::pressed(now, KeyCode::Char('/'), false);
            &&& next.0.mode == Mode::Search
            &&& next.0.query.len() == 0
            &&& next.0.app == now.app
            &&& next.0.input == now.input
            &&& next.1 == ActionModel::Continue
        }),
{
}

/// Outside a query a key that completes a motion performs it, and one that does
/// not moves nothing. `Tab` and `gr` unfold, or say that there is nothing to;
/// `Enter` opens where the cursor's row leads, or says that it leads nowhere; any
/// other motion moves the cursor and the view.
pub proof fn law_keys_perform_their_motion(now: SessionModel, code: KeyCode, ctrl: bool)
    requires
        now.mode == Mode::Normal,
        ctrl || code != KeyCode::Char('/'),
    ensures
        ({
            let step = input::step(now.input, code, ctrl);
            let next = session::pressed(now, code, ctrl);
            &&& next.0.input == step.state
            &&& next.0.mode == Mode::Normal
            &&& next.0.query == now.query
            &&& match step.motion {
                None => next.0.app == now.app && next.0.notice == now.notice && next.1
                    == ActionModel::Continue,
                Some(Motion::Quit) => next.1 == ActionModel::Quit && next.0.app == now.app
                    && next.0.notice == now.notice,
                Some(Motion::Open) => next.0.app == now.app && match pane::jump_of_cursor(now.app) {
                    Some(target) => next.1 == ActionModel::Open(target) && next.0.notice
                        == now.notice,
                    None => next.1 == ActionModel::Continue && next.0.notice == Some(
                        " nothing to open here (removed items have no location) "@,
                    ),
                },
                Some(Motion::Expand) => next.1 == ActionModel::Continue && next.0.app
                    == pane::expand_toggled(now.app) && (pane::can_toggle_expand(now.app)
                    ==> next.0.notice is None) && (!pane::can_toggle_expand(now.app)
                    ==> next.0.notice == Some(" nothing to expand here "@)),
                Some(Motion::Usages) => next.1 == ActionModel::Continue && next.0.app
                    == pane::usages_toggled(now.app) && (pane::can_toggle_usages(now.app)
                    ==> next.0.notice is None) && (!pane::can_toggle_usages(now.app)
                    ==> next.0.notice == Some(" nothing references this item "@)),
                Some(motion) => next.1 == ActionModel::Continue && next.0.app == pane::applied(
                    now.app,
                    motion,
                ) && next.0.notice == now.notice,
            }
        }),
{
}

/// The footer is the query while one is typed, a notice if there is one, and the
/// help otherwise.
pub proof fn law_footers_say_the_query_first(now: SessionModel)
    ensures
        now.mode == Mode::Search ==> session::footer_text(now) == seq![' ', '/'] + now.query
            + seq![' '],
        now.mode == Mode::Search ==> session::notice_shown(now) == now,
        now.mode == Mode::Normal && now.notice is Some ==> session::footer_text(now)
            == now.notice->0,
        now.mode == Mode::Normal && now.notice is None ==> session::footer_text(now)
            == " j/k move · {/} files · / search · n/N matches · ⇥ expand · gr references · ↵ edit · q quit "@,
        now.mode == Mode::Normal ==> session::notice_shown(now).notice is None
            && session::notice_shown(now).app == now.app && session::notice_shown(now).input
            == now.input && session::notice_shown(now).mode == now.mode && session::notice_shown(
            now,
        ).query == now.query,
{
    reveal_strlit(" /");
    reveal_strlit(" ");
    assert(" /"@ =~= seq![' ', '/']);
    assert(" "@ =~= seq![' ']);
}

/// The row under the cursor is reversed and the rows that match are underlined;
/// no other is, and nothing else about any row changes.
pub proof fn law_rows_are_highlighted(app: pane::AppModel, i: int)
    requires
        0 <= i < app.shown.lines.len(),
    ensures
        ({
            let line = session::highlighted(app)[i];
            let was = app.shown.lines[i];
            let matched = exists|m: int|
                0 <= m < app.matches.len() && (#[trigger] app.matches[m]) < app.shown.stops.len()
                    && app.shown.stops[app.matches[m] as int] == i;
            let here = 0 <= app.cursor < app.shown.stops.len() && app.shown.stops[app.cursor] == i;
            &&& session::highlighted(app).len() == app.shown.lines.len()
            &&& line.spans == was.spans
            &&& line.style.fg == was.style.fg && line.style.bold == was.style.bold && line.style.dim
                == was.style.dim && line.style.crossed_out == was.style.crossed_out
            &&& line.style.underlined <==> was.style.underlined || matched
            &&& 0 <= app.cursor < app.shown.stops.len() ==> (line.style.reversed
                <==> was.style.reversed || here)
            &&& app.shown.stops.len() == 0 ==> line.style.reversed == was.style.reversed
        }),
{
}

/// The position is the number of the cursor's stop, counted from one, of how many
/// there are; without stops there is none.
pub proof fn law_positions_count_from_one(app: pane::AppModel)
    ensures
        app.shown.stops.len() == 0 ==> session::position_text(app).len() == 0,
        0 <= app.cursor < u64::MAX && app.shown.stops.len() > 0 ==> session::position_text(app)
            == seq![' '] + text::decimal((app.cursor + 1) as nat) + seq!['/'] + text::decimal(
            app.shown.stops.len(),
        ) + seq![' '],
{
    reveal_strlit(" ");
    reveal_strlit("/");
    assert(" "@ =~= seq![' ']);
    assert("/"@ =~= seq!['/']);
}

/// What a frame shows is as high as the screen has room, with the cursor in view.
pub proof fn law_frames_fit_the_screen(app: pane::AppModel, height: int)
    ensures
        session::resized(app, height).height == height,
        session::resized(app, height).cursor == app.cursor,
        session::resized(app, height) == pane::followed(pane::AppModel { height, ..app }),
{
}

/// The statuses of all rows of a block, its own first.
pub open spec fn block_statuses(block: ViewModel) -> Seq<StatusModel> {
    seq![block.status] + Seq::new(block.members.len(), |m: int| block.members[m].status)
}

/// How many statuses a test holds of.
pub open spec fn how_many(
    statuses: Seq<StatusModel>,
    test: spec_fn(StatusModel) -> bool,
) -> nat
    decreases statuses.len(),
{
    if statuses.len() == 0 {
        0
    } else {
        how_many(statuses.drop_last(), test) + (if test(statuses.last()) {
            1nat
        } else {
            0nat
        })
    }
}

/// Which statuses a tally counts.
pub open spec fn counted(tally: Tally) -> spec_fn(StatusModel) -> bool {
    match tally {
        Tally::Added => |status: StatusModel| status is Added,
        Tally::Modified => |status: StatusModel| status is Modified,
        Tally::Removed => |status: StatusModel| status is Removed,
    }
}

/// The statuses of all rows of the first `n` blocks.
pub open spec fn blocks_statuses(blocks: Seq<ViewModel>, n: int) -> Seq<StatusModel>
    decreases n,
{
    if n <= 0 {
        seq![]
    } else {
        blocks_statuses(blocks, n - 1) + block_statuses(blocks[n - 1])
    }
}

/// The statuses of all rows of the first `n` files; a deleted file has none.
pub open spec fn all_statuses(review: Seq<FileModel>, n: int) -> Seq<StatusModel>
    decreases n,
{
    if n <= 0 {
        seq![]
    } else {
        all_statuses(review, n - 1) + (match review[n - 1].kind {
            FileKindModel::Deleted => seq![],
            FileKindModel::Changed(blocks) => blocks_statuses(blocks, blocks.len() as int),
        })
    }
}

/// The summary says how many files there are, and how many rows of all files,
/// blocks and members alike, were added, modified and removed.
pub proof fn law_summaries_count_every_row(review: Seq<FileModel>)
    requires
        all_statuses(review, review.len() as int).len() <= u64::MAX,
    ensures
        ({
            let rows = all_statuses(review, review.len() as int);
            summary::summary(review) == text::decimal(review.len()) + (if review.len() == 1 {
                " file"@
            } else {
                " files"@
            }) + " · +"@ + text::decimal(how_many(rows, counted(Tally::Added))) + seq![' ', '~']
                + text::decimal(how_many(rows, counted(Tally::Modified))) + seq![' ', '-']
                + text::decimal(how_many(rows, counted(Tally::Removed)))
        }),
{
    let n = review.len() as int;
    let rows = all_statuses(review, n);
    reveal_strlit(" ~");
    reveal_strlit(" -");
    assert(" ~"@ =~= seq![' ', '~']);
    assert(" -"@ =~= seq![' ', '-']);
    lemma_files_count(review, Tally::Added, n);
    lemma_files_count(review, Tally::Modified, n);
    lemma_files_count(review, Tally::Removed, n);
    lemma_at_most(rows, counted(Tally::Added));
    lemma_at_most(rows, counted(Tally::Modified));
    lemma_at_most(rows, counted(Tally::Removed));
}

/// No more are counted than there are.
proof fn lemma_at_most(statuses: Seq<StatusModel>, test: spec_fn(StatusModel) -> bool)
    ensures
        how_many(statuses, test) <= statuses.len(),
    decreases statuses.len(),
{
    if statuses.len() > 0 {
        lemma_at_most(statuses.drop_last(), test);
    }
}

/// What is counted of two parts adds up.
proof fn lemma_count_join(
    a: Seq<StatusModel>,
    b: Seq<StatusModel>,
    test: spec_fn(StatusModel) -> bool,
)
    ensures
        how_many(a + b, test) == how_many(a, test) + how_many(b, test),
    decreases b.len(),
{
    if b.len() == 0 {
        assert(a + b =~= a);
    } else {
        lemma_count_join(a, b.drop_last(), test);
        assert((a + b).drop_last() =~= a + b.drop_last());
    }
}

/// The first `n` members counted.
proof fn lemma_members_count(members: Seq<ViewModel>, tally: Tally, n: int)
    requires
        0 <= n <= members.len(),
    ensures
        summary::members_count(members, tally, n) == how_many(
            Seq::new(n as nat, |m: int| members[m].status),
            counted(tally),
        ),
    decreases n,
{
    let statuses = Seq::new(n as nat, |m: int| members[m].status);
    if n > 0 {
        lemma_members_count(members, tally, n - 1);
        assert(statuses.drop_last() =~= Seq::new((n - 1) as nat, |m: int| members[m].status));
    }
}

/// The rows of the first `n` blocks counted.
proof fn lemma_blocks_count(blocks: Seq<ViewModel>, tally: Tally, n: int)
    requires
        0 <= n <= blocks.len(),
    ensures
        summary::blocks_count(blocks, tally, n) == how_many(
            blocks_statuses(blocks, n),
            counted(tally),
        ),
    decreases n,
{
    if n > 0 {
        let block = blocks[n - 1];
        let own = seq![block.status];
        let members = Seq::new(block.members.len(), |m: int| block.members[m].status);
        lemma_blocks_count(blocks, tally, n - 1);
        lemma_members_count(block.members, tally, block.members.len() as int);
        lemma_count_join(blocks_statuses(blocks, n - 1), block_statuses(block), counted(tally));
        lemma_count_join(own, members, counted(tally));
        assert(own.drop_last() =~= seq![]);
        assert(how_many(own.drop_last(), counted(tally)) == 0);
    }
}

/// The rows of the first `n` files counted.
proof fn lemma_files_count(review: Seq<FileModel>, tally: Tally, n: int)
    requires
        0 <= n <= review.len(),
    ensures
        summary::files_count(review, tally, n) == how_many(
            all_statuses(review, n),
            counted(tally),
        ),
    decreases n,
{
    if n > 0 {
        lemma_files_count(review, tally, n - 1);
        let before = all_statuses(review, n - 1);
        match review[n - 1].kind {
            FileKindModel::Deleted => {
                lemma_count_join(before, seq![], counted(tally));
            },
            FileKindModel::Changed(blocks) => {
                let m = blocks.len() as int;
                lemma_blocks_count(blocks, tally, m);
                lemma_count_join(before, blocks_statuses(blocks, m), counted(tally));
            },
        }
    }
}

/// The editor is what `$VISUAL` says, or else what `$EDITOR` says, split into
/// words; a setting without words is as good as none.
pub proof fn law_visual_is_preferred(visual: Option<&str>, editor: Option<&str>)
    ensures
        visual is None ==> editor::editor_words(visual, editor) == editor::setting_words(editor),
        visual matches Some(command) ==> {
            let words = text::runs(command@, Separator::Whitespace);
            &&& words.len() > 0 ==> editor::editor_words(visual, editor) == words
            &&& words.len() == 0 ==> editor::editor_words(visual, editor)
                == editor::setting_words(editor)
        },
        editor matches Some(command) ==> editor::setting_words(editor) == text::runs(
            command@,
            Separator::Whitespace,
        ),
        editor is None ==> editor::setting_words(editor).len() == 0,
{
}

/// The editor is told the line, after a plus, and then the file.
pub proof fn law_editors_are_told_the_line_and_the_file(target: JumpModel)
    ensures
        editor::location_words(target).len() == 2,
        editor::location_words(target)[0] == seq!['+'] + text::decimal(target.line.0 as nat),
        editor::location_words(target)[1] == target.path,
{
    reveal_strlit("+");
    assert("+"@ =~= seq!['+']);
}

/// The two sides of a modified signature are marked with what is not common to
/// both: crossed out on the old side, bold and underlined on the new one; what is
/// common is plain.
pub proof fn law_sides_are_marked_apart(before: Seq<char>, after: Seq<char>)
    ensures
        forall|p: int|
            0 <= p < tokens::old_side(before, after).len() ==> marked_as(
                (#[trigger] tokens::old_side(before, after)[p]).style,
                true,
            ),
        forall|p: int|
            0 <= p < tokens::new_side(before, after).len() ==> marked_as(
                (#[trigger] tokens::new_side(before, after)[p]).style,
                false,
            ),
{
    let a = tokens::tokens(before);
    let b = tokens::tokens(after);
    let marks = tokens::kept(a, b, 0, 0);
    tokens_laws::law_unmarked_tokens_are_a_longest_common_subsequence(a, b, seq![]);
    lemma_merged(a, marks.0, Style { crossed_out: true, ..style::plain() }, a.len() as int);
    lemma_merged(
        b,
        marks.1,
        Style { bold: true, underlined: true, ..style::plain() },
        b.len() as int,
    );
}

/// Whether a style is plain, or the mark of the old or of the new side.
pub open spec fn marked_as(how: Style, old_side: bool) -> bool {
    &&& how.fg is None && !how.dim && !how.reversed
    &&& old_side ==> !how.bold && !how.underlined
    &&& !old_side ==> !how.crossed_out && how.bold == how.underlined
}

/// The spans of the first `n` tokens are plain or marked.
proof fn lemma_merged(parts: Seq<Seq<char>>, common: Seq<bool>, marker: Style, n: int)
    ensures
        forall|p: int|
            0 <= p < tokens::close(tokens::merged(parts, common, marker, n), marker).len() ==> ((
            #[trigger] tokens::close(tokens::merged(parts, common, marker, n), marker)[p]).style
                == style::plain() || tokens::close(
                tokens::merged(parts, common, marker, n),
                marker,
            )[p].style == marker),
        forall|p: int|
            0 <= p < tokens::merged(parts, common, marker, n).closed.len() ==> ((
            #[trigger] tokens::merged(parts, common, marker, n).closed[p]).style == style::plain()
                || tokens::merged(parts, common, marker, n).closed[p].style == marker),
    decreases n,
{
    if n > 0 {
        lemma_merged(parts, common, marker, n - 1);
    }
}

/// The text of the plain spans of a line.
pub open spec fn plain_text(spans: Seq<SpanModel>) -> Seq<char>
    decreases spans.len(),
{
    if spans.len() == 0 {
        seq![]
    } else {
        plain_text(spans.drop_last()) + (if spans.last().style == style::plain() {
            spans.last().content
        } else {
            seq![]
        })
    }
}

/// What is plain on one side of a modified signature is what is plain on the
/// other: the longest part that both have in common.
pub proof fn law_plain_parts_are_common(before: Seq<char>, after: Seq<char>)
    ensures
        plain_text(tokens::old_side(before, after)) == plain_text(tokens::new_side(before, after)),
        ({
            let a = tokens::tokens(before);
            let b = tokens::tokens(after);
            plain_text(tokens::old_side(before, after)) == tokens_laws::spelled(
                tokens_laws::selected(a, tokens::kept(a, b, 0, 0).0),
            )
        }),
{
    let a = tokens::tokens(before);
    let b = tokens::tokens(after);
    let marks = tokens::kept(a, b, 0, 0);
    let crossed = Style { crossed_out: true, ..style::plain() };
    let bold = Style { bold: true, underlined: true, ..style::plain() };
    tokens_laws::law_unmarked_tokens_are_a_longest_common_subsequence(a, b, seq![]);
    lemma_plain(a, marks.0, crossed, a.len() as int);
    lemma_plain(b, marks.1, bold, b.len() as int);
    lemma_selected(a, marks.0);
    lemma_selected(b, marks.1);
}

/// The text of those of the first `n` tokens that are common.
spec fn common_text(parts: Seq<Seq<char>>, common: Seq<bool>, n: int) -> Seq<char>
    decreases n,
{
    if n <= 0 {
        seq![]
    } else {
        common_text(parts, common, n - 1) + (if common[n - 1] {
            parts[n - 1]
        } else {
            seq![]
        })
    }
}

/// One more span adds its text if it is plain.
proof fn lemma_plain_push(spans: Seq<SpanModel>, span: SpanModel)
    ensures
        plain_text(spans.push(span)) == plain_text(spans) + (if span.style == style::plain() {
            span.content
        } else {
            seq![]
        }),
{
    assert(spans.push(span).drop_last() =~= spans);
}

/// The plain spans of the first `n` tokens spell those that are common.
proof fn lemma_plain(parts: Seq<Seq<char>>, common: Seq<bool>, marker: Style, n: int)
    requires
        marker != style::plain(),
    ensures
        plain_text(tokens::close(tokens::merged(parts, common, marker, n), marker)) == common_text(
            parts,
            common,
            n,
        ),
        ({
            let merge = tokens::merged(parts, common, marker, n);
            plain_text(merge.closed) + (if merge.common {
                merge.run
            } else {
                seq![]
            }) == common_text(parts, common, n)
        }),
    decreases n,
{
    let merge = tokens::merged(parts, common, marker, n);
    let span = SpanModel {
        content: merge.run,
        style: tokens::mark_style(merge.common, marker),
    };
    lemma_plain_push(merge.closed, span);
    if n > 0 {
        lemma_plain(parts, common, marker, n - 1);
        let before = tokens::merged(parts, common, marker, n - 1);
        let text = common_text(parts, common, n - 1);
        if common[n - 1] == before.common {
            assert(plain_text(merge.closed) + (if merge.common {
                merge.run
            } else {
                seq![]
            }) =~= common_text(parts, common, n));
        } else {
            assert(plain_text(merge.closed) == text);
        }
    } else {
        assert(plain_text(merge.closed) + merge.run =~= seq![]);
    }
    assert(plain_text(tokens::close(merge, marker)) =~= plain_text(merge.closed) + (if merge.common {
        merge.run
    } else {
        seq![]
    }));
}

/// The common text from the front.
proof fn lemma_front(parts: Seq<Seq<char>>, common: Seq<bool>, n: int)
    requires
        0 < n <= parts.len(),
        n <= common.len(),
    ensures
        common_text(parts, common, n) == (if common[0] {
            parts[0]
        } else {
            seq![]
        }) + common_text(parts.skip(1), common.skip(1), n - 1),
    decreases n,
{
    if n > 1 {
        lemma_front(parts, common, n - 1);
        assert(parts.skip(1)[n - 2] == parts[n - 1]);
        assert(common.skip(1)[n - 2] == common[n - 1]);
        let more = if common[n - 1] {
            parts[n - 1]
        } else {
            seq![]
        };
        assert(common_text(parts, common, n) == common_text(parts, common, n - 1) + more);
        assert(common_text(parts.skip(1), common.skip(1), n - 1) == common_text(
            parts.skip(1),
            common.skip(1),
            n - 2,
        ) + more);
    } else {
        assert(common_text(parts, common, 0) =~= seq![]);
        assert(common_text(parts.skip(1), common.skip(1), 0) =~= seq![]);
    }
    assert(common_text(parts, common, n) =~= (if common[0] {
        parts[0]
    } else {
        seq![]
    }) + common_text(parts.skip(1), common.skip(1), n - 1));
}

/// What is selected spells the common text.
proof fn lemma_selected(parts: Seq<Seq<char>>, common: Seq<bool>)
    requires
        parts.len() == common.len(),
    ensures
        tokens_laws::spelled(tokens_laws::selected(parts, common)) == common_text(
            parts,
            common,
            parts.len() as int,
        ),
    decreases parts.len(),
{
    if parts.len() > 0 {
        lemma_front(parts, common, parts.len() as int);
        lemma_selected(parts.skip(1), common.skip(1));
        if common[0] {
            lemma_spelled(parts[0], tokens_laws::selected(parts.skip(1), common.skip(1)));
        } else {
            let rest = common_text(parts.skip(1), common.skip(1), parts.len() - 1);
            assert(Seq::<char>::empty() + rest =~= rest);
        }
    }
}

/// A part before others is spelled before them.
proof fn lemma_spelled(first: Seq<char>, rest: Seq<Seq<char>>)
    ensures
        tokens_laws::spelled(seq![first] + rest) == first + tokens_laws::spelled(rest),
    decreases rest.len(),
{
    let all = seq![first] + rest;
    if rest.len() == 0 {
        assert(all.drop_last() =~= seq![]);
        assert(tokens_laws::spelled(all.drop_last()) =~= seq![]);
        assert(tokens_laws::spelled(all) =~= first + tokens_laws::spelled(rest));
    } else {
        lemma_spelled(first, rest.drop_last());
        assert(all.drop_last() =~= seq![first] + rest.drop_last());
        assert(tokens_laws::spelled(all) =~= first + tokens_laws::spelled(rest));
    }
}

/// Whether a character is of a word: a letter or digit of ASCII, or `_`.
pub open spec fn of_word(c: char) -> bool {
    'a' <= c <= 'z' || 'A' <= c <= 'Z' || '0' <= c <= '9' || c == '_'
}

/// Whether a token is a word.
pub open spec fn is_word_token(token: Seq<char>) -> bool {
    forall|i: int| 0 <= i < token.len() ==> of_word(#[trigger] token[i])
}

/// A token is a whole word or a single other character: no two words stand next
/// to each other.
pub proof fn law_tokens_are_whole_words(s: Seq<char>)
    ensures
        ({
            let all = tokens::tokens(s);
            &&& forall|t: int|
                0 <= t < all.len() ==> (#[trigger] all[t]).len() > 0 && (is_word_token(all[t])
                    || all[t].len() == 1 && !of_word(all[t][0]))
            &&& forall|t: int|
                0 <= t < all.len() - 1 ==> !(is_word_token(#[trigger] all[t]) && is_word_token(
                    all[t + 1],
                ))
            &&& s.len() > 0 ==> all.len() > 0 && (of_word(s.last()) <==> is_word_token(all.last()))
        }),
    decreases s.len(),
{
    let all = tokens::tokens(s);
    if s.len() > 0 {
        let front = s.drop_last();
        let rest = tokens::tokens(front);
        law_tokens_are_whole_words(front);
        let last = s.last();
        if s.len() > 1 && tokens::is_word(last) && tokens::is_word(s[s.len() - 2]) {
            assert(front.last() == s[s.len() - 2]);
            let grown = rest.last().push(last);
            assert(is_word_token(grown)) by {
                assert forall|i: int| 0 <= i < grown.len() implies of_word(#[trigger] grown[i]) by {
                    if i < rest.last().len() {
                        assert(grown[i] == rest.last()[i]);
                    }
                }
            }
            assert forall|t: int| 0 <= t < all.len() - 1 implies !(is_word_token(
                #[trigger] all[t],
            ) && is_word_token(all[t + 1])) by {
                assert(all[t] == rest[t]);
                if t + 1 == all.len() - 1 {
                    assert(rest[t + 1] == rest.last());
                } else {
                    assert(all[t + 1] == rest[t + 1]);
                }
            }
            assert forall|t: int| 0 <= t < all.len() implies (#[trigger] all[t]).len() > 0 && (
            is_word_token(all[t]) || all[t].len() == 1 && !of_word(all[t][0])) by {
                if t < all.len() - 1 {
                    assert(all[t] == rest[t]);
                }
            }
        } else {
            let one = seq![last];
            assert(all =~= rest.push(one));
            assert(one[0] == last);
            assert(of_word(last) <==> is_word_token(one));
            assert forall|t: int| 0 <= t < all.len() - 1 implies !(is_word_token(
                #[trigger] all[t],
            ) && is_word_token(all[t + 1])) by {
                assert(all[t] == rest[t]);
                if t + 1 == all.len() - 1 {
                    assert(all[t + 1] == one);
                    assert(rest[t] == rest.last());
                    assert(front.len() > 0);
                    assert(front.last() == s[s.len() - 2]);
                } else {
                    assert(all[t + 1] == rest[t + 1]);
                }
            }
            assert forall|t: int| 0 <= t < all.len() implies (#[trigger] all[t]).len() > 0 && (
            is_word_token(all[t]) || all[t].len() == 1 && !of_word(all[t][0])) by {
                if t < rest.len() {
                    assert(all[t] == rest[t]);
                } else {
                    assert(all[t] == one);
                }
            }
        }
    }
}

} // verus!
