//! What each keypress does and what each frame shows, between the keyboard
//! and the screen.

use vstd::prelude::*;

use crate::item;
use crate::text;
use crate::tui::input::{self, InputState, KeyCode, Motion};
use crate::tui::pane::{self, App, AppModel};
use crate::tui::rows::{JumpModel, JumpTarget};
use crate::tui::style::{LineModel, Style, StyledLine};

verus! {

/// Which keymap is live. `Normal` decodes motions; `Search` accumulates a
/// query in the bottom border until `Enter` commits or `Esc` cancels.
#[derive(Clone, Copy, Debug, PartialEq, Eq, Structural)]
pub enum Mode {
    Normal,
    Search,
}

/// What is left to do outside the pane after a keypress.
#[derive(Debug, PartialEq, Eq)]
pub enum Action {
    /// Nothing: draw the next frame.
    Continue,
    /// Leave.
    Quit,
    /// Open the user's editor there, then report the outcome.
    Open(JumpTarget),
}

/// An interactive session over a pane.
pub struct Session {
    pub app: App,
    pub input: InputState,
    pub mode: Mode,
    pub query: String,
    /// What the next footer says in place of the help.
    pub notice: Option<String>,
}

/// What one frame shows.
pub struct Screen {
    pub title: String,
    pub footer: String,
    pub position: String,
    pub lines: Vec<StyledLine>,
    pub scroll: u16,
}

/// The mathematical model of an `Action`.
pub enum ActionModel {
    Continue,
    Quit,
    Open(JumpModel),
}

/// The mathematical model of a `Session`.
#[verifier::ext_equal]
pub struct SessionModel {
    pub app: AppModel,
    pub input: InputState,
    pub mode: Mode,
    pub query: Seq<char>,
    pub notice: Option<Seq<char>>,
}

impl View for Action {
    type V = ActionModel;

    open spec fn view(&self) -> ActionModel {
        match *self {
            Action::Continue => ActionModel::Continue,
            Action::Quit => ActionModel::Quit,
            Action::Open(target) => ActionModel::Open(target@),
        }
    }
}

impl View for Session {
    type V = SessionModel;

    open spec fn view(&self) -> SessionModel {
        SessionModel {
            app: self.app@,
            input: self.input,
            mode: self.mode,
            query: self.query@,
            notice: item::optional_text(self.notice),
        }
    }
}

/// The footer when there is nothing else to say.
pub open spec fn help() -> Seq<char> {
    " j/k move · {/} files · / search · n/N matches · ⇥ expand · gr references · ↵ edit · q quit "@
}

/// The footer of the next frame: the query under way, the notice, or the
/// help.
pub open spec fn footer_text(session: SessionModel) -> Seq<char> {
    if session.mode == Mode::Search {
        " /"@ + session.query + " "@
    } else {
        match session.notice {
            Some(words) => words,
            None => help(),
        }
    }
}

/// The session once its footer is drawn: a notice is shown once.
pub open spec fn notice_shown(session: SessionModel) -> SessionModel {
    if session.mode == Mode::Search {
        session
    } else {
        SessionModel { notice: None, ..session }
    }
}

/// A keypress while a query is typed.
pub open spec fn typed(session: SessionModel, code: KeyCode) -> SessionModel {
    match code {
        KeyCode::Esc => SessionModel { mode: Mode::Normal, query: seq![], ..session },
        KeyCode::Enter => SessionModel {
            app: pane::searched(session.app, session.query),
            mode: Mode::Normal,
            ..session
        },
        KeyCode::Backspace => SessionModel {
            query: if session.query.len() > 0 {
                session.query.drop_last()
            } else {
                session.query
            },
            ..session
        },
        KeyCode::Char(c) => SessionModel { query: session.query.push(c), ..session },
        _ => session,
    }
}

/// What a completed motion does.
pub open spec fn performed(session: SessionModel, motion: Motion) -> (SessionModel, ActionModel) {
    match motion {
        Motion::Quit => (session, ActionModel::Quit),
        Motion::Open => match pane::jump_of_cursor(session.app) {
            Some(target) => (session, ActionModel::Open(target)),
            None => (
                SessionModel {
                    notice: Some(" nothing to open here (removed items have no location) "@),
                    ..session
                },
                ActionModel::Continue,
            ),
        },
        Motion::Expand => (
            SessionModel {
                app: pane::expand_toggled(session.app),
                notice: if pane::can_toggle_expand(session.app) {
                    None
                } else {
                    Some(" nothing to expand here "@)
                },
                ..session
            },
            ActionModel::Continue,
        ),
        Motion::Usages => (
            SessionModel {
                app: pane::usages_toggled(session.app),
                notice: if pane::can_toggle_usages(session.app) {
                    None
                } else {
                    Some(" nothing references this item "@)
                },
                ..session
            },
            ActionModel::Continue,
        ),
        _ => (
            SessionModel { app: pane::applied(session.app, motion), ..session },
            ActionModel::Continue,
        ),
    }
}

/// What a keypress does.
pub open spec fn pressed(
    session: SessionModel,
    code: KeyCode,
    ctrl: bool,
) -> (SessionModel, ActionModel) {
    if session.mode == Mode::Search {
        (typed(session, code), ActionModel::Continue)
    } else if !ctrl && code == KeyCode::Char('/') {
        (SessionModel { mode: Mode::Search, query: seq![], ..session }, ActionModel::Continue)
    } else {
        let step = input::step(session.input, code, ctrl);
        let fed = SessionModel { input: step.state, ..session };
        match step.motion {
            Some(motion) => performed(fed, motion),
            None => (fed, ActionModel::Continue),
        }
    }
}

/// The pane as the next frame shows it: as high as the screen allows, the
/// cursor in view.
pub open spec fn resized(app: AppModel, height: int) -> AppModel {
    pane::followed(AppModel { height, ..app })
}

/// Whether display line `i` is the row of a search match.
pub open spec fn marked(app: AppModel, i: int) -> bool {
    exists|m: int|
        0 <= m < app.matches.len() && (#[trigger] app.matches[m]) < app.shown.stops.len()
            && app.shown.stops[app.matches[m] as int] == i
}

/// Whether display line `i` is the cursor's row.
pub open spec fn under_cursor(app: AppModel, i: int) -> bool {
    app.shown.stops.len() > 0 && i == pane::line_of_cursor(app)
}

/// The display lines with search matches underlined and the cursor's row
/// reversed.
pub open spec fn highlighted(app: AppModel) -> Seq<LineModel> {
    Seq::new(
        app.shown.lines.len(),
        |i: int|
            LineModel {
                spans: app.shown.lines[i].spans,
                style: Style {
                    underlined: app.shown.lines[i].style.underlined || marked(app, i),
                    reversed: app.shown.lines[i].style.reversed || under_cursor(app, i),
                    ..app.shown.lines[i].style
                },
            },
    )
}

/// The cursor's place among the stops, counted from one.
pub open spec fn position_text(app: AppModel) -> Seq<char> {
    if app.shown.stops.len() == 0 {
        seq![]
    } else {
        " "@ + text::decimal(pane::least(app.cursor + 1, u64::MAX as int) as nat) + "/"@
            + text::decimal(app.shown.stops.len()) + " "@
    }
}

impl Session {
    /// A session over a pane.
    pub fn new(app: App) -> (session: Self)
        requires
            pane::in_sync(app@),
        ensures
            session@ == (SessionModel {
                app: app@,
                input: input::idle(),
                mode: Mode::Normal,
                query: seq![],
                notice: None,
            }),
            footer_text(session@) == help(),
            session@.app == app@,
    {
        let session = Session {
            app,
            input: InputState::default(),
            mode: Mode::Normal,
            query: String::new(),
            notice: None,
        };
        assert(session.query@ =~= seq![]);
        session
    }

    /// The footer of the next frame. A notice is shown once.
    pub fn footer(&mut self) -> (words: String)
        ensures
            words@ == footer_text(old(self)@),
            final(self)@ == notice_shown(old(self)@),
    {
        if self.mode == Mode::Search {
            return text::join3(" /", self.query.as_str(), " ");
        }
        let mut taken: Option<String> = None;
        std::mem::swap(&mut taken, &mut self.notice);
        match taken {
            Some(words) => words,
            None =>
                " j/k move · {/} files · / search · n/N matches · ⇥ expand · gr references · ↵ edit · q quit ".to_owned(),
        }
    }

    /// Folds in one keypress; what is left to do is the caller's.
    pub fn on_key(&mut self, code: KeyCode, ctrl: bool) -> (action: Action)
        requires
            pane::in_sync(old(self)@.app),
        ensures
            final(self)@ == pressed(old(self)@, code, ctrl).0,
            action@ == pressed(old(self)@, code, ctrl).1,
            pane::in_sync(final(self)@.app),
    {
        if self.mode == Mode::Search {
            self.type_key(code);
            return Action::Continue;
        }
        if !ctrl && code == KeyCode::Char('/') {
            self.mode = Mode::Search;
            self.query = String::new();
            assert(self.query@ =~= seq![]);
            return Action::Continue;
        }
        match self.input.feed(code, ctrl) {
            Some(motion) => self.perform(motion),
            None => Action::Continue,
        }
    }

    /// A keypress while a query is typed.
    fn type_key(&mut self, code: KeyCode)
        requires
            pane::in_sync(old(self)@.app),
        ensures
            final(self)@ == typed(old(self)@, code),
            pane::in_sync(final(self)@.app),
    {
        match code {
            KeyCode::Esc => {
                self.mode = Mode::Normal;
                self.query = String::new();
                assert(self.query@ =~= seq![]);
            },
            KeyCode::Enter => {
                self.app.search(self.query.as_str());
                self.mode = Mode::Normal;
            },
            KeyCode::Backspace => {
                self.query = text::without_last(self.query.as_str());
            },
            KeyCode::Char(c) => {
                self.query.push(c);
            },
            _ => {},
        }
    }

    /// Performs a completed motion.
    fn perform(&mut self, motion: Motion) -> (action: Action)
        requires
            pane::in_sync(old(self)@.app),
        ensures
            final(self)@ == performed(old(self)@, motion).0,
            action@ == performed(old(self)@, motion).1,
            pane::in_sync(final(self)@.app),
    {
        match motion {
            Motion::Quit => Action::Quit,
            Motion::Open => {
                let target: Option<JumpTarget> = match self.app.current_jump() {
                    Some(found) => Some(found.clone()),
                    None => None,
                };
                match target {
                    Some(found) => Action::Open(found),
                    None => {
                        self.notice = Some(
                            " nothing to open here (removed items have no location) ".to_owned(),
                        );
                        Action::Continue
                    },
                }
            },
            Motion::Expand => {
                self.notice = self.app.toggle_expand();
                Action::Continue
            },
            Motion::Usages => {
                self.notice = self.app.toggle_usages();
                Action::Continue
            },
            _ => {
                self.app.apply(motion);
                Action::Continue
            },
        }
    }

    /// Takes in how opening the editor went: a failure becomes a notice
    /// rather than an error because the review is still usable.
    pub fn editor_closed(&mut self, failure: Option<String>)
        ensures
            final(self)@ == (SessionModel {
                notice: match failure {
                    Some(reason) => Some(" editor failed: "@ + reason@ + " "@),
                    None => None,
                },
                ..old(self)@
            }),
            final(self)@.app == old(self)@.app,
            failure is None <==> final(self)@.notice is None,
            failure matches Some(reason) ==> (final(self)@.notice matches Some(words)
                && text::occurs_at(words, reason@, 16)),
    {
        proof {
            reveal_strlit(" editor failed: ");
            if failure is Some {
                let reason = failure->Some_0@;
                let words = " editor failed: "@ + reason + " "@;
                assert(words.subrange(16, 16int + reason.len()) =~= reason);
            }
        }
        self.notice = match failure {
            Some(reason) => Some(text::join3(" editor failed: ", reason.as_str(), " ")),
            None => None,
        };
    }

    /// What the next frame shows on a screen with room for `height` lines.
    pub fn frame(&mut self, height: u16) -> (screen: Screen)
        ensures
            final(self)@ == (SessionModel {
                app: resized(old(self)@.app, height as int),
                ..notice_shown(old(self)@)
            }),
            screen.title@ == " absolem · "@ + old(self)@.app.summary + " "@,
            screen.footer@ == footer_text(old(self)@),
            screen.position@ == position_text(old(self)@.app),
            item::views(screen.lines@) == highlighted(final(self)@.app),
            screen.scroll == final(self)@.app.scroll,
            screen.lines@.len() == old(self)@.app.shown.lines.len(),
            text::occurs_at(screen.title@, old(self)@.app.summary, 11),
    {
        proof {
            reveal_strlit(" absolem · ");
            let words = " absolem · "@ + self.app.summary@ + " "@;
            assert(words.subrange(11, 11int + self.app.summary@.len()) =~= self.app.summary@);
        }
        let footer = self.footer();
        let position = self.position();
        let title = text::join3(" absolem · ", self.app.summary.as_str(), " ");
        // Record the height so scroll clamping matches what's on screen, and
        // re-follow the cursor in case a resize moved it out of view.
        self.app.viewport_height = height;
        self.app.scroll_to_cursor();
        let lines = self.highlight();
        assert(item::views(lines@).len() == lines@.len());
        Screen { title, footer, position, lines, scroll: self.app.scroll }
    }

    /// The cursor's place among the stops.
    fn position(&self) -> (words: String)
        ensures
            words@ == position_text(self@.app),
    {
        if self.app.stops.len() == 0 {
            let none = String::new();
            assert(none@ =~= seq![]);
            return none;
        }
        let at = text::decimal_text((self.app.cursor as u64).saturating_add(1));
        let of = text::decimal_text(self.app.stops.len() as u64);
        text::join5(" ", at.as_str(), "/", of.as_str(), " ")
    }

    /// The display lines, matches underlined and the cursor's row reversed.
    fn highlight(&self) -> (lines: Vec<StyledLine>)
        ensures
            item::views(lines@) == highlighted(self@.app),
    {
        let app = &self.app;
        let ghost model = app@;
        let mut lines: Vec<StyledLine> = Vec::new();
        let mut i: usize = 0;
        while i < app.lines.len()
            invariant
                i <= app.lines@.len(),
                item::views(lines@) == item::views(app.lines@).take(i as int),
            decreases app.lines.len() - i,
        {
            let copied = app.lines[i].clone();
            proof {
                item::lemma_views_push(lines@, copied);
            }
            lines.push(copied);
            i = i + 1;
            assert(item::views(lines@) =~= item::views(app.lines@).take(i as int));
        }
        assert(item::views(lines@) =~= model.shown.lines);
        let mut m: usize = 0;
        while m < app.matches.len()
            invariant
                model == app@,
                m <= app.matches@.len(),
                lines@.len() == model.shown.lines.len(),
                forall|k: int|
                    0 <= k < lines@.len() ==> (#[trigger] lines@[k])@ == marked_line(
                        model,
                        k,
                        m as int,
                    ),
            decreases app.matches.len() - m,
        {
            let ghost before = lines@;
            let stop: usize = app.matches[m];
            if stop < app.stops.len() {
                let at: usize = app.stops[stop] as usize;
                if at < lines.len() {
                    underline(&mut lines, at);
                }
            }
            proof {
                assert forall|k: int| 0 <= k < lines@.len() implies (#[trigger] lines@[k])@
                    == marked_line(model, k, m + 1) by {
                    assert(before[k]@ == marked_line(model, k, m as int));
                    lemma_marked_more(model, k, m as int);
                }
            }
            m = m + 1;
        }
        if app.stops.len() > 0 {
            let at: usize = app.cursor_line() as usize;
            if at < lines.len() {
                reverse(&mut lines, at);
            }
        }
        proof {
            assert forall|k: int| 0 <= k < lines@.len() implies (#[trigger] item::views(lines@)[k])
                == highlighted(model)[k] by {
                assert(marked_before(model, k, m as int) == marked(model, k));
            }
            assert(item::views(lines@) =~= highlighted(model));
        }
        lines
    }
}

/// Until a search is committed the pane stays as it is: whatever else is typed
/// meanwhile, and however the search is cancelled.
pub proof fn law_only_a_committed_search_moves_the_pane(
    session: SessionModel,
    code: KeyCode,
    ctrl: bool,
)
    requires
        session.mode == Mode::Search,
        code != KeyCode::Enter,
    ensures
        pressed(session, code, ctrl).0.app == session.app,
        pressed(session, code, ctrl).1 == ActionModel::Continue,
        pressed(session, code, ctrl).0.mode == Mode::Normal <==> code == KeyCode::Esc,
{
}

/// A notice is shown once: outside a search, the frame after the one that shows
/// it says the help again.
pub proof fn law_notices_are_shown_once(session: SessionModel)
    requires
        session.mode == Mode::Normal,
    ensures
        session.notice matches Some(words) ==> footer_text(session) == words,
        footer_text(notice_shown(session)) == help(),
{
}

/// The pane is left by `q` or `Esc`, outside a search and with no `z` waiting for
/// its partner, and by nothing else.
pub proof fn law_only_quit_leaves(session: SessionModel, code: KeyCode, ctrl: bool)
    ensures
        pressed(session, code, ctrl).1 == ActionModel::Quit <==> session.mode == Mode::Normal
            && !session.input.pending_z && !ctrl && (code == KeyCode::Char('q') || code
            == KeyCode::Esc),
{
}

/// Whether one of the first `n` matches is on display line `i`.
spec fn marked_before(app: AppModel, i: int, n: int) -> bool {
    exists|m: int|
        0 <= m < n && (#[trigger] app.matches[m]) < app.shown.stops.len()
            && app.shown.stops[app.matches[m] as int] == i
}

/// Display line `i` with the first `n` matches underlined.
spec fn marked_line(app: AppModel, i: int, n: int) -> LineModel {
    LineModel {
        spans: app.shown.lines[i].spans,
        style: Style {
            underlined: app.shown.lines[i].style.underlined || marked_before(app, i, n),
            ..app.shown.lines[i].style
        },
    }
}

/// One more match underlines its own line and no other.
proof fn lemma_marked_more(app: AppModel, i: int, n: int)
    requires
        0 <= n < app.matches.len(),
    ensures
        marked_before(app, i, n + 1) == (marked_before(app, i, n) || (app.matches[n]
            < app.shown.stops.len() && app.shown.stops[app.matches[n] as int] == i)),
{
    if marked_before(app, i, n) {
        let m = choose|m: int|
            0 <= m < n && (#[trigger] app.matches[m]) < app.shown.stops.len()
                && app.shown.stops[app.matches[m] as int] == i;
        assert(app.matches[m] < app.shown.stops.len());
    }
    if app.matches[n] < app.shown.stops.len() && app.shown.stops[app.matches[n] as int] == i {
        assert(marked_before(app, i, n + 1));
    }
}

/// Underlines a line.
fn underline(lines: &mut Vec<StyledLine>, at: usize)
    requires
        at < old(lines)@.len(),
    ensures
        final(lines)@.len() == old(lines)@.len(),
        forall|k: int|
            0 <= k < old(lines)@.len() && k != at ==> (#[trigger] final(lines)@[k]) == old(
                lines,
            )@[k],
        final(lines)@[at as int]@ == (LineModel {
            style: Style { underlined: true, ..old(lines)@[at as int].style },
            ..old(lines)@[at as int]@
        }),
{
    let style = lines[at].style.underlined();
    lines[at].style = style;
}

/// Reverses a line.
fn reverse(lines: &mut Vec<StyledLine>, at: usize)
    requires
        at < old(lines)@.len(),
    ensures
        final(lines)@.len() == old(lines)@.len(),
        forall|k: int|
            0 <= k < old(lines)@.len() && k != at ==> (#[trigger] final(lines)@[k]) == old(
                lines,
            )@[k],
        final(lines)@[at as int]@ == (LineModel {
            style: Style { reversed: true, ..old(lines)@[at as int].style },
            ..old(lines)@[at as int]@
        }),
{
    let style = lines[at].style.reversed();
    lines[at].style = style;
}

} // verus!
