//! The scrollable pane over a rendered review: the cursor, the viewport, the
//! open rows, the search matches, and how each motion moves them.

use vstd::prelude::*;

use crate::changes::{self, FileChange};
use crate::index::{self, TypeIndex};
use crate::item;
use crate::text;
use crate::tui::input::Motion;
use crate::tui::rows::{self, JumpModel, JumpTarget, PathSet, RenderCtx, RowPath};
use crate::tui::style::{self, StyledLine};
use crate::tui::summary;
use crate::tui::view::{self, Rendered, RenderedModel};

verus! {

/// A spot within the viewport: the top, the vertical middle, or the bottom.
/// Shared by `H`/`M`/`L` (move cursor there) and `zt`/`zz`/`zb` (scroll the
/// cursor there).
#[derive(Clone, Copy, Debug, PartialEq, Eq, Structural)]
pub enum ViewSpot {
    Top,
    Middle,
    Bottom,
}

/// Scrollable view over a pre-rendered review. `cursor` indexes `stops`;
/// `scroll` is the topmost visible line, derived to keep the cursor on
/// screen. `viewport_height` is the last drawn body height, recorded each
/// frame so the motion handlers can clamp without the terminal.
pub struct App {
    /// The review being displayed — kept so the pane can re-render when an
    /// expansion toggles.
    pub review: Vec<FileChange>,
    /// The head-wide index expansions resolve against.
    pub index: TypeIndex,
    /// Rows whose expansion is currently open, by identity — positions shift
    /// as rows unfold, identities don't.
    pub expanded: PathSet,
    /// Rows whose used-by list is currently open, same keying.
    pub usages_open: PathSet,
    pub lines: Vec<StyledLine>,
    pub stops: Vec<u16>,
    /// Parallel to `stops`: where each stop jumps when opened.
    pub jumps: Vec<Option<JumpTarget>>,
    /// Parallel to `stops`: whether the row has at least one reference that
    /// resolves in the index.
    pub expandable: Vec<bool>,
    /// Parallel to `stops`: whether anything references the row's item.
    pub referenced: Vec<bool>,
    /// Parallel to `stops`: the row's identity, `None` for file headers.
    pub paths: Vec<Option<RowPath>>,
    /// Indices into `stops` that are file rows — the `{` / `}` waypoints.
    pub headers: Vec<usize>,
    /// Stop indices whose row matched the last committed search.
    pub matches: Vec<usize>,
    /// The title-bar summary: file and change counts.
    pub summary: String,
    pub cursor: usize,
    pub scroll: u16,
    pub viewport_height: u16,
}

/// The mathematical model of an `App`.
#[verifier::ext_equal]
pub struct AppModel {
    pub review: Seq<changes::FileModel>,
    pub index: index::IndexModel,
    pub expanded: Set<Seq<item::IdModel>>,
    pub usages_open: Set<Seq<item::IdModel>>,
    pub shown: RenderedModel,
    pub matches: Seq<usize>,
    pub summary: Seq<char>,
    pub cursor: int,
    pub scroll: int,
    pub height: int,
}

impl View for App {
    type V = AppModel;

    open spec fn view(&self) -> AppModel {
        AppModel {
            review: item::views(self.review@),
            index: self.index@,
            expanded: self.expanded@,
            usages_open: self.usages_open@,
            shown: RenderedModel {
                lines: item::views(self.lines@),
                stops: self.stops@,
                jumps: view::jump_models(self.jumps@),
                expandable: self.expandable@,
                referenced: self.referenced@,
                paths: view::path_models(self.paths@),
                headers: self.headers@,
            },
            matches: self.matches@,
            summary: self.summary@,
            cursor: self.cursor as int,
            scroll: self.scroll as int,
            height: self.viewport_height as int,
        }
    }
}

/// What the review looks like under the open rows.
pub open spec fn look(app: AppModel) -> RenderedModel {
    view::rendered(
        view::review_rows(
            app.review,
            rows::CtxModel {
                expanded: app.expanded,
                usages_open: app.usages_open,
                index: app.index,
            },
        ),
    )
}

/// The pane shows what the review looks like under the open rows.
pub open spec fn in_sync(app: AppModel) -> bool {
    app.shown == look(app) && view::aligned(app.shown)
}

/// The lesser of two numbers.
pub open spec fn least(a: int, b: int) -> int {
    if a <= b {
        a
    } else {
        b
    }
}

/// `a` less `b`, but no less than zero.
pub open spec fn minus(a: int, b: int) -> int {
    if a <= b {
        0
    } else {
        a - b
    }
}

/// The display line the cursor sits on.
pub open spec fn line_of_cursor(app: AppModel) -> int {
    if 0 <= app.cursor < app.shown.stops.len() {
        app.shown.stops[app.cursor] as int
    } else {
        0
    }
}

/// Largest valid top line: enough to bring the final line into view, and no
/// further.
pub open spec fn farthest(app: AppModel) -> int {
    minus(view::line_number(app.shown.lines.len()) as int, app.height)
}

/// The viewport slid the minimum needed to keep the cursor visible, then
/// clamped so it never runs past the last line.
pub open spec fn followed(app: AppModel) -> AppModel {
    let line = line_of_cursor(app);
    let slid = if line < app.scroll {
        line
    } else if app.height > 0 && line >= app.scroll + app.height {
        line - app.height + 1
    } else {
        app.scroll
    };
    AppModel { scroll: least(slid, farthest(app)), ..app }
}

/// The cursor put on a stop, the viewport following it.
pub open spec fn moved(app: AppModel, cursor: int) -> AppModel {
    followed(AppModel { cursor, ..app })
}

/// The cursor `n` stops further down, at most on the last.
pub open spec fn down(app: AppModel, n: int) -> AppModel {
    if app.shown.stops.len() == 0 {
        app
    } else {
        moved(app, least(app.cursor + n, app.shown.stops.len() - 1))
    }
}

/// The cursor `n` stops further up, at most on the first.
pub open spec fn up(app: AppModel, n: int) -> AppModel {
    moved(app, minus(app.cursor, n))
}

/// The cursor on item `n`, counted from one and at most the last; without
/// `n`, on the last or the first.
pub open spec fn at_item(app: AppModel, n: Option<usize>, last_if_none: bool) -> AppModel {
    let last = app.shown.stops.len() - 1;
    if app.shown.stops.len() == 0 {
        app
    } else {
        moved(
            app,
            match n {
                Some(k) => least(minus(k as int, 1), last),
                None => if last_if_none {
                    last
                } else {
                    0
                },
            },
        )
    }
}

/// Whether stop `i` is in the viewport.
pub open spec fn visible(app: AppModel, i: int) -> bool {
    app.scroll <= app.shown.stops[i] && app.shown.stops[i] < least(
        app.scroll + app.height,
        u16::MAX as int,
    )
}

/// The first visible stop from `i` on.
pub open spec fn first_visible(app: AppModel, i: int) -> Option<int>
    decreases app.shown.stops.len() - i,
{
    if i >= app.shown.stops.len() {
        None
    } else if visible(app, i) {
        Some(i)
    } else {
        first_visible(app, i + 1)
    }
}

/// The last visible stop before `n`.
pub open spec fn last_visible(app: AppModel, n: int) -> Option<int>
    decreases n,
{
    if n <= 0 {
        None
    } else if visible(app, n - 1) {
        Some(n - 1)
    } else {
        last_visible(app, n - 1)
    }
}

/// The cursor on the top, middle or bottom item of the viewport.
pub open spec fn at_spot(app: AppModel, spot: ViewSpot) -> AppModel {
    match (first_visible(app, 0), last_visible(app, app.shown.stops.len() as int)) {
        (Some(first), Some(last)) => moved(
            app,
            match spot {
                ViewSpot::Top => first,
                ViewSpot::Middle => first + (last - first) / 2,
                ViewSpot::Bottom => last,
            },
        ),
        _ => app,
    }
}

/// The viewport moved so that the cursor's item sits at the spot.
pub open spec fn scrolled_to(app: AppModel, spot: ViewSpot) -> AppModel {
    let offset = match spot {
        ViewSpot::Top => 0,
        ViewSpot::Middle => app.height / 2,
        ViewSpot::Bottom => minus(app.height, 1),
    };
    AppModel { scroll: least(minus(line_of_cursor(app), offset), farthest(app)), ..app }
}

/// Whether the row of stop `i` contains `needle`, letter case aside.
pub open spec fn hit(app: AppModel, needle: Seq<char>, i: int) -> bool {
    text::occurs(
        text::lowered(style::spans_text(app.shown.lines[app.shown.stops[i] as int].spans)),
        needle,
    )
}

/// Those of the first `n` stops that contain `needle`.
pub open spec fn hits(app: AppModel, needle: Seq<char>, n: int) -> Seq<usize>
    decreases n,
{
    if n <= 0 {
        seq![]
    } else if hit(app, needle, n - 1) {
        hits(app, needle, n - 1).push((n - 1) as usize)
    } else {
        hits(app, needle, n - 1)
    }
}

/// The first of `stops[i..]` that is at least `low`.
pub open spec fn first_at_least(stops: Seq<usize>, low: int, i: int) -> Option<int>
    decreases stops.len() - i,
{
    if i >= stops.len() {
        None
    } else if stops[i] >= low {
        Some(stops[i] as int)
    } else {
        first_at_least(stops, low, i + 1)
    }
}

/// The last of `stops[..n]` that is below `high`.
pub open spec fn last_below(stops: Seq<usize>, high: int, n: int) -> Option<int>
    decreases n,
{
    if n <= 0 {
        None
    } else if stops[n - 1] < high {
        Some(stops[n - 1] as int)
    } else {
        last_below(stops, high, n - 1)
    }
}

/// The first stop of `stops` that is at least `low`, or else the first of
/// all.
pub open spec fn wrapped_from(stops: Seq<usize>, low: int) -> int {
    match first_at_least(stops, low, 0) {
        Some(stop) => stop,
        None => stops[0] as int,
    }
}

/// The last stop of `stops` that is below `high`, or else the last of all.
pub open spec fn wrapped_before(stops: Seq<usize>, high: int) -> int {
    match last_below(stops, high, stops.len() as int) {
        Some(stop) => stop,
        None => stops.last() as int,
    }
}

/// The matches of a query, the cursor on the first at or after it, wrapping
/// if needed; no query, no matches.
pub open spec fn searched(app: AppModel, query: Seq<char>) -> AppModel {
    if query.len() == 0 {
        AppModel { matches: seq![], ..app }
    } else {
        let found = hits(app, text::lowered(query), app.shown.stops.len() as int);
        let marked = AppModel { matches: found, ..app };
        if found.len() == 0 {
            marked
        } else {
            moved(marked, wrapped_from(found, app.cursor))
        }
    }
}

/// The cursor on the next match, wrapping around.
pub open spec fn at_next_match(app: AppModel) -> AppModel {
    if app.matches.len() == 0 {
        app
    } else {
        moved(app, wrapped_from(app.matches, app.cursor + 1))
    }
}

/// The cursor on the previous match, wrapping around.
pub open spec fn at_prev_match(app: AppModel) -> AppModel {
    if app.matches.len() == 0 {
        app
    } else {
        moved(app, wrapped_before(app.matches, app.cursor))
    }
}

/// How many of the first `n` headers lie before the cursor.
pub open spec fn headers_before(app: AppModel, n: int) -> nat
    decreases n,
{
    if n <= 0 {
        0
    } else if app.shown.headers[n - 1] < app.cursor {
        headers_before(app, n - 1) + 1
    } else {
        headers_before(app, n - 1)
    }
}

/// The cursor on the `n`-th file header before it, at most on the first.
pub open spec fn at_prev_file(app: AppModel, n: int) -> AppModel {
    let headers = app.shown.headers;
    let before = headers_before(app, headers.len() as int);
    if before == 0 && n > 0 {
        app
    } else if minus(before as int, n) >= headers.len() {
        app
    } else {
        moved(app, headers[minus(before as int, n)] as int)
    }
}

/// The headers of the first `n` that lie after the cursor.
pub open spec fn headers_after(app: AppModel, n: int) -> Seq<usize>
    decreases n,
{
    if n <= 0 {
        seq![]
    } else if app.shown.headers[n - 1] > app.cursor {
        headers_after(app, n - 1).push(app.shown.headers[n - 1])
    } else {
        headers_after(app, n - 1)
    }
}

/// The cursor on the `n`-th file header after it, at most on the last.
pub open spec fn at_next_file(app: AppModel, n: int) -> AppModel {
    let headers = app.shown.headers;
    let after = headers_after(app, headers.len() as int);
    let nth = minus(n, 1);
    if headers.len() == 0 {
        app
    } else {
        let target = if nth < after.len() {
            after[nth] as int
        } else {
            headers.last() as int
        };
        if target > app.cursor {
            moved(app, target)
        } else {
            app
        }
    }
}

/// The identity of the cursor's row.
pub open spec fn row_of_cursor(app: AppModel) -> Option<Seq<item::IdModel>> {
    if 0 <= app.cursor < app.shown.paths.len() {
        app.shown.paths[app.cursor]
    } else {
        None
    }
}

/// The first of `paths[i..]` that is `path`.
pub open spec fn row_at(
    paths: Seq<Option<Seq<item::IdModel>>>,
    path: Seq<item::IdModel>,
    i: int,
) -> Option<int>
    decreases paths.len() - i,
{
    if i >= paths.len() {
        None
    } else if paths[i] == Some(path) {
        Some(i)
    } else {
        row_at(paths, path, i + 1)
    }
}

/// The cursor on the row `on` again, or else where it was, at most on the
/// last stop.
pub open spec fn refound(app: AppModel, on: Option<Seq<item::IdModel>>) -> int {
    let found = match on {
        Some(path) => row_at(app.shown.paths, path, 0),
        None => None,
    };
    match found {
        Some(at) => at,
        None => if app.shown.stops.len() > 0 {
            least(app.cursor, app.shown.stops.len() - 1)
        } else {
            app.cursor
        },
    }
}

/// The display lines rebuilt from the review and the open rows, the cursor
/// back on the row it was on.
pub open spec fn rerendered(app: AppModel) -> AppModel {
    let fresh = AppModel { shown: look(app), ..app };
    moved(fresh, refound(fresh, row_of_cursor(app)))
}

/// Whether `Tab` does anything on the cursor's row.
pub open spec fn can_toggle_expand(app: AppModel) -> bool {
    0 <= app.cursor < app.shown.expandable.len() && app.shown.expandable[app.cursor]
        && row_of_cursor(app) is Some
}

/// Whether `gr` does anything on the cursor's row.
pub open spec fn can_toggle_usages(app: AppModel) -> bool {
    0 <= app.cursor < app.shown.referenced.len() && app.shown.referenced[app.cursor]
        && row_of_cursor(app) is Some
}

/// The cursor row's expansion opened or closed, if there is one.
pub open spec fn expand_toggled(app: AppModel) -> AppModel {
    if can_toggle_expand(app) {
        rerendered(
            AppModel { expanded: rows::toggled(app.expanded, row_of_cursor(app)->0), ..app },
        )
    } else {
        app
    }
}

/// The cursor row's used-by list opened or closed, if there is one.
pub open spec fn usages_toggled(app: AppModel) -> AppModel {
    if can_toggle_usages(app) {
        rerendered(
            AppModel { usages_open: rows::toggled(app.usages_open, row_of_cursor(app)->0), ..app },
        )
    } else {
        app
    }
}

/// The greater of two numbers.
pub open spec fn most(a: int, b: int) -> int {
    if a >= b {
        a
    } else {
        b
    }
}

/// What a motion does to the pane. Unfolds, `Open` and `Quit` do nothing
/// here: they either re-render or act outside the pane.
pub open spec fn applied(app: AppModel, motion: Motion) -> AppModel {
    match motion {
        Motion::Down(n) => down(app, n as int),
        Motion::Up(n) => up(app, n as int),
        Motion::First(n) => at_item(app, n, false),
        Motion::Last(n) => at_item(app, n, true),
        Motion::HalfPageDown => down(app, most(app.height / 2, 1)),
        Motion::HalfPageUp => up(app, most(app.height / 2, 1)),
        Motion::PageDown => down(app, most(app.height, 1)),
        Motion::PageUp => up(app, most(app.height, 1)),
        Motion::CursorHigh => at_spot(app, ViewSpot::Top),
        Motion::CursorMiddle => at_spot(app, ViewSpot::Middle),
        Motion::CursorLow => at_spot(app, ViewSpot::Bottom),
        Motion::ViewTop => scrolled_to(app, ViewSpot::Top),
        Motion::ViewCenter => scrolled_to(app, ViewSpot::Middle),
        Motion::ViewBottom => scrolled_to(app, ViewSpot::Bottom),
        Motion::NextMatch => at_next_match(app),
        Motion::PrevMatch => at_prev_match(app),
        Motion::PrevFile(n) => at_prev_file(app, n as int),
        Motion::NextFile(n) => at_next_file(app, n as int),
        Motion::Expand | Motion::Usages | Motion::Open | Motion::Quit => app,
    }
}

/// Where the cursor's stop leads, if anywhere.
pub open spec fn jump_of_cursor(app: AppModel) -> Option<JumpModel> {
    if 0 <= app.cursor < app.shown.jumps.len() {
        app.shown.jumps[app.cursor]
    } else {
        None
    }
}

/// A fresh pane over a review.
pub open spec fn opened(review: Seq<changes::FileModel>, types: index::IndexModel) -> AppModel {
    rerendered(
        AppModel {
            review,
            index: types,
            expanded: Set::empty(),
            usages_open: Set::empty(),
            shown: view::nothing(),
            matches: seq![],
            summary: summary::summary(review),
            cursor: 0,
            scroll: 0,
            height: 0,
        },
    )
}

impl App {
    /// Opens a pane over a review.
    pub fn new(review: &[FileChange], types: TypeIndex) -> (app: Self)
        ensures
            app@ == opened(item::views(review@), types@),
            in_sync(app@),
    {
        let mut app = App {
            review: clone_review(review),
            index: types,
            expanded: PathSet::new(),
            usages_open: PathSet::new(),
            lines: Vec::new(),
            stops: Vec::new(),
            jumps: Vec::new(),
            expandable: Vec::new(),
            referenced: Vec::new(),
            paths: Vec::new(),
            headers: Vec::new(),
            matches: Vec::new(),
            summary: summary::summarize(review),
            cursor: 0,
            scroll: 0,
            viewport_height: 0,
        };
        assert(app@.shown =~= view::nothing());
        assert(app@.matches =~= seq![]);
        app.rerender();
        app
    }

    /// Rebuilds the display lines from the review and the current expansion
    /// state, then puts the cursor back on the row it was on: rows are found
    /// again by identity, since unfolding shifts every position below it.
    pub fn rerender(&mut self)
        ensures
            final(self)@ == rerendered(old(self)@),
            in_sync(final(self)@),
    {
        let ghost before = self@;
        let on = self.cursor_row();
        let fresh = view::render_lines(
            &self.review,
            &RenderCtx {
                expanded: &self.expanded,
                usages_open: &self.usages_open,
                index: &self.index,
            },
        );
        let Rendered { lines, stops, jumps, expandable, referenced, paths, headers } = fresh;
        self.lines = lines;
        self.stops = stops;
        self.jumps = jumps;
        self.expandable = expandable;
        self.referenced = referenced;
        self.paths = paths;
        self.headers = headers;
        assert(self@ == (AppModel { shown: look(before), ..before }));
        let found: Option<usize> = match &on {
            Some(path) => self.find_row(path),
            None => None,
        };
        match found {
            Some(at) => {
                self.cursor = at;
            },
            None => if self.stops.len() > 0 {
                let last: usize = self.stops.len() - 1;
                if self.cursor > last {
                    self.cursor = last;
                }
            },
        }
        self.scroll_to_cursor();
    }

    /// The identity of the cursor's row.
    fn cursor_row(&self) -> (path: Option<RowPath>)
        ensures
            rows::path_model(path) == row_of_cursor(self@),
    {
        if self.cursor < self.paths.len() {
            assert(self@.shown.paths[self.cursor as int] == rows::path_model(
                self.paths@[self.cursor as int],
            ));
            match &self.paths[self.cursor] {
                Some(path) => Some(path.clone()),
                None => None,
            }
        } else {
            None
        }
    }

    /// The stop that shows the row `path`.
    fn find_row(&self, path: &RowPath) -> (at: Option<usize>)
        ensures
            match at {
                Some(i) => row_at(self@.shown.paths, path@, 0) == Some(i as int),
                None => row_at(self@.shown.paths, path@, 0) is None,
            },
    {
        let mut i: usize = 0;
        while i < self.paths.len()
            invariant
                i <= self.paths@.len(),
                row_at(self@.shown.paths, path@, 0) == row_at(
                    self@.shown.paths,
                    path@,
                    i as int,
                ),
            decreases self.paths.len() - i,
        {
            assert(self@.shown.paths[i as int] == rows::path_model(self.paths@[i as int]));
            if let Some(listed) = &self.paths[i] {
                if listed.same(path) {
                    return Some(i);
                }
            }
            i = i + 1;
        }
        None
    }

    /// `Tab`: toggles the cursor row's expansion. Returns a footer notice when
    /// there is nothing to expand.
    pub fn toggle_expand(&mut self) -> (notice: Option<String>)
        requires
            in_sync(old(self)@),
        ensures
            final(self)@ == expand_toggled(old(self)@),
            in_sync(final(self)@),
            match notice {
                Some(words) => !can_toggle_expand(old(self)@) && words@
                    == " nothing to expand here "@,
                None => can_toggle_expand(old(self)@),
            },
    {
        let on = self.cursor < self.expandable.len() && self.expandable[self.cursor];
        match self.cursor_row() {
            Some(path) => if on {
                self.expanded.toggle(path);
                self.rerender();
                return None;
            },
            None => {},
        }
        Some(" nothing to expand here ".to_owned())
    }

    /// `gr`: toggles the cursor row's used-by list. Returns a footer notice
    /// when nothing references the item.
    pub fn toggle_usages(&mut self) -> (notice: Option<String>)
        requires
            in_sync(old(self)@),
        ensures
            final(self)@ == usages_toggled(old(self)@),
            in_sync(final(self)@),
            match notice {
                Some(words) => !can_toggle_usages(old(self)@) && words@
                    == " nothing references this item "@,
                None => can_toggle_usages(old(self)@),
            },
    {
        let on = self.cursor < self.referenced.len() && self.referenced[self.cursor];
        match self.cursor_row() {
            Some(path) => if on {
                self.usages_open.toggle(path);
                self.rerender();
                return None;
            },
            None => {},
        }
        Some(" nothing references this item ".to_owned())
    }

    /// Where the cursor's stop leads, if anywhere.
    pub fn current_jump(&self) -> (target: Option<&JumpTarget>)
        ensures
            match target {
                Some(found) => jump_of_cursor(self@) == Some(found@),
                None => jump_of_cursor(self@) is None,
            },
    {
        if self.cursor < self.jumps.len() {
            assert(self@.shown.jumps[self.cursor as int] == rows::jump_model(
                self.jumps@[self.cursor as int],
            ));
            match &self.jumps[self.cursor] {
                Some(target) => Some(target),
                None => None,
            }
        } else {
            None
        }
    }

    /// Largest valid top-line index: enough to bring the final line into
    /// view, and no further. Zero when everything already fits.
    pub fn max_scroll(&self) -> (top: u16)
        ensures
            top == farthest(self@),
    {
        let total = view::number_of(self.lines.len());
        total.saturating_sub(self.viewport_height)
    }

    /// The display line the cursor currently sits on.
    pub fn cursor_line(&self) -> (line: u16)
        ensures
            line == line_of_cursor(self@),
    {
        if self.cursor < self.stops.len() {
            self.stops[self.cursor]
        } else {
            0
        }
    }

    /// Half a viewport, at least one.
    pub fn half_page(&self) -> (n: usize)
        ensures
            n == most(self@.height / 2, 1),
    {
        let half: u16 = self.viewport_height / 2;
        if half > 1 {
            half as usize
        } else {
            1
        }
    }

    /// A viewport, at least one.
    pub fn page(&self) -> (n: usize)
        ensures
            n == most(self@.height, 1),
    {
        if self.viewport_height > 1 {
            self.viewport_height as usize
        } else {
            1
        }
    }

    /// Moves the cursor and the viewport as the motion says.
    pub fn apply(&mut self, motion: Motion)
        ensures
            final(self)@ == applied(old(self)@, motion),
    {
        match motion {
            Motion::Down(n) => self.cursor_down(n),
            Motion::Up(n) => self.cursor_up(n),
            Motion::First(n) => self.goto_item(n, false),
            Motion::Last(n) => self.goto_item(n, true),
            Motion::HalfPageDown => {
                let n: usize = self.half_page();
                self.cursor_down(n)
            },
            Motion::HalfPageUp => {
                let n: usize = self.half_page();
                self.cursor_up(n)
            },
            Motion::PageDown => {
                let n: usize = self.page();
                self.cursor_down(n)
            },
            Motion::PageUp => {
                let n: usize = self.page();
                self.cursor_up(n)
            },
            Motion::CursorHigh => self.cursor_to_viewport(ViewSpot::Top),
            Motion::CursorMiddle => self.cursor_to_viewport(ViewSpot::Middle),
            Motion::CursorLow => self.cursor_to_viewport(ViewSpot::Bottom),
            Motion::ViewTop => self.scroll_cursor_to(ViewSpot::Top),
            Motion::ViewCenter => self.scroll_cursor_to(ViewSpot::Middle),
            Motion::ViewBottom => self.scroll_cursor_to(ViewSpot::Bottom),
            Motion::NextMatch => self.next_match(),
            Motion::PrevMatch => self.prev_match(),
            Motion::PrevFile(n) => self.prev_file(n),
            Motion::NextFile(n) => self.next_file(n),
            // Unfolds, Open, and Quit are handled by the session: they either
            // re-render or act outside the pane.
            Motion::Expand | Motion::Usages | Motion::Open | Motion::Quit => {},
        }
    }

    /// `j`: `n` stops down, at most to the last.
    pub fn cursor_down(&mut self, n: usize)
        ensures
            final(self)@ == down(old(self)@, n as int),
    {
        if self.stops.len() == 0 {
            return;
        }
        let last: usize = self.stops.len() - 1;
        let to: usize = self.cursor.saturating_add(n);
        self.cursor = if to > last {
            last
        } else {
            to
        };
        self.scroll_to_cursor();
    }

    /// `k`: `n` stops up, at most to the first.
    pub fn cursor_up(&mut self, n: usize)
        ensures
            final(self)@ == up(old(self)@, n as int),
    {
        self.cursor = self.cursor.saturating_sub(n);
        self.scroll_to_cursor();
    }

    /// `gg` / `G`, with or without an explicit 1-based item count. With no
    /// count, `last_if_none` picks the end (`G`) over the start (`gg`).
    pub fn goto_item(&mut self, n: Option<usize>, last_if_none: bool)
        ensures
            final(self)@ == at_item(old(self)@, n, last_if_none),
    {
        if self.stops.len() == 0 {
            return;
        }
        let last: usize = self.stops.len() - 1;
        self.cursor = match n {
            Some(k) => {
                let to: usize = k.saturating_sub(1);
                if to > last {
                    last
                } else {
                    to
                }
            },
            None => if last_if_none {
                last
            } else {
                0
            },
        };
        self.scroll_to_cursor();
    }

    /// Slides the viewport the minimum needed to keep the cursor visible, then
    /// clamps so it never scrolls past the last line.
    pub fn scroll_to_cursor(&mut self)
        ensures
            final(self)@ == followed(old(self)@),
    {
        let line: u16 = self.cursor_line();
        if line < self.scroll {
            self.scroll = line;
        } else if self.viewport_height > 0 && line as u32 >= self.scroll as u32
            + self.viewport_height as u32 {
            self.scroll = line - self.viewport_height + 1;
        }
        let far: u16 = self.max_scroll();
        if self.scroll > far {
            self.scroll = far;
        }
    }

    /// The first and last stop indices currently visible in the viewport.
    /// `None` only when none is.
    pub fn visible_stops(&self) -> (ends: Option<(usize, usize)>)
        ensures
            match ends {
                Some((first, last)) => first_visible(self@, 0) == Some(first as int)
                    && last_visible(self@, self@.shown.stops.len() as int) == Some(last as int)
                    && first <= last < self@.shown.stops.len(),
                None => first_visible(self@, 0) is None,
            },
    {
        let bottom: u16 = self.scroll.saturating_add(self.viewport_height);
        let mut i: usize = 0;
        while i < self.stops.len()
            invariant
                i <= self.stops@.len(),
                bottom == least(self@.scroll + self@.height, u16::MAX as int),
                first_visible(self@, 0) == first_visible(self@, i as int),
            decreases self.stops.len() - i,
        {
            if self.stops[i] >= self.scroll && self.stops[i] < bottom {
                assert(visible(self@, i as int));
                let mut n: usize = self.stops.len();
                while n > i + 1
                    invariant
                        i < n <= self.stops@.len(),
                        visible(self@, i as int),
                        first_visible(self@, 0) == Some(i as int),
                        bottom == least(self@.scroll + self@.height, u16::MAX as int),
                        last_visible(self@, self@.shown.stops.len() as int) == last_visible(
                            self@,
                            n as int,
                        ),
                    decreases n,
                {
                    if self.stops[n - 1] >= self.scroll && self.stops[n - 1] < bottom {
                        return Some((i, n - 1));
                    }
                    n = n - 1;
                }
                return Some((i, i));
            }
            i = i + 1;
        }
        None
    }

    /// `H` / `M` / `L`: move the cursor to the top, middle, or bottom item of
    /// the current viewport without moving the view.
    pub fn cursor_to_viewport(&mut self, spot: ViewSpot)
        ensures
            final(self)@ == at_spot(old(self)@, spot),
    {
        if let Some((first, last)) = self.visible_stops() {
            self.cursor = match spot {
                ViewSpot::Top => first,
                ViewSpot::Middle => first + (last - first) / 2,
                ViewSpot::Bottom => last,
            };
            self.scroll_to_cursor();
        }
    }

    /// Recomputes the set of matching stops for `query` (case-insensitive
    /// substring over the rendered row text) and jumps the cursor to the first
    /// match at or after its current position, wrapping if needed. An empty
    /// query clears any existing matches.
    pub fn search(&mut self, query: &str)
        requires
            view::aligned(old(self)@.shown),
        ensures
            final(self)@ == searched(old(self)@, query@),
    {
        if query.is_empty() {
            self.matches = Vec::new();
            assert(self@.matches =~= seq![]);
            return;
        }
        let needle = query.to_lowercase();
        self.matches = self.find_hits(needle.as_str());
        if self.matches.len() > 0 {
            self.cursor = first_from(&self.matches, self.cursor);
            self.scroll_to_cursor();
        }
    }

    /// The stops whose row contains `needle`.
    fn find_hits(&self, needle: &str) -> (found: Vec<usize>)
        requires
            view::aligned(self@.shown),
        ensures
            found@ == hits(self@, needle@, self@.shown.stops.len() as int),
    {
        let mut found: Vec<usize> = Vec::new();
        let mut i: usize = 0;
        assert(found@ =~= seq![]);
        while i < self.stops.len()
            invariant
                view::aligned(self@.shown),
                i <= self.stops@.len(),
                found@ == hits(self@, needle@, i as int),
            decreases self.stops.len() - i,
        {
            let line: usize = self.stops[i] as usize;
            assert(self@.shown.stops[i as int] < self@.shown.lines.len());
            let row = style::line_text(&self.lines[line]);
            assert(self@.shown.lines[line as int] == self.lines@[line as int]@);
            if text::contains(row.as_str().to_lowercase().as_str(), needle) {
                found.push(i);
            }
            i = i + 1;
        }
        found
    }

    /// `zt` / `zz` / `zb`: scroll so the cursor's item sits at the top,
    /// center, or bottom of the viewport, without moving the cursor. Clamped
    /// so the view never runs past either end.
    pub fn scroll_cursor_to(&mut self, spot: ViewSpot)
        ensures
            final(self)@ == scrolled_to(old(self)@, spot),
    {
        let line: u16 = self.cursor_line();
        let offset: u16 = match spot {
            ViewSpot::Top => 0,
            ViewSpot::Middle => self.viewport_height / 2,
            ViewSpot::Bottom => self.viewport_height.saturating_sub(1),
        };
        let top: u16 = line.saturating_sub(offset);
        let far: u16 = self.max_scroll();
        self.scroll = if top > far {
            far
        } else {
            top
        };
    }

    /// `{`: the `n`-th file header strictly before the cursor, saturating at
    /// the first.
    pub fn prev_file(&mut self, n: usize)
        ensures
            final(self)@ == at_prev_file(old(self)@, n as int),
    {
        let mut before: usize = 0;
        let mut i: usize = 0;
        while i < self.headers.len()
            invariant
                i <= self.headers@.len(),
                before <= i,
                before == headers_before(self@, i as int),
            decreases self.headers.len() - i,
        {
            if self.headers[i] < self.cursor {
                before = before + 1;
            }
            i = i + 1;
        }
        if before == 0 && n > 0 {
            return;
        }
        let at: usize = before.saturating_sub(n);
        if at < self.headers.len() {
            self.cursor = self.headers[at];
            self.scroll_to_cursor();
        }
    }

    /// `}`: the `n`-th file header strictly after the cursor, saturating at
    /// the last.
    pub fn next_file(&mut self, n: usize)
        ensures
            final(self)@ == at_next_file(old(self)@, n as int),
    {
        if self.headers.len() == 0 {
            return;
        }
        let mut after: Vec<usize> = Vec::new();
        let mut i: usize = 0;
        assert(after@ =~= seq![]);
        while i < self.headers.len()
            invariant
                i <= self.headers@.len(),
                after@ == headers_after(self@, i as int),
            decreases self.headers.len() - i,
        {
            if self.headers[i] > self.cursor {
                after.push(self.headers[i]);
            }
            i = i + 1;
        }
        let nth: usize = n.saturating_sub(1);
        let target: usize = if nth < after.len() {
            after[nth]
        } else {
            self.headers[self.headers.len() - 1]
        };
        if target > self.cursor {
            self.cursor = target;
            self.scroll_to_cursor();
        }
    }

    /// `n`: the next match, wrapping around.
    pub fn next_match(&mut self)
        ensures
            final(self)@ == at_next_match(old(self)@),
    {
        if self.matches.len() == 0 {
            return;
        }
        if self.cursor == usize::MAX {
            proof {
                lemma_none_beyond(self.matches@, 0);
            }
            self.cursor = self.matches[0];
        } else {
            self.cursor = first_from(&self.matches, self.cursor + 1);
        }
        self.scroll_to_cursor();
    }

    /// `N`: the previous match, wrapping around.
    pub fn prev_match(&mut self)
        ensures
            final(self)@ == at_prev_match(old(self)@),
    {
        if self.matches.len() == 0 {
            return;
        }
        self.cursor = last_before(&self.matches, self.cursor);
        self.scroll_to_cursor();
    }
}

/// No index lies beyond the largest number.
proof fn lemma_none_beyond(stops: Seq<usize>, i: int)
    requires
        0 <= i,
    ensures
        first_at_least(stops, usize::MAX + 1, i) is None,
    decreases stops.len() - i,
{
    if i < stops.len() {
        lemma_none_beyond(stops, i + 1);
    }
}

/// The first of `stops` that is at least `low`, or else the first.
fn first_from(stops: &Vec<usize>, low: usize) -> (stop: usize)
    requires
        stops@.len() > 0,
    ensures
        stop == wrapped_from(stops@, low as int),
{
    let mut i: usize = 0;
    while i < stops.len()
        invariant
            i <= stops@.len(),
            first_at_least(stops@, low as int, 0) == first_at_least(stops@, low as int, i as int),
        decreases stops.len() - i,
    {
        if stops[i] >= low {
            return stops[i];
        }
        i = i + 1;
    }
    stops[0]
}

/// The last of `stops` that is below `high`, or else the last.
fn last_before(stops: &Vec<usize>, high: usize) -> (stop: usize)
    requires
        stops@.len() > 0,
    ensures
        stop == wrapped_before(stops@, high as int),
{
    let mut n: usize = stops.len();
    while n > 0
        invariant
            n <= stops@.len(),
            last_below(stops@, high as int, stops@.len() as int) == last_below(
                stops@,
                high as int,
                n as int,
            ),
        decreases n,
    {
        if stops[n - 1] < high {
            return stops[n - 1];
        }
        n = n - 1;
    }
    stops[stops.len() - 1]
}

/// Copies a review.
fn clone_review(review: &[FileChange]) -> (copy: Vec<FileChange>)
    ensures
        item::views(copy@) == item::views(review@),
{
    let mut out: Vec<FileChange> = Vec::new();
    let mut i: usize = 0;
    while i < review.len()
        invariant
            i <= review@.len(),
            item::views(out@) == item::views(review@).take(i as int),
        decreases review.len() - i,
    {
        let copied = review[i].clone();
        proof {
            item::lemma_views_push(out@, copied);
        }
        out.push(copied);
        i = i + 1;
        assert(item::views(out@) =~= item::views(review@).take(i as int));
    }
    assert(item::views(review@).take(i as int) =~= item::views(review@));
    out
}

} // verus!
