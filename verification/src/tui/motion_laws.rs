//! Where each motion takes the cursor and the view.

use vstd::prelude::*;

use crate::changes;
use crate::index;
use crate::item;
use crate::text;
use crate::tui::input::Motion;
use crate::tui::pane::{self, AppModel, ViewSpot};
use crate::tui::rows;
use crate::tui::rows_laws;
use crate::tui::style;
use crate::tui::summary;
use crate::tui::view;

verus! {

/// Whether numbers go up.
pub open spec fn ascending(stops: Seq<usize>) -> bool {
    forall|i: int, j: int|
        0 <= i < j < stops.len() ==> (#[trigger] stops[i]) < (#[trigger] stops[j])
}

/// Whether `at` is the nearest of `stops` before `cursor`: it lies before it,
/// and no other lies between.
pub open spec fn nearest_before(stops: Seq<usize>, cursor: int, at: int) -> bool {
    &&& exists|m: int| 0 <= m < stops.len() && #[trigger] stops[m] == at
    &&& at < cursor
    &&& forall|m: int| 0 <= m < stops.len() ==> !(at < (#[trigger] stops[m]) < cursor)
}

/// Whether `at` is the nearest of `stops` after `cursor`: it lies after it, and
/// no other lies between.
pub open spec fn nearest_after(stops: Seq<usize>, cursor: int, at: int) -> bool {
    &&& exists|m: int| 0 <= m < stops.len() && #[trigger] stops[m] == at
    &&& cursor < at
    &&& forall|m: int| 0 <= m < stops.len() ==> !(cursor < (#[trigger] stops[m]) < at)
}

/// Whether `at` is the greatest of `stops`.
pub open spec fn greatest(stops: Seq<usize>, at: int) -> bool {
    &&& exists|m: int| 0 <= m < stops.len() && #[trigger] stops[m] == at
    &&& forall|m: int| 0 <= m < stops.len() ==> (#[trigger] stops[m]) <= at
}

/// Whether `at` is the least of `stops`.
pub open spec fn smallest(stops: Seq<usize>, at: int) -> bool {
    &&& exists|m: int| 0 <= m < stops.len() && #[trigger] stops[m] == at
    &&& forall|m: int| 0 <= m < stops.len() ==> at <= (#[trigger] stops[m])
}

/// The last of the first `n` below a bound is below it, and nothing between
/// them is among the first `n`.
proof fn lemma_last_below(stops: Seq<usize>, high: int, n: int)
    requires
        ascending(stops),
        0 <= n <= stops.len(),
    ensures
        match pane::last_below(stops, high, n) {
            Some(at) => at < high && (exists|m: int| 0 <= m < n && #[trigger] stops[m] == at)
                && forall|m: int| 0 <= m < n ==> !(at < (#[trigger] stops[m]) < high),
            None => forall|m: int| 0 <= m < n ==> (#[trigger] stops[m]) >= high,
        },
    decreases n,
{
    if n > 0 {
        lemma_last_below(stops, high, n - 1);
        if stops[n - 1] < high {
            assert forall|m: int| 0 <= m < n implies !(stops[n - 1] < (#[trigger] stops[m])
                < high) by {
                if m < n - 1 {
                    assert(stops[m] < stops[n - 1]);
                }
            }
        }
    }
}

/// The first from `i` on at or above a bound is so, and nothing before it is.
proof fn lemma_first_at_least(stops: Seq<usize>, low: int, i: int)
    requires
        ascending(stops),
        0 <= i <= stops.len(),
    ensures
        match pane::first_at_least(stops, low, i) {
            Some(at) => low <= at && (exists|m: int|
                i <= m < stops.len() && #[trigger] stops[m] == at) && forall|m: int|
                i <= m < stops.len() ==> !(low <= (#[trigger] stops[m]) < at),
            None => forall|m: int| i <= m < stops.len() ==> (#[trigger] stops[m]) < low,
        },
    decreases stops.len() - i,
{
    if i < stops.len() {
        lemma_first_at_least(stops, low, i + 1);
        if stops[i] >= low {
            assert forall|m: int| i <= m < stops.len() implies !(low <= (#[trigger] stops[m])
                < stops[i]) by {
                if i < m {
                    assert(stops[i] < stops[m]);
                }
            }
        }
    }
}

/// `N` goes to the nearest match before the cursor; if there is none there, to
/// the last of all; and stays put if nothing matched.
pub proof fn law_previous_match_is_the_nearest_before(app: AppModel)
    requires
        ascending(app.matches),
    ensures
        ({
            let cursor = pane::applied(app, Motion::PrevMatch).cursor;
            if app.matches.len() == 0 {
                cursor == app.cursor
            } else if exists|m: int|
                0 <= m < app.matches.len() && (#[trigger] app.matches[m]) < app.cursor {
                nearest_before(app.matches, app.cursor, cursor)
            } else {
                greatest(app.matches, cursor)
            }
        }),
{
    if app.matches.len() > 0 {
        lemma_last_below(app.matches, app.cursor, app.matches.len() as int);
        assert(app.matches[app.matches.len() - 1] == app.matches.last());
    }
}

/// `n` goes to the nearest match after the cursor; if there is none there, to
/// the first of all; and stays put if nothing matched.
pub proof fn law_next_match_is_the_nearest_after(app: AppModel)
    requires
        ascending(app.matches),
    ensures
        ({
            let cursor = pane::applied(app, Motion::NextMatch).cursor;
            if app.matches.len() == 0 {
                cursor == app.cursor
            } else if exists|m: int|
                0 <= m < app.matches.len() && (#[trigger] app.matches[m]) > app.cursor {
                nearest_after(app.matches, app.cursor, cursor)
            } else {
                smallest(app.matches, cursor)
            }
        }),
{
    if app.matches.len() > 0 {
        lemma_first_at_least(app.matches, app.cursor + 1, 0);
        assert(app.matches[0] == app.matches[0]);
        let cursor = pane::applied(app, Motion::NextMatch).cursor;
        if exists|m: int|
            0 <= m < app.matches.len() && (#[trigger] app.matches[m]) > app.cursor {
            assert forall|m: int| 0 <= m < app.matches.len() implies !(app.cursor < (
            #[trigger] app.matches[m]) < cursor) by {
            }
        }
    }
}

/// A committed search goes to the nearest match at or after the cursor; if there
/// is none there, to the first of all. A row matches exactly if its text, styles
/// and letter case aside, contains the query. An empty query clears the matches
/// and moves nothing.
pub proof fn law_search_goes_to_the_nearest_match(app: AppModel, query: Seq<char>)
    requires
        app.shown.stops.len() <= usize::MAX,
    ensures
        ({
            let found = pane::searched(app, query);
            &&& query.len() == 0 ==> found.matches.len() == 0 && found.cursor == app.cursor
            &&& query.len() > 0 ==> {
                &&& forall|i: int|
                    0 <= i < app.shown.stops.len() ==> (found.matches.contains(i as usize)
                        <==> holds(
                        text::lowered(
                            style::spans_text(
                                app.shown.lines[#[trigger] app.shown.stops[i] as int].spans,
                            ),
                        ),
                        text::lowered(query),
                    ))
                &&& forall|k: int|
                    0 <= k < found.matches.len() ==> (#[trigger] found.matches[k])
                        < app.shown.stops.len()
                &&& ascending(found.matches)
                &&& if found.matches.len() == 0 {
                    found.cursor == app.cursor
                } else if exists|m: int|
                    0 <= m < found.matches.len() && (#[trigger] found.matches[m]) >= app.cursor {
                    nearest_after(found.matches, app.cursor - 1, found.cursor)
                } else {
                    smallest(found.matches, found.cursor)
                }
            }
        }),
{
    if query.len() > 0 {
        let needle = text::lowered(query);
        let n = app.shown.stops.len() as int;
        lemma_hits(app, needle, n);
        let found = pane::hits(app, needle, n);
        if found.len() > 0 {
            lemma_first_at_least(found, app.cursor, 0);
            assert(found[0] == found[0]);
        }
        assert forall|i: int| 0 <= i < n implies (pane::searched(app, query).matches.contains(
            i as usize,
        ) <==> holds(
            text::lowered(
                style::spans_text(app.shown.lines[#[trigger] app.shown.stops[i] as int].spans),
            ),
            needle,
        )) by {
            lemma_holds(
                text::lowered(
                    style::spans_text(app.shown.lines[app.shown.stops[i] as int].spans),
                ),
                needle,
            );
            assert(pane::hit(app, needle, i) <==> found.contains(i as usize));
        }
    }
}

/// Whether a text contains another.
pub open spec fn holds(hay: Seq<char>, needle: Seq<char>) -> bool {
    exists|before: Seq<char>, after: Seq<char>| hay == #[trigger] (before + needle + after)
}

/// A text occurs where it stands between two others.
proof fn lemma_holds(hay: Seq<char>, needle: Seq<char>)
    ensures
        text::occurs(hay, needle) <==> holds(hay, needle),
{
    if text::occurs(hay, needle) {
        let at = choose|at: int| text::occurs_at(hay, needle, at);
        let before = hay.take(at);
        let after = hay.skip(at + needle.len());
        assert(hay =~= before + needle + after);
    }
    if holds(hay, needle) {
        let (before, after) = choose|before: Seq<char>, after: Seq<char>|
            hay == #[trigger] (before + needle + after);
        assert(hay.subrange(before.len() as int, before.len() as int + needle.len()) =~= needle);
        assert(text::occurs_at(hay, needle, before.len() as int));
    }
}

/// The matches among the first `n` stops.
proof fn lemma_hits(app: AppModel, needle: Seq<char>, n: int)
    requires
        0 <= n <= app.shown.stops.len() <= usize::MAX,
    ensures
        ascending(pane::hits(app, needle, n)),
        forall|k: int|
            0 <= k < pane::hits(app, needle, n).len() ==> (#[trigger] pane::hits(app, needle, n)[k])
                < n,
        forall|i: int|
            0 <= i < n ==> (#[trigger] pane::hit(app, needle, i) <==> pane::hits(
                app,
                needle,
                n,
            ).contains(i as usize)),
    decreases n,
{
    if n > 0 {
        lemma_hits(app, needle, n - 1);
        let before = pane::hits(app, needle, n - 1);
        let now = pane::hits(app, needle, n);
        assert forall|i: int| 0 <= i < n implies (#[trigger] pane::hit(app, needle, i)
            <==> now.contains(i as usize)) by {
            if before.contains(i as usize) {
                let k = choose|k: int| 0 <= k < before.len() && before[k] == i as usize;
                assert(now[k] == i as usize);
            }
            if now.contains(i as usize) {
                let k = choose|k: int| 0 <= k < now.len() && now[k] == i as usize;
                if k < before.len() {
                    assert(before[k] == i as usize);
                }
            }
            if i == n - 1 && pane::hit(app, needle, i) {
                assert(now[before.len() as int] == i as usize);
            }
        }
    }
}

/// `j` and `k` go as many stops down or up as they are told, as far as there are
/// stops.
pub proof fn law_steps_go_as_far_as_told(app: AppModel, n: usize)
    requires
        0 <= app.cursor < app.shown.stops.len(),
    ensures
        ({
            let down = pane::applied(app, Motion::Down(n)).cursor;
            let up = pane::applied(app, Motion::Up(n)).cursor;
            &&& app.cursor + n < app.shown.stops.len() ==> down == app.cursor + n
            &&& app.cursor + n >= app.shown.stops.len() ==> down == app.shown.stops.len() - 1
            &&& app.cursor - n >= 0 ==> up == app.cursor - n
            &&& app.cursor - n < 0 ==> up == 0
        }),
{
}

/// A page is as many stops as the view has lines, half a page half as many, and
/// neither less than one; paging goes as far as so many steps.
pub proof fn law_pages_are_steps(app: AppModel, half: usize, whole: usize)
    requires
        0 <= app.height,
        half == app.height / 2 || app.height < 2 && half == 1,
        half > 0,
        whole == app.height || app.height == 0 && whole == 1,
        whole > 0,
    ensures
        pane::applied(app, Motion::HalfPageDown) == pane::applied(app, Motion::Down(half)),
        pane::applied(app, Motion::HalfPageUp) == pane::applied(app, Motion::Up(half)),
        pane::applied(app, Motion::PageDown) == pane::applied(app, Motion::Down(whole)),
        pane::applied(app, Motion::PageUp) == pane::applied(app, Motion::Up(whole)),
{
}

/// `gg` goes to the first stop and `G` to the last; with a count both go to the
/// stop of that number, counted from one, or to the last if there are fewer.
pub proof fn law_counted_stops_are_reached(app: AppModel, n: usize)
    requires
        0 < app.shown.stops.len(),
    ensures
        pane::applied(app, Motion::First(None)).cursor == 0,
        pane::applied(app, Motion::Last(None)).cursor == app.shown.stops.len() - 1,
        pane::applied(app, Motion::First(Some(n))) == pane::applied(app, Motion::Last(Some(n))),
        0 < n <= app.shown.stops.len() ==> pane::applied(app, Motion::First(Some(n))).cursor == n
            - 1,
        n > app.shown.stops.len() ==> pane::applied(app, Motion::First(Some(n))).cursor
            == app.shown.stops.len() - 1,
        n == 0 ==> pane::applied(app, Motion::First(Some(n))).cursor == 0,
{
}

/// The view follows the cursor no further than it has to: not at all if the
/// cursor is on screen, up until it is on the first line, down until it is on
/// the last.
pub proof fn law_view_follows_no_further_than_needed(app: AppModel)
    requires
        view::aligned(app.shown),
        app.shown.lines.len() <= u16::MAX,
        0 < app.height,
        0 <= app.scroll,
        app.scroll + app.height <= app.shown.lines.len() || app.scroll == 0,
        0 <= app.cursor < app.shown.stops.len(),
    ensures
        ({
            let line = app.shown.stops[app.cursor] as int;
            let scroll = pane::followed(app).scroll;
            &&& app.scroll <= line < app.scroll + app.height ==> scroll == app.scroll
            &&& line < app.scroll ==> scroll == line
            &&& line >= app.scroll + app.height ==> scroll + app.height - 1 == line
        }),
{
    assert(app.shown.stops[app.cursor] < app.shown.lines.len());
}

/// The view can be moved down until its last line is the last of all, and no
/// further; not at all if everything fits.
pub proof fn law_view_ends_with_the_last_line(app: AppModel)
    requires
        app.shown.lines.len() <= u16::MAX,
        0 <= app.height,
    ensures
        app.shown.lines.len() <= app.height ==> pane::farthest(app) == 0,
        app.shown.lines.len() >= app.height ==> pane::farthest(app) + app.height
            == app.shown.lines.len(),
{
}

/// `zt`, `zz` and `zb` put the cursor's line first, in the middle, and last on
/// screen, as far as the ends allow.
pub proof fn law_view_is_put_around_the_cursor(app: AppModel)
    requires
        view::aligned(app.shown),
        app.shown.lines.len() <= u16::MAX,
        0 < app.height,
        0 <= app.cursor < app.shown.stops.len(),
    ensures
        ({
            let line = app.shown.stops[app.cursor] as int;
            let last = app.shown.lines.len() - app.height;
            let top = pane::applied(app, Motion::ViewTop).scroll;
            let middle = pane::applied(app, Motion::ViewCenter).scroll;
            let bottom = pane::applied(app, Motion::ViewBottom).scroll;
            &&& line <= last ==> top == line
            &&& line > last ==> top == (if last > 0 { last } else { 0 })
            &&& 0 <= line - app.height / 2 <= last ==> line - middle == app.height / 2
            &&& line - app.height / 2 < 0 ==> middle == 0
            &&& line - app.height / 2 > last && last >= 0 ==> middle == last
            &&& line - (app.height - 1) >= 0 && last >= 0 ==> bottom + app.height - 1 == line
            &&& line - (app.height - 1) < 0 ==> bottom == 0
        }),
{
    assert(app.shown.stops[app.cursor] < app.shown.lines.len());
}

/// A stop is on screen exactly if its line is: not above the first line shown,
/// and less than a screen below it.
pub proof fn law_visible_stops_are_on_screen(app: AppModel, i: int)
    requires
        0 <= i < app.shown.stops.len(),
        app.scroll + app.height <= u16::MAX,
    ensures
        pane::visible(app, i) <==> app.scroll <= app.shown.stops[i] < app.scroll + app.height,
{
}

/// `M` goes halfway between where `H` and `L` go.
pub proof fn law_middle_is_halfway(app: AppModel)
    ensures
        ({
            let high = pane::applied(app, Motion::CursorHigh).cursor;
            let low = pane::applied(app, Motion::CursorLow).cursor;
            let middle = pane::applied(app, Motion::CursorMiddle).cursor;
            high <= low ==> high <= middle <= low && (middle - high == low - middle || low - middle
                == middle - high + 1)
        }),
{
}

/// How many headers lie before the cursor.
proof fn lemma_before(app: AppModel, n: int)
    requires
        ascending(app.shown.headers),
        0 <= n <= app.shown.headers.len(),
    ensures
        pane::headers_before(app, n) <= n,
        forall|h: int|
            0 <= h < n ==> ((#[trigger] app.shown.headers[h]) < app.cursor <==> h
                < pane::headers_before(app, n)),
    decreases n,
{
    if n > 0 {
        lemma_before(app, n - 1);
        let before = pane::headers_before(app, n - 1);
        if app.shown.headers[n - 1] < app.cursor && before < n - 1 {
            assert(app.shown.headers[before as int] < app.shown.headers[n - 1]);
            assert(false);
        }
    }
}

/// `{` goes to the nearest file header before the cursor, and stays put if
/// there is none.
pub proof fn law_previous_file_is_the_nearest_before(app: AppModel)
    requires
        ascending(app.shown.headers),
    ensures
        ({
            let cursor = pane::applied(app, Motion::PrevFile(1)).cursor;
            if exists|h: int|
                0 <= h < app.shown.headers.len() && (#[trigger] app.shown.headers[h])
                    < app.cursor {
                nearest_before(app.shown.headers, app.cursor, cursor)
            } else {
                cursor == app.cursor
            }
        }),
{
    let headers = app.shown.headers;
    let n = headers.len() as int;
    lemma_before(app, n);
    let before = pane::headers_before(app, n);
    if before > 0 {
        let at = headers[before - 1] as int;
        assert(headers[before - 1] < app.cursor);
        assert forall|m: int| 0 <= m < n implies !(at < (#[trigger] headers[m]) < app.cursor) by {
            if m < before - 1 {
                assert(headers[m] < headers[before - 1]);
            }
        }
    }
}

/// `{` with a count is as many hops one after the other.
pub proof fn law_hops_up_add_up(app: AppModel, n: usize)
    requires
        ascending(app.shown.headers),
        0 < n < usize::MAX,
    ensures
        pane::applied(app, Motion::PrevFile((n + 1) as usize)).cursor == pane::applied(
            pane::applied(app, Motion::PrevFile(n)),
            Motion::PrevFile(1),
        ).cursor,
{
    let headers = app.shown.headers;
    let count = headers.len() as int;
    let once = pane::applied(app, Motion::PrevFile(n));
    lemma_before(app, count);
    lemma_before(once, count);
    let before = pane::headers_before(app, count);
    let then = pane::headers_before(once, count);
    if before > 0 {
        let at = pane::minus(before as int, n as int);
        assert(once.cursor == headers[at]);
        if then > at {
            assert(headers[at] < once.cursor);
        }
        if then < at {
            assert(headers[then as int] < headers[at]);
        }
        assert(then == at);
    }
}

/// The headers after the cursor are those from some header on.
proof fn lemma_after(app: AppModel, n: int) -> (first: int)
    requires
        ascending(app.shown.headers),
        0 <= n <= app.shown.headers.len(),
    ensures
        0 <= first <= n,
        pane::headers_after(app, n) == app.shown.headers.subrange(first, n),
        forall|h: int|
            0 <= h < n ==> ((#[trigger] app.shown.headers[h]) > app.cursor <==> h >= first),
    decreases n,
{
    let headers = app.shown.headers;
    if n <= 0 {
        assert(headers.subrange(0, 0) =~= seq![]);
        0
    } else {
        let first = lemma_after(app, n - 1);
        if headers[n - 1] > app.cursor {
            assert(headers.subrange(first, n) =~= headers.subrange(first, n - 1).push(
                headers[n - 1],
            ));
            first
        } else {
            if first < n - 1 {
                assert(headers[first] < headers[n - 1]);
                assert(false);
            }
            assert(headers.subrange(n, n) =~= seq![]);
            assert(headers.subrange(first, n - 1) =~= seq![]);
            n
        }
    }
}

/// `}` goes to the nearest file header after the cursor, and stays put if there
/// is none.
pub proof fn law_next_file_is_the_nearest_after(app: AppModel)
    requires
        ascending(app.shown.headers),
    ensures
        ({
            let cursor = pane::applied(app, Motion::NextFile(1)).cursor;
            if exists|h: int|
                0 <= h < app.shown.headers.len() && (#[trigger] app.shown.headers[h])
                    > app.cursor {
                nearest_after(app.shown.headers, app.cursor, cursor)
            } else {
                cursor == app.cursor
            }
        }),
{
    let headers = app.shown.headers;
    let n = headers.len() as int;
    let first = lemma_after(app, n);
    if first < n {
        let at = headers[first] as int;
        assert(pane::headers_after(app, n)[0] == headers[first]);
        assert forall|m: int| 0 <= m < n implies !(app.cursor < (#[trigger] headers[m]) < at) by {
            if m > first {
                assert(headers[first] < headers[m]);
            }
        }
    } else if n > 0 {
        assert(headers[n - 1] == headers.last());
    }
}

/// `}` with a count is as many hops one after the other.
pub proof fn law_hops_down_add_up(app: AppModel, n: usize)
    requires
        ascending(app.shown.headers),
        0 < n < usize::MAX,
    ensures
        pane::applied(app, Motion::NextFile((n + 1) as usize)).cursor == pane::applied(
            pane::applied(app, Motion::NextFile(n)),
            Motion::NextFile(1),
        ).cursor,
{
    let headers = app.shown.headers;
    let count = headers.len() as int;
    let once = pane::applied(app, Motion::NextFile(n));
    let first = lemma_after(app, count);
    let then = lemma_after(once, count);
    if count > 0 {
        assert(headers[count - 1] == headers.last());
        let at = if first + n - 1 < count {
            first + n - 1
        } else {
            count - 1
        };
        if first < count {
            let after = pane::headers_after(app, count);
            assert(after.len() == count - first);
            if n - 1 < after.len() {
                assert(after[n - 1] == headers[first + n - 1]);
            }
            if n < after.len() {
                assert(after[n as int] == headers[first + n]);
            }
            assert(headers[at] >= headers[first]) by {
                if first < at {
                    assert(headers[first] < headers[at]);
                }
            }
            assert(once.cursor == headers[at]);
            if then <= at {
                assert(headers[at] > once.cursor);
            }
            if then > at + 1 {
                assert(headers[at] < headers[at + 1]);
                assert(!(headers[at + 1] > once.cursor));
            }
            assert(then == at + 1);
            if then < count {
                assert(pane::headers_after(once, count)[0] == headers[then]);
                assert(headers[at] < headers[then]);
            }
        } else {
            assert(headers[count - 1] <= app.cursor);
            assert(once.cursor == app.cursor);
        }
    }
}

/// Toggling a row puts it in if it was out, takes it out if it was in, and
/// leaves all others as they were.
pub proof fn law_toggling_flips_one_row(
    open: Set<Seq<item::IdModel>>,
    path: Seq<item::IdModel>,
    other: Seq<item::IdModel>,
)
    ensures
        rows::toggled(open, path).contains(path) <==> !open.contains(path),
        other != path ==> (rows::toggled(open, path).contains(other) <==> open.contains(other)),
{
}

/// On a row that is marked expandable, `Tab` opens or closes that row and no
/// other; on one that is marked referenced, `gr` does so for what uses it. What is
/// shown then is what the review looks like with those rows open.
pub proof fn law_marked_rows_unfold(app: AppModel, path: Seq<item::IdModel>)
    requires
        pane::in_sync(app),
        0 <= app.cursor < app.shown.stops.len(),
        app.shown.paths[app.cursor] == Some(path),
    ensures
        ({
            let tab = pane::expand_toggled(app);
            &&& app.shown.expandable[app.cursor] ==> {
                &&& tab.expanded.contains(path) <==> !app.expanded.contains(path)
                &&& forall|other: Seq<item::IdModel>|
                    other != path ==> (#[trigger] tab.expanded.contains(other)
                        <==> app.expanded.contains(other))
                &&& tab.usages_open == app.usages_open
                &&& tab.shown == view::rendered(
                    view::review_rows(app.review, rows_laws::context(tab)),
                )
            }
        }),
        ({
            let gr = pane::usages_toggled(app);
            &&& app.shown.referenced[app.cursor] ==> {
                &&& gr.usages_open.contains(path) <==> !app.usages_open.contains(path)
                &&& forall|other: Seq<item::IdModel>|
                    other != path ==> (#[trigger] gr.usages_open.contains(other)
                        <==> app.usages_open.contains(other))
                &&& gr.expanded == app.expanded
                &&& gr.shown == view::rendered(
                    view::review_rows(app.review, rows_laws::context(gr)),
                )
            }
        }),
{
}

/// What `Enter` opens is where the stop under the cursor leads.
pub proof fn law_opening_follows_the_cursor(app: AppModel)
    requires
        view::aligned(app.shown),
    ensures
        0 <= app.cursor < app.shown.stops.len() ==> pane::jump_of_cursor(app)
            == app.shown.jumps[app.cursor],
        app.cursor >= app.shown.stops.len() ==> pane::jump_of_cursor(app) is None,
{
}

/// A fresh pane has nothing unfolded and nothing searched for, is on its first
/// stop, and shows the whole review.
pub proof fn law_panes_open_at_the_top(
    review: Seq<changes::FileModel>,
    types: index::IndexModel,
)
    ensures
        ({
            let app = pane::opened(review, types);
            &&& app.review == review
            &&& app.index == types
            &&& forall|p: Seq<item::IdModel>| !#[trigger] app.expanded.contains(p)
            &&& forall|p: Seq<item::IdModel>| !#[trigger] app.usages_open.contains(p)
            &&& app.matches.len() == 0
            &&& app.cursor == 0
            &&& app.scroll == 0
            &&& app.summary == summary::summary(review)
            &&& app.shown == view::rendered(view::review_rows(review, rows_laws::context(app)))
        }),
{
}

/// A row that is no longer shown leaves the cursor where it was, or on the last
/// stop if there are fewer; one that is shown is under the cursor again.
pub proof fn law_the_cursor_finds_its_row(app: AppModel)
    requires
        0 <= app.cursor,
    ensures
        ({
            let now = pane::rerendered(app);
            match pane::row_of_cursor(app) {
                Some(path) => if now.shown.paths.contains(Some(path)) {
                    0 <= now.cursor < now.shown.paths.len() && now.shown.paths[now.cursor] == Some(
                        path,
                    )
                } else {
                    kept(app.cursor, now)
                },
                None => kept(app.cursor, now),
            }
        }),
{
    if let Some(path) = pane::row_of_cursor(app) {
        let now = pane::rerendered(app);
        lemma_row_at(now.shown.paths, path, 0);
        if now.shown.paths.contains(Some(path)) {
            let i = choose|i: int|
                0 <= i < now.shown.paths.len() && now.shown.paths[i] == Some(path);
            assert(now.shown.paths[i] == Some(path));
        }
    }
}

/// Whether the cursor is where it was, or on the last stop if there are fewer.
pub open spec fn kept(cursor: int, now: AppModel) -> bool {
    &&& cursor < now.shown.stops.len() ==> now.cursor == cursor
    &&& cursor >= now.shown.stops.len() > 0 ==> now.cursor == now.shown.stops.len() - 1
}

/// A row found is it, and one not found is not there.
proof fn lemma_row_at(
    paths: Seq<Option<Seq<item::IdModel>>>,
    path: Seq<item::IdModel>,
    i: int,
)
    requires
        0 <= i <= paths.len(),
    ensures
        match pane::row_at(paths, path, i) {
            Some(at) => i <= at < paths.len() && paths[at] == Some(path),
            None => forall|k: int| i <= k < paths.len() ==> #[trigger] paths[k] != Some(path),
        },
    decreases paths.len() - i,
{
    if i < paths.len() {
        lemma_row_at(paths, path, i + 1);
    }
}

/// The spot of each motion that puts the view or the cursor.
pub proof fn law_spots_are_told_apart(app: AppModel)
    ensures
        pane::applied(app, Motion::CursorHigh) == pane::at_spot(app, ViewSpot::Top),
        pane::applied(app, Motion::CursorLow) == pane::at_spot(app, ViewSpot::Bottom),
        pane::applied(app, Motion::Expand) == app,
        pane::applied(app, Motion::Usages) == app,
        pane::applied(app, Motion::Open) == app,
        pane::applied(app, Motion::Quit) == app,
{
}

} // verus!
