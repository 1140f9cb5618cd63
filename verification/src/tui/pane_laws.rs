//! What the pane promises: the cursor stays on a stop and on screen, the view
//! never runs past the end, motions touch nothing but the cursor and the view,
//! and unfolding a row twice folds it again.

use vstd::prelude::*;

use crate::item;
use crate::text;
use crate::tui::input::Motion;
use crate::tui::pane::{self, AppModel, ViewSpot};
use crate::tui::rows;
use crate::tui::view;

verus! {

/// Following the cursor puts its line in the viewport, as long as there is a
/// viewport and the lines can be numbered.
pub proof fn law_cursor_stays_in_view(app: AppModel)
    requires
        view::aligned(app.shown),
        app.shown.lines.len() <= u16::MAX,
        0 < app.height,
        0 <= app.scroll,
        0 <= app.cursor < app.shown.stops.len(),
    ensures
        pane::followed(app).scroll <= pane::line_of_cursor(app) < pane::followed(app).scroll
            + app.height,
{
    assert(app.shown.stops[app.cursor] < app.shown.lines.len());
}

/// The view never runs past either end.
pub proof fn law_view_stays_within_the_lines(app: AppModel, spot: ViewSpot)
    requires
        0 <= app.scroll,
        0 <= app.height,
    ensures
        0 <= pane::followed(app).scroll <= pane::farthest(app),
        0 <= pane::scrolled_to(app, spot).scroll <= pane::farthest(app),
{
}

/// A visible stop found is in range and visible.
proof fn lemma_visible(app: AppModel, i: int, n: int)
    requires
        0 <= i <= app.shown.stops.len(),
        0 <= n <= app.shown.stops.len(),
    ensures
        pane::first_visible(app, i) matches Some(at) ==> i <= at < app.shown.stops.len()
            && pane::visible(app, at),
        pane::first_visible(app, i) is None ==> forall|k: int|
            i <= k < app.shown.stops.len() ==> !#[trigger] pane::visible(app, k),
        pane::last_visible(app, n) matches Some(at) ==> 0 <= at < n && pane::visible(app, at),
        pane::last_visible(app, n) is None ==> forall|k: int|
            0 <= k < n ==> !#[trigger] pane::visible(app, k),
    decreases app.shown.stops.len() - i + n,
{
    if i < app.shown.stops.len() && !pane::visible(app, i) {
        lemma_visible(app, i + 1, n);
    }
    if n > 0 && !pane::visible(app, n - 1) {
        lemma_visible(app, i, n - 1);
    }
}

/// No visible stop before the first found, none after the last found.
proof fn lemma_extreme(app: AppModel, i: int, n: int)
    requires
        0 <= i <= app.shown.stops.len(),
        0 <= n <= app.shown.stops.len(),
    ensures
        pane::first_visible(app, i) matches Some(at) ==> forall|k: int|
            i <= k < at ==> !#[trigger] pane::visible(app, k),
        pane::last_visible(app, n) matches Some(at) ==> forall|k: int|
            at < k < n ==> !#[trigger] pane::visible(app, k),
    decreases app.shown.stops.len() - i + n,
{
    if i < app.shown.stops.len() && !pane::visible(app, i) {
        lemma_extreme(app, i + 1, n);
    }
    if n > 0 && !pane::visible(app, n - 1) {
        lemma_extreme(app, i, n - 1);
    }
}

/// `H`, `M` and `L` put the cursor on a visible stop — `H` on the first, `L`
/// on the last — and leave the view put.
pub proof fn law_viewport_motions_keep_the_view(app: AppModel, spot: ViewSpot)
    requires
        view::aligned(app.shown),
        0 <= app.height,
        0 <= app.scroll <= pane::farthest(app),
    ensures
        pane::at_spot(app, spot).scroll == app.scroll,
        (exists|k: int| 0 <= k < app.shown.stops.len() && #[trigger] pane::visible(app, k)) ==> {
            let cursor = pane::at_spot(app, spot).cursor;
            &&& 0 <= cursor < app.shown.stops.len()
            &&& pane::visible(app, cursor)
            &&& spot == ViewSpot::Top ==> forall|k: int|
                0 <= k < app.shown.stops.len() && #[trigger] pane::visible(app, k) ==> cursor <= k
            &&& spot == ViewSpot::Bottom ==> forall|k: int|
                0 <= k < app.shown.stops.len() && #[trigger] pane::visible(app, k) ==> k <= cursor
        },
{
    let n = app.shown.stops.len() as int;
    lemma_visible(app, 0, n);
    lemma_extreme(app, 0, n);
    if pane::first_visible(app, 0) is Some && pane::last_visible(app, n) is Some {
        let first = pane::first_visible(app, 0)->0;
        let last = pane::last_visible(app, n)->0;
        assert(first <= last) by {
            if last < first {
                assert(pane::visible(app, last));
            }
        }
        let middle = first + (last - first) / 2;
        assert(first <= middle <= last);
        assert(app.shown.stops[first] <= app.shown.stops[middle]) by {
            if first < middle {
            }
        }
        assert(app.shown.stops[middle] <= app.shown.stops[last]) by {
            if middle < last {
            }
        }
        assert(pane::visible(app, middle));
    }
}

/// `zt`, `zz` and `zb` move nothing but the view.
pub proof fn law_view_motions_keep_the_cursor(app: AppModel, spot: ViewSpot)
    ensures
        pane::scrolled_to(app, spot) == (AppModel {
            scroll: pane::scrolled_to(app, spot).scroll,
            ..app
        }),
{
}

/// A motion moves nothing but the cursor and the view.
pub proof fn law_motions_move_cursor_and_view_only(app: AppModel, motion: Motion)
    ensures
        pane::applied(app, motion) == (AppModel {
            cursor: pane::applied(app, motion).cursor,
            scroll: pane::applied(app, motion).scroll,
            ..app
        }),
{
}

/// A match found from a bound is one of the matches.
proof fn lemma_found(stops: Seq<usize>, bound: int, i: int, n: int)
    requires
        0 <= i <= stops.len(),
        0 <= n <= stops.len(),
    ensures
        pane::first_at_least(stops, bound, i) matches Some(stop) ==> exists|k: int|
            i <= k < stops.len() && #[trigger] stops[k] == stop && stop >= bound,
        pane::last_below(stops, bound, n) matches Some(stop) ==> exists|k: int|
            0 <= k < n && #[trigger] stops[k] == stop && stop < bound,
    decreases stops.len() - i + n,
{
    if i < stops.len() && stops[i] < bound {
        lemma_found(stops, bound, i + 1, n);
    }
    if n > 0 && stops[n - 1] >= bound {
        lemma_found(stops, bound, i, n - 1);
    }
}

/// The headers after the cursor are headers.
proof fn lemma_headers_after(app: AppModel, n: int)
    requires
        0 <= n <= app.shown.headers.len(),
    ensures
        forall|k: int|
            0 <= k < pane::headers_after(app, n).len() ==> #[trigger] pane::headers_after(
                app,
                n,
            )[k] > app.cursor && app.shown.headers.contains(pane::headers_after(app, n)[k]),
    decreases n,
{
    if n > 0 {
        lemma_headers_after(app, n - 1);
        let before = pane::headers_after(app, n - 1);
        let now = pane::headers_after(app, n);
        assert forall|k: int| 0 <= k < now.len() implies #[trigger] now[k] > app.cursor
            && app.shown.headers.contains(now[k]) by {
            if k < before.len() {
                assert(now[k] == before[k]);
            } else {
                assert(app.shown.headers[n - 1] == now[k]);
            }
        }
    }
}

/// There are no more headers before the cursor than headers.
proof fn lemma_headers_before(app: AppModel, n: int)
    requires
        0 <= n,
    ensures
        pane::headers_before(app, n) <= n,
    decreases n,
{
    if n > 0 {
        lemma_headers_before(app, n - 1);
    }
}

/// A cursor on a stop stays on a stop, whatever the motion, as long as the
/// matches are stops too.
pub proof fn law_cursor_stays_on_a_stop(app: AppModel, motion: Motion)
    requires
        view::aligned(app.shown),
        0 <= app.cursor < app.shown.stops.len(),
        0 <= app.height,
        forall|m: int|
            0 <= m < app.matches.len() ==> (#[trigger] app.matches[m]) < app.shown.stops.len(),
    ensures
        0 <= pane::applied(app, motion).cursor < app.shown.stops.len(),
{
    let n = app.shown.stops.len() as int;
    lemma_visible(app, 0, n);
    lemma_extreme(app, 0, n);
    lemma_found(app.matches, app.cursor + 1, 0, 0);
    lemma_found(app.matches, app.cursor, 0, app.matches.len() as int);
    lemma_headers_after(app, app.shown.headers.len() as int);
    lemma_headers_before(app, app.shown.headers.len() as int);
    match motion {
        Motion::CursorMiddle | Motion::CursorHigh | Motion::CursorLow => {
            if pane::first_visible(app, 0) is Some && pane::last_visible(app, n) is Some {
                let first = pane::first_visible(app, 0)->0;
                let last = pane::last_visible(app, n)->0;
                assert(first <= last) by {
                    if last < first {
                        assert(pane::visible(app, last));
                    }
                }
            }
        },
        Motion::NextFile(times) => {
            let headers = app.shown.headers;
            let after = pane::headers_after(app, headers.len() as int);
            let nth = pane::minus(times as int, 1);
            if headers.len() > 0 {
                if nth < after.len() {
                    assert(headers.contains(after[nth]));
                    let k = choose|k: int| 0 <= k < headers.len() && headers[k] == after[nth];
                    assert(headers[k] < n);
                } else {
                    assert(headers[headers.len() - 1] < n);
                }
            }
        },
        Motion::PrevFile(times) => {
            let headers = app.shown.headers;
            let before = pane::headers_before(app, headers.len() as int);
            let at = pane::minus(before as int, times as int);
            if 0 <= at < headers.len() {
                assert(headers[at] < n);
            }
        },
        _ => {},
    }
}

/// `{` and `}` land on a file header or stay put.
pub proof fn law_file_hops_land_on_headers(app: AppModel, n: int)
    requires
        0 <= n,
    ensures
        pane::at_next_file(app, n).cursor == app.cursor || (app.cursor < pane::at_next_file(
            app,
            n,
        ).cursor && app.shown.headers.contains(pane::at_next_file(app, n).cursor as usize)),
        pane::at_prev_file(app, n).cursor == app.cursor || app.shown.headers.contains(
            pane::at_prev_file(app, n).cursor as usize,
        ),
{
    let headers = app.shown.headers;
    let count = headers.len() as int;
    lemma_headers_after(app, count);
    lemma_headers_before(app, count);
    let after = pane::headers_after(app, count);
    let nth = pane::minus(n, 1);
    if count > 0 && nth >= after.len() {
        assert(headers.contains(headers[count - 1]));
    }
    let at = pane::minus(pane::headers_before(app, count) as int, n);
    if 0 <= at < count {
        assert(headers.contains(headers[at]));
    }
}

/// The matches among the first `n` stops are those whose row contains the
/// needle, in ascending order.
proof fn lemma_hits(app: AppModel, needle: Seq<char>, n: int)
    requires
        0 <= n <= app.shown.stops.len(),
        app.shown.stops.len() <= usize::MAX,
    ensures
        forall|k: int|
            0 <= k < pane::hits(app, needle, n).len() ==> (#[trigger] pane::hits(
                app,
                needle,
                n,
            )[k]) < n && pane::hit(app, needle, pane::hits(app, needle, n)[k] as int),
        forall|i: int|
            0 <= i < n && #[trigger] pane::hit(app, needle, i) ==> pane::hits(
                app,
                needle,
                n,
            ).contains(i as usize),
        forall|j: int, k: int|
            0 <= j < k < pane::hits(app, needle, n).len() ==> (#[trigger] pane::hits(
                app,
                needle,
                n,
            )[j]) < (#[trigger] pane::hits(app, needle, n)[k]),
    decreases n,
{
    if n > 0 {
        lemma_hits(app, needle, n - 1);
        let before = pane::hits(app, needle, n - 1);
        let now = pane::hits(app, needle, n);
        assert forall|k: int| 0 <= k < now.len() implies (#[trigger] now[k]) < n && pane::hit(
            app,
            needle,
            now[k] as int,
        ) by {
            if k < before.len() {
                assert(now[k] == before[k]);
            }
        }
        assert forall|i: int| 0 <= i < n && #[trigger] pane::hit(app, needle, i) implies now.contains(
            i as usize,
        ) by {
            if i < n - 1 {
                let k = choose|k: int| 0 <= k < before.len() && before[k] == i as usize;
                assert(now[k] == i as usize);
            } else {
                assert(now[before.len() as int] == i as usize);
            }
        }
        assert forall|j: int, k: int| 0 <= j < k < now.len() implies (#[trigger] now[j])
            < #[trigger] now[k] by {
            assert(now[j] == before[j]);
            if k < before.len() {
                assert(now[k] == before[k]);
            }
        }
    }
}

/// A search collects exactly the stops whose row contains the query, letter
/// case aside, in ascending order, and puts the cursor on one of them if
/// there is any.
pub proof fn law_search_collects_every_match(app: AppModel, query: Seq<char>)
    requires
        query.len() > 0,
        app.shown.stops.len() <= usize::MAX,
    ensures
        forall|i: int|
            0 <= i < app.shown.stops.len() ==> (pane::searched(app, query).matches.contains(
                i as usize,
            ) <==> #[trigger] pane::hit(app, text::lowered(query), i)),
        forall|j: int, k: int|
            0 <= j < k < pane::searched(app, query).matches.len() ==> (#[trigger] pane::searched(
                app,
                query,
            ).matches[j]) < #[trigger] pane::searched(app, query).matches[k],
        forall|k: int|
            0 <= k < pane::searched(app, query).matches.len() ==> (#[trigger] pane::searched(
                app,
                query,
            ).matches[k]) < app.shown.stops.len(),
        if pane::searched(app, query).matches.len() == 0 {
            pane::searched(app, query).cursor == app.cursor
        } else {
            pane::searched(app, query).matches.contains(pane::searched(app, query).cursor as usize)
        },
{
    let needle = text::lowered(query);
    let n = app.shown.stops.len() as int;
    lemma_hits(app, needle, n);
    let found = pane::hits(app, needle, n);
    assert(pane::searched(app, query).matches == found);
    assert forall|i: int| 0 <= i < n implies (found.contains(i as usize) <==> #[trigger] pane::hit(
        app,
        needle,
        i,
    )) by {
        if found.contains(i as usize) {
            let k = choose|k: int| 0 <= k < found.len() && found[k] == i as usize;
            assert(pane::hit(app, needle, found[k] as int));
        }
    }
    if found.len() > 0 {
        lemma_found(found, app.cursor, 0, 0);
        assert(found.contains(found[0]));
    }
}

/// Queries that differ in letter case alone find the same.
pub proof fn law_search_ignores_case(app: AppModel, one: Seq<char>, other: Seq<char>)
    requires
        one.len() > 0,
        other.len() > 0,
        text::lowered(one) == text::lowered(other),
    ensures
        pane::searched(app, one) == pane::searched(app, other),
{
}

/// Opening a row and closing it again shows what was shown before, in either
/// direction of unfolding.
pub proof fn law_unfolding_twice_folds(app: AppModel, path: Seq<item::IdModel>)
    ensures
        pane::look(
            AppModel {
                expanded: rows::toggled(rows::toggled(app.expanded, path), path),
                usages_open: rows::toggled(rows::toggled(app.usages_open, path), path),
                ..app
            },
        ) == pane::look(app),
{
    assert(rows::toggled(rows::toggled(app.expanded, path), path) =~= app.expanded);
    assert(rows::toggled(rows::toggled(app.usages_open, path), path) =~= app.usages_open);
}

} // verus!
