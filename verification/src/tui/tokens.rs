//! What changed within a signature, token by token.
//!
//! A token LCS: signatures are one line, so the quadratic table is nothing.

use vstd::prelude::*;

use crate::item;
use crate::text;
use crate::tui::style::{self, Span, SpanModel, Style};

verus! {

/// Whether `c` belongs to a word: a letter, a digit or an underscore of ASCII.
pub open spec fn is_word(c: char) -> bool {
    'a' <= c <= 'z' || 'A' <= c <= 'Z' || '0' <= c <= '9' || c == '_'
}

/// `s` split into maximal word runs and single other characters, in order.
pub open spec fn tokens(s: Seq<char>) -> Seq<Seq<char>>
    decreases s.len(),
{
    if s.len() == 0 {
        seq![]
    } else {
        let rest = tokens(s.drop_last());
        if s.len() > 1 && is_word(s.last()) && is_word(s[s.len() - 2]) {
            rest.drop_last().push(rest.last().push(s.last()))
        } else {
            rest.push(seq![s.last()])
        }
    }
}

/// Splits into word runs (`[A-Za-z0-9_]+`) and single non-word characters, so
/// a renamed parameter or a changed type marks as one token, not per
/// character.
pub fn tokenize(s: &str) -> (parts: Vec<String>)
    ensures
        item::views(parts@) == tokens(s@),
{
    let mut parts: Vec<String> = Vec::new();
    let mut run = String::new();
    let mut open = false;
    for c in it: s.chars()
        invariant
            it.seq() == s@,
            open == (it.index() > 0 && is_word(s@[it.index() - 1])),
            !open ==> run@.len() == 0,
            item::views(parts@) + (if open { seq![run@] } else { seq![] }) == tokens(
                s@.take(it.index() as int),
            ),
    {
        let ghost before = s@.take(it.index() as int);
        let ghost after = s@.take(it.index() + 1);
        proof {
            assert(after.drop_last() =~= before);
            assert(after.last() == c);
        }
        let word = ('a' <= c && c <= 'z') || ('A' <= c && c <= 'Z') || ('0' <= c && c <= '9')
            || c == '_';
        let ghost had = item::views(parts@);
        if word {
            run.push(c);
            proof {
                if open {
                    let rest = tokens(before);
                    assert(rest.drop_last() =~= had);
                    assert(had + seq![run@] =~= rest.drop_last().push(rest.last().push(c)));
                } else {
                    assert(run@ =~= seq![c]);
                    assert(had + Seq::<Seq<char>>::empty() =~= had);
                    assert(had + seq![run@] =~= tokens(before).push(seq![c]));
                }
            }
            open = true;
        } else {
            if open {
                let ghost last = run@;
                parts.push(run);
                assert(item::views(parts@) =~= had.push(last));
                run = String::new();
                open = false;
            }
            assert(item::views(parts@) =~= tokens(before));
            let ghost parts_before = parts@;
            let mut single = String::new();
            single.push(c);
            parts.push(single);
            proof {
                assert(single@ =~= seq![c]);
                assert(item::views(parts@) =~= item::views(parts_before).push(seq![c]));
                assert(item::views(parts@) + Seq::<Seq<char>>::empty() =~= tokens(after));
            }
        }
    }
    proof {
        assert(s@.take(s@.len() as int) =~= s@);
    }
    if open {
        let ghost had = item::views(parts@);
        let ghost last = run@;
        parts.push(run);
        assert(item::views(parts@) =~= had + seq![last]);
    } else {
        assert(item::views(parts@) + Seq::<Seq<char>>::empty() =~= item::views(parts@));
    }
    parts
}

/// The length of the longest common subsequence of `a[i..]` and `b[j..]`.
pub open spec fn lcs(a: Seq<Seq<char>>, b: Seq<Seq<char>>, i: int, j: int) -> nat
    decreases a.len() - i + b.len() - j,
{
    if i < 0 || j < 0 || i >= a.len() || j >= b.len() {
        0
    } else if a[i] == b[j] {
        lcs(a, b, i + 1, j + 1) + 1
    } else if lcs(a, b, i + 1, j) >= lcs(a, b, i, j + 1) {
        lcs(a, b, i + 1, j)
    } else {
        lcs(a, b, i, j + 1)
    }
}

/// No token kept.
pub open spec fn none_kept(len: nat) -> Seq<bool> {
    Seq::new(len, |i: int| false)
}

/// Which tokens of `a[i..]` and of `b[j..]` the chosen longest common
/// subsequence keeps: equal heads are kept, and otherwise the side whose head
/// can be dropped at no loss drops it, the left one if both can.
pub open spec fn kept(
    a: Seq<Seq<char>>,
    b: Seq<Seq<char>>,
    i: int,
    j: int,
) -> (Seq<bool>, Seq<bool>)
    decreases a.len() - i + b.len() - j,
{
    if i < 0 || j < 0 || i >= a.len() || j >= b.len() {
        (none_kept((a.len() - i) as nat), none_kept((b.len() - j) as nat))
    } else if a[i] == b[j] {
        let rest = kept(a, b, i + 1, j + 1);
        (seq![true] + rest.0, seq![true] + rest.1)
    } else if lcs(a, b, i + 1, j) >= lcs(a, b, i, j + 1) {
        let rest = kept(a, b, i + 1, j);
        (seq![false] + rest.0, rest.1)
    } else {
        let rest = kept(a, b, i, j + 1);
        (rest.0, seq![false] + rest.1)
    }
}

/// A common subsequence is no longer than either side.
proof fn lemma_lcs_bound(a: Seq<Seq<char>>, b: Seq<Seq<char>>, i: int, j: int)
    requires
        0 <= i <= a.len(),
        0 <= j <= b.len(),
    ensures
        lcs(a, b, i, j) <= a.len() - i,
        lcs(a, b, i, j) <= b.len() - j,
    decreases a.len() - i + b.len() - j,
{
    if i < a.len() && j < b.len() {
        lemma_lcs_bound(a, b, i + 1, j + 1);
        lemma_lcs_bound(a, b, i + 1, j);
        lemma_lcs_bound(a, b, i, j + 1);
    }
}

/// One row of the table: the lengths for `left[row..]`, computed from the row
/// below it.
fn lcs_row(left: &Vec<String>, right: &Vec<String>, row: usize, below: &Vec<usize>) -> (out: Vec<
    usize,
>)
    requires
        row < left@.len(),
        below@.len() == right@.len() + 1,
        forall|j: int|
            0 <= j <= right@.len() ==> #[trigger] below@[j] == lcs(
                item::views(left@),
                item::views(right@),
                row + 1,
                j,
            ),
    ensures
        out@.len() == right@.len() + 1,
        forall|j: int|
            0 <= j <= right@.len() ==> #[trigger] out@[j] == lcs(
                item::views(left@),
                item::views(right@),
                row as int,
                j,
            ),
{
    let ghost a = item::views(left@);
    let ghost b = item::views(right@);
    let length: usize = right.len();
    let mut out: Vec<usize> = Vec::new();
    let mut filled: usize = 0;
    while filled < below.len()
        invariant
            filled <= below@.len(),
            out@ == Seq::new(filled as nat, |k: int| 0usize),
        decreases below.len() - filled,
    {
        out.push(0);
        filled = filled + 1;
        assert(out@ =~= Seq::new(filled as nat, |k: int| 0usize));
    }
    let mut col: usize = length;
    while col > 0
        invariant
            col <= length == right@.len(),
            row < left@.len(),
            a == item::views(left@),
            b == item::views(right@),
            below@.len() == length + 1,
            out@.len() == length + 1,
            forall|j: int|
                0 <= j <= right@.len() ==> #[trigger] below@[j] == lcs(a, b, row + 1, j),
            forall|j: int| col <= j <= length ==> #[trigger] out@[j] == lcs(a, b, row as int, j),
        decreases col,
    {
        col = col - 1;
        proof {
            assert(a[row as int] == left@[row as int]@);
            assert(b[col as int] == right@[col as int]@);
            assert(below@[col + 1] == lcs(a, b, row + 1, col + 1));
            lemma_lcs_bound(a, b, row as int, col as int);
        }
        let value: usize = if text::same_text(left[row].as_str(), right[col].as_str()) {
            below[col + 1] + 1
        } else if below[col] >= out[col + 1] {
            below[col]
        } else {
            out[col + 1]
        };
        out.set(col, value);
    }
    out
}

/// The table of the longest common subsequence lengths of `left[i..]` and
/// `right[j..]`.
fn lcs_table(left: &Vec<String>, right: &Vec<String>) -> (table: Vec<Vec<usize>>)
    ensures
        table@.len() == left@.len() + 1,
        forall|i: int, j: int|
            0 <= i <= left@.len() && 0 <= j <= right@.len() ==> (#[trigger] table@[i]@[j]) == lcs(
                item::views(left@),
                item::views(right@),
                i,
                j,
            ),
        forall|i: int| 0 <= i <= left@.len() ==> (#[trigger] table@[i])@.len() == right@.len() + 1,
{
    let ghost a = item::views(left@);
    let ghost b = item::views(right@);
    let rows: usize = left.len();
    let cols: usize = right.len();
    // Rows from the bottom up: `upside[k]` is row `rows - k`.
    let mut last: Vec<usize> = Vec::new();
    let mut c: usize = 0;
    while c < cols
        invariant
            c <= cols == right@.len(),
            last@ == Seq::new(c as nat, |k: int| 0usize),
        decreases cols - c,
    {
        last.push(0);
        c = c + 1;
        assert(last@ =~= Seq::new(c as nat, |k: int| 0usize));
    }
    last.push(0);
    let mut upside: Vec<Vec<usize>> = Vec::new();
    upside.push(last);
    let mut row: usize = rows;
    while row > 0
        invariant
            row <= rows == left@.len(),
            a == item::views(left@),
            b == item::views(right@),
            upside@.len() == rows - row + 1,
            forall|k: int|
                0 <= k <= rows - row ==> (#[trigger] upside@[k])@.len() == right@.len() + 1,
            forall|k: int, j: int|
                0 <= k <= rows - row && 0 <= j <= right@.len() ==> (#[trigger] upside@[k]@[j])
                    == lcs(a, b, rows - k, j),
        decreases row,
    {
        let below: usize = upside.len() - 1;
        row = row - 1;
        proof {
            assert(upside@[below as int]@.len() == right@.len() + 1);
            assert forall|j: int| 0 <= j <= right@.len() implies #[trigger] upside@[below as int]@[j]
                == lcs(a, b, row + 1, j) by {
                assert(rows - below == row + 1);
            }
        }
        let next = lcs_row(left, right, row, &upside[below]);
        upside.push(next);
    }
    let mut table: Vec<Vec<usize>> = Vec::new();
    while upside.len() > 0
        invariant
            row == 0,
            rows == left@.len(),
            a == item::views(left@),
            b == item::views(right@),
            upside@.len() + table@.len() == rows + 1,
            forall|k: int|
                0 <= k < upside@.len() ==> (#[trigger] upside@[k])@.len() == right@.len() + 1,
            forall|k: int, j: int|
                0 <= k < upside@.len() && 0 <= j <= right@.len() ==> (#[trigger] upside@[k]@[j])
                    == lcs(a, b, rows - k, j),
            forall|i: int|
                0 <= i < table@.len() ==> (#[trigger] table@[i])@.len() == right@.len() + 1,
            forall|i: int, j: int|
                0 <= i < table@.len() && 0 <= j <= right@.len() ==> (#[trigger] table@[i]@[j])
                    == lcs(a, b, i, j),
        decreases upside.len(),
    {
        let ghost before = upside@;
        let ghost built = table@;
        if let Some(next) = upside.pop() {
            proof {
                let k = before.len() - 1;
                assert(rows - k == built.len());
                assert(next@.len() == right@.len() + 1);
                assert forall|j: int| 0 <= j <= right@.len() implies #[trigger] next@[j] == lcs(
                    a,
                    b,
                    built.len() as int,
                    j,
                ) by {
                    assert(before[k]@[j] == next@[j]);
                }
            }
            table.push(next);
            proof {
                assert forall|i: int, j: int|
                    0 <= i < table@.len() && 0 <= j <= right@.len() implies (
                #[trigger] table@[i]@[j]) == lcs(a, b, i, j) by {
                    if i < built.len() {
                        assert(table@[i] == built[i]);
                    }
                }
                assert forall|k: int, j: int|
                    0 <= k < upside@.len() && 0 <= j <= right@.len() implies (
                #[trigger] upside@[k]@[j]) == lcs(a, b, rows - k, j) by {
                    assert(upside@[k] == before[k]);
                }
            }
        }
    }
    table
}

/// For each side, whether the token is part of the longest common subsequence
/// — `false` means the token changed.
pub fn lcs_membership(left: &Vec<String>, right: &Vec<String>) -> (marks: (Vec<bool>, Vec<bool>))
    ensures
        marks.0@ == kept(item::views(left@), item::views(right@), 0, 0).0,
        marks.1@ == kept(item::views(left@), item::views(right@), 0, 0).1,
{
    let ghost a = item::views(left@);
    let ghost b = item::views(right@);
    let rows: usize = left.len();
    let cols: usize = right.len();
    let table = lcs_table(left, right);
    let mut in_left: Vec<bool> = Vec::new();
    let mut in_right: Vec<bool> = Vec::new();
    let mut row: usize = 0;
    let mut col: usize = 0;
    assert(in_left@ + kept(a, b, 0, 0).0 =~= kept(a, b, 0, 0).0);
    assert(in_right@ + kept(a, b, 0, 0).1 =~= kept(a, b, 0, 0).1);
    while row < rows && col < cols
        invariant
            rows == left@.len(),
            cols == right@.len(),
            a == item::views(left@),
            b == item::views(right@),
            row <= rows,
            col <= cols,
            table@.len() == rows + 1,
            forall|i: int, j: int|
                0 <= i <= rows && 0 <= j <= cols ==> (#[trigger] table@[i]@[j]) == lcs(a, b, i, j),
            forall|i: int| 0 <= i <= rows ==> (#[trigger] table@[i])@.len() == cols + 1,
            in_left@ + kept(a, b, row as int, col as int).0 == kept(a, b, 0, 0).0,
            in_right@ + kept(a, b, row as int, col as int).1 == kept(a, b, 0, 0).1,
        decreases rows - row + cols - col,
    {
        let ghost had_left = in_left@;
        let ghost had_right = in_right@;
        proof {
            assert(a[row as int] == left@[row as int]@);
            assert(b[col as int] == right@[col as int]@);
            assert(table@[row + 1]@[col as int] == lcs(a, b, row + 1, col as int));
            assert(table@[row as int]@[col + 1] == lcs(a, b, row as int, col + 1));
        }
        if text::same_text(left[row].as_str(), right[col].as_str()) {
            in_left.push(true);
            in_right.push(true);
            proof {
                let rest = kept(a, b, row + 1, col + 1);
                assert(in_left@ + rest.0 =~= had_left + (seq![true] + rest.0));
                assert(in_right@ + rest.1 =~= had_right + (seq![true] + rest.1));
            }
            row = row + 1;
            col = col + 1;
        } else if table[row + 1][col] >= table[row][col + 1] {
            in_left.push(false);
            proof {
                let rest = kept(a, b, row + 1, col as int);
                assert(in_left@ + rest.0 =~= had_left + (seq![false] + rest.0));
            }
            row = row + 1;
        } else {
            in_right.push(false);
            proof {
                let rest = kept(a, b, row as int, col + 1);
                assert(in_right@ + rest.1 =~= had_right + (seq![false] + rest.1));
            }
            col = col + 1;
        }
    }
    let ghost mid_left = in_left@;
    let ghost mid_right = in_right@;
    let ghost from_row = row;
    let ghost from_col = col;
    while row < rows
        invariant
            from_row <= row <= rows,
            in_left@ == mid_left + none_kept((row - from_row) as nat),
        decreases rows - row,
    {
        in_left.push(false);
        row = row + 1;
        assert(in_left@ =~= mid_left + none_kept((row - from_row) as nat));
    }
    while col < cols
        invariant
            from_col <= col <= cols,
            in_right@ == mid_right + none_kept((col - from_col) as nat),
        decreases cols - col,
    {
        in_right.push(false);
        col = col + 1;
        assert(in_right@ =~= mid_right + none_kept((col - from_col) as nat));
    }
    (in_left, in_right)
}

/// The style of a token: the marker's, unless the token is common to both
/// sides.
pub open spec fn mark_style(common: bool, marker: Style) -> Style {
    if common {
        style::plain()
    } else {
        marker
    }
}

/// Spans under way: those closed, and the run still open with its state.
pub struct Merge {
    pub closed: Seq<SpanModel>,
    pub run: Seq<char>,
    pub common: bool,
}

/// Closes the open run, unless it is empty.
pub open spec fn close(merge: Merge, marker: Style) -> Seq<SpanModel> {
    if merge.run.len() == 0 {
        merge.closed
    } else {
        merge.closed.push(
            SpanModel { content: merge.run, style: mark_style(merge.common, marker) },
        )
    }
}

/// The first `n` tokens merged: a token joins the open run if its state is
/// the run's, and otherwise closes it and opens the next.
pub open spec fn merged(
    parts: Seq<Seq<char>>,
    common: Seq<bool>,
    marker: Style,
    n: int,
) -> Merge
    decreases n,
{
    if n <= 0 {
        Merge { closed: seq![], run: seq![], common: true }
    } else {
        let before = merged(parts, common, marker, n - 1);
        if common[n - 1] == before.common {
            Merge { run: before.run + parts[n - 1], ..before }
        } else {
            Merge {
                closed: close(before, marker),
                run: parts[n - 1],
                common: common[n - 1],
            }
        }
    }
}

/// The spans of tokens paired with their states: adjacent tokens of one state
/// merged, those outside the common subsequence in the marker's style.
pub open spec fn token_spans(
    parts: Seq<Seq<char>>,
    common: Seq<bool>,
    marker: Style,
) -> Seq<SpanModel> {
    let n = if parts.len() <= common.len() {
        parts.len()
    } else {
        common.len()
    };
    close(merged(parts, common, marker, n as int), marker)
}

/// One span in the style of its state.
pub fn span_for(content: String, common: bool, marker: Style) -> (span: Span)
    ensures
        span@ == (SpanModel { content: content@, style: mark_style(common, marker) }),
{
    let style = if common {
        Style::plain()
    } else {
        marker
    };
    Span { content, style }
}

/// Tokens back into spans, adjacent same-state tokens merged; tokens outside
/// the common subsequence carry `marker`.
pub fn marked_spans(parts: &Vec<String>, common: &Vec<bool>, marker: Style) -> (spans: Vec<Span>)
    ensures
        item::views(spans@) == token_spans(item::views(parts@), common@, marker),
{
    let mut out: Vec<Span> = Vec::new();
    let mut run = String::new();
    let mut run_common = true;
    let mut i: usize = 0;
    assert(item::views(out@) =~= seq![]);
    assert(run@ =~= seq![]);
    while i < parts.len() && i < common.len()
        invariant
            i <= parts@.len(),
            i <= common@.len(),
            (Merge { closed: item::views(out@), run: run@, common: run_common }) == merged(
                item::views(parts@),
                common@,
                marker,
                i as int,
            ),
        decreases parts.len() - i,
    {
        let ghost before = merged(item::views(parts@), common@, marker, i as int);
        let ghost part = parts@[i as int]@;
        assert(item::views(parts@)[i as int] == part);
        if common[i] != run_common {
            if !run.as_str().is_empty() {
                let span = span_for(run, run_common, marker);
                proof {
                    item::lemma_views_push(out@, span);
                }
                out.push(span);
            }
            run = String::new();
        }
        run_common = common[i];
        run = text::join2(run.as_str(), parts[i].as_str());
        proof {
            if common@[i as int] != before.common {
                assert(run@ =~= part);
            }
            assert(item::views(out@) =~= merged(
                item::views(parts@),
                common@,
                marker,
                i + 1,
            ).closed);
        }
        i = i + 1;
    }
    if !run.as_str().is_empty() {
        let span = span_for(run, run_common, marker);
        proof {
            item::lemma_views_push(out@, span);
        }
        out.push(span);
    }
    out
}

/// The two sides of a modified signature as spans, with the tokens that
/// differ marked: struck out on the old side, bold and underlined on the new.
pub fn modified_spans(before: &str, after: &str) -> (sides: (Vec<Span>, Vec<Span>))
    ensures
        item::views(sides.0@) == old_side(before@, after@),
        item::views(sides.1@) == new_side(before@, after@),
{
    let before_tokens = tokenize(before);
    let after_tokens = tokenize(after);
    let (before_common, after_common) = lcs_membership(&before_tokens, &after_tokens);
    (
        marked_spans(&before_tokens, &before_common, Style::plain().crossed_out()),
        marked_spans(&after_tokens, &after_common, Style::plain().bold().underlined()),
    )
}

/// The old side of a modified signature: removed tokens struck out.
pub open spec fn old_side(before: Seq<char>, after: Seq<char>) -> Seq<SpanModel> {
    token_spans(
        tokens(before),
        kept(tokens(before), tokens(after), 0, 0).0,
        Style { crossed_out: true, ..style::plain() },
    )
}

/// The new side of a modified signature: added tokens bold and underlined.
pub open spec fn new_side(before: Seq<char>, after: Seq<char>) -> Seq<SpanModel> {
    token_spans(
        tokens(after),
        kept(tokens(before), tokens(after), 0, 0).1,
        Style { bold: true, underlined: true, ..style::plain() },
    )
}

} // verus!
