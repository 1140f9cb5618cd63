//! What the token diff promises: tokens spell the signature they came from,
//! what stays unmarked is a longest common subsequence of the two sides, and
//! marking changes no character.

use vstd::prelude::*;

use crate::tui::style::{self, SpanModel, Style};
use crate::tui::tokens;

verus! {

/// The characters of a sequence of tokens.
pub open spec fn spelled(parts: Seq<Seq<char>>) -> Seq<char>
    decreases parts.len(),
{
    if parts.len() == 0 {
        seq![]
    } else {
        spelled(parts.drop_last()) + parts.last()
    }
}

/// Tokens spell the text they split, and none is empty.
pub proof fn law_tokens_spell_the_text(s: Seq<char>)
    ensures
        spelled(tokens::tokens(s)) == s,
        forall|t: int|
            0 <= t < tokens::tokens(s).len() ==> (#[trigger] tokens::tokens(s)[t]).len() > 0,
        s.len() > 0 ==> tokens::tokens(s).len() > 0,
    decreases s.len(),
{
    if s.len() > 0 {
        let rest = tokens::tokens(s.drop_last());
        let all = tokens::tokens(s);
        law_tokens_spell_the_text(s.drop_last());
        assert(s =~= s.drop_last().push(s.last()));
        if s.len() > 1 && tokens::is_word(s.last()) && tokens::is_word(s[s.len() - 2]) {
            assert(rest.len() > 0);
            assert(all.drop_last() =~= rest.drop_last());
            assert(spelled(all) =~= spelled(rest).push(s.last()));
        } else {
            assert(all.drop_last() =~= rest);
            assert(spelled(all) =~= spelled(rest).push(s.last()));
        }
        assert forall|t: int| 0 <= t < all.len() implies (#[trigger] all[t]).len() > 0 by {
            if t < rest.len() - 1 {
                assert(all[t] == rest[t]);
            } else if t < rest.len() {
                assert(rest[t].len() > 0);
            }
        }
    }
}

/// The marked elements of a sequence, in order.
pub open spec fn selected(parts: Seq<Seq<char>>, marks: Seq<bool>) -> Seq<Seq<char>>
    decreases parts.len(),
{
    if parts.len() == 0 || marks.len() == 0 {
        seq![]
    } else if marks[0] {
        seq![parts[0]] + selected(parts.skip(1), marks.skip(1))
    } else {
        selected(parts.skip(1), marks.skip(1))
    }
}

/// Whether `c[k..]` is a subsequence of `a[i..]`.
pub open spec fn subsequence(
    c: Seq<Seq<char>>,
    k: int,
    a: Seq<Seq<char>>,
    i: int,
) -> bool
    decreases a.len() - i,
{
    if k >= c.len() {
        true
    } else if i >= a.len() {
        false
    } else {
        (c[k] == a[i] && subsequence(c, k + 1, a, i + 1)) || subsequence(c, k, a, i + 1)
    }
}

/// Dropping the head of a subsequence leaves one of the rest.
proof fn lemma_drop_head(c: Seq<Seq<char>>, k: int, a: Seq<Seq<char>>, i: int)
    requires
        0 <= k < c.len(),
        0 <= i,
        subsequence(c, k, a, i),
    ensures
        i < a.len(),
        subsequence(c, k + 1, a, i + 1),
    decreases a.len() - i,
{
    if subsequence(c, k, a, i + 1) {
        lemma_drop_head(c, k, a, i + 1);
        lemma_widen(c, k + 1, a, i + 2);
    }
}

/// A subsequence of a tail is one of a longer tail.
proof fn lemma_widen(c: Seq<Seq<char>>, k: int, a: Seq<Seq<char>>, i: int)
    requires
        0 <= k,
        1 <= i <= a.len(),
        subsequence(c, k, a, i),
    ensures
        subsequence(c, k, a, i - 1),
{
}

/// No common subsequence is longer than the one the diff keeps.
proof fn lemma_longest(
    c: Seq<Seq<char>>,
    k: int,
    a: Seq<Seq<char>>,
    b: Seq<Seq<char>>,
    i: int,
    j: int,
)
    requires
        0 <= k <= c.len(),
        0 <= i <= a.len(),
        0 <= j <= b.len(),
        subsequence(c, k, a, i),
        subsequence(c, k, b, j),
    ensures
        c.len() - k <= tokens::lcs(a, b, i, j),
    decreases a.len() - i + b.len() - j,
{
    if k < c.len() {
        if a[i] == b[j] {
            lemma_drop_head(c, k, a, i);
            lemma_drop_head(c, k, b, j);
            lemma_longest(c, k + 1, a, b, i + 1, j + 1);
        } else if c[k] == a[i] {
            assert(subsequence(c, k, b, j + 1));
            lemma_longest(c, k, a, b, i, j + 1);
        } else {
            assert(subsequence(c, k, a, i + 1));
            lemma_longest(c, k, a, b, i + 1, j);
        }
    }
}

/// Marks of a tail pick the same tokens on both sides, as many as the longest
/// common subsequence has.
proof fn lemma_selected(a: Seq<Seq<char>>, b: Seq<Seq<char>>, i: int, j: int)
    requires
        0 <= i <= a.len(),
        0 <= j <= b.len(),
    ensures
        tokens::kept(a, b, i, j).0.len() == a.len() - i,
        tokens::kept(a, b, i, j).1.len() == b.len() - j,
        selected(a.skip(i), tokens::kept(a, b, i, j).0) == selected(
            b.skip(j),
            tokens::kept(a, b, i, j).1,
        ),
        selected(a.skip(i), tokens::kept(a, b, i, j).0).len() == tokens::lcs(a, b, i, j),
    decreases a.len() - i + b.len() - j,
{
    let marks = tokens::kept(a, b, i, j);
    if i < a.len() && j < b.len() {
        assert(a.skip(i).skip(1) =~= a.skip(i + 1));
        assert(b.skip(j).skip(1) =~= b.skip(j + 1));
        if a[i] == b[j] {
            lemma_selected(a, b, i + 1, j + 1);
            let rest = tokens::kept(a, b, i + 1, j + 1);
            assert(marks.0.skip(1) =~= rest.0);
            assert(marks.1.skip(1) =~= rest.1);
        } else if tokens::lcs(a, b, i + 1, j) >= tokens::lcs(a, b, i, j + 1) {
            lemma_selected(a, b, i + 1, j);
            assert(marks.0.skip(1) =~= tokens::kept(a, b, i + 1, j).0);
        } else {
            lemma_selected(a, b, i, j + 1);
            assert(marks.1.skip(1) =~= tokens::kept(a, b, i, j + 1).1);
        }
    } else {
        lemma_selected_none(a.skip(i));
        lemma_selected_none(b.skip(j));
    }
}

/// No marks, no tokens.
proof fn lemma_selected_none(parts: Seq<Seq<char>>)
    ensures
        selected(parts, tokens::none_kept(parts.len())) == Seq::<Seq<char>>::empty(),
    decreases parts.len(),
{
    if parts.len() > 0 {
        lemma_selected_none(parts.skip(1));
        assert(tokens::none_kept(parts.len()).skip(1) =~= tokens::none_kept(parts.skip(1).len()));
    }
}

/// The tokens that stay unmarked are the same on both sides and a longest
/// common subsequence: none is longer.
pub proof fn law_unmarked_tokens_are_a_longest_common_subsequence(
    a: Seq<Seq<char>>,
    b: Seq<Seq<char>>,
    c: Seq<Seq<char>>,
)
    ensures
        selected(a, tokens::kept(a, b, 0, 0).0) == selected(b, tokens::kept(a, b, 0, 0).1),
        subsequence(c, 0, a, 0) && subsequence(c, 0, b, 0) ==> c.len() <= selected(
            a,
            tokens::kept(a, b, 0, 0).0,
        ).len(),
        tokens::kept(a, b, 0, 0).0.len() == a.len(),
        tokens::kept(a, b, 0, 0).1.len() == b.len(),
{
    assert(a.skip(0) =~= a);
    assert(b.skip(0) =~= b);
    lemma_selected(a, b, 0, 0);
    if subsequence(c, 0, a, 0) && subsequence(c, 0, b, 0) {
        lemma_longest(c, 0, a, b, 0, 0);
    }
}

/// The spans under way spell the tokens taken in.
proof fn lemma_merged_spells(
    parts: Seq<Seq<char>>,
    common: Seq<bool>,
    marker: Style,
    n: int,
)
    requires
        0 <= n <= parts.len(),
    ensures
        style::spans_text(tokens::merged(parts, common, marker, n).closed) + tokens::merged(
            parts,
            common,
            marker,
            n,
        ).run == spelled(parts.take(n)),
    decreases n,
{
    if n > 0 {
        lemma_merged_spells(parts, common, marker, n - 1);
        let before = tokens::merged(parts, common, marker, n - 1);
        let now = tokens::merged(parts, common, marker, n);
        assert(parts.take(n).drop_last() =~= parts.take(n - 1));
        lemma_close_spells(before, marker);
        assert(style::spans_text(now.closed) + now.run =~= spelled(parts.take(n - 1))
            + parts[n - 1]);
    } else {
        assert(parts.take(0) =~= seq![]);
    }
}

/// Closing a run changes no character.
proof fn lemma_close_spells(merge: tokens::Merge, marker: Style)
    ensures
        style::spans_text(tokens::close(merge, marker)) == style::spans_text(merge.closed)
            + merge.run,
{
    if merge.run.len() > 0 {
        let all = tokens::close(merge, marker);
        assert(all.drop_last() =~= merge.closed);
    } else {
        assert(style::spans_text(merge.closed) + merge.run =~= style::spans_text(merge.closed));
    }
}

/// Marking the changed tokens changes no character of either side.
pub proof fn law_marking_keeps_the_text(before: Seq<char>, after: Seq<char>)
    ensures
        style::spans_text(tokens::old_side(before, after)) == before,
        style::spans_text(tokens::new_side(before, after)) == after,
{
    let a = tokens::tokens(before);
    let b = tokens::tokens(after);
    law_tokens_spell_the_text(before);
    law_tokens_spell_the_text(after);
    lemma_selected(a, b, 0, 0);
    let marks = tokens::kept(a, b, 0, 0);
    lemma_token_spans_spell(a, marks.0, Style { crossed_out: true, ..style::plain() });
    lemma_token_spans_spell(
        b,
        marks.1,
        Style { bold: true, underlined: true, ..style::plain() },
    );
}

/// The spans of tokens spell the tokens.
proof fn lemma_token_spans_spell(parts: Seq<Seq<char>>, common: Seq<bool>, marker: Style)
    requires
        parts.len() == common.len(),
    ensures
        style::spans_text(tokens::token_spans(parts, common, marker)) == spelled(parts),
{
    let n = parts.len() as int;
    lemma_merged_spells(parts, common, marker, n);
    lemma_close_spells(tokens::merged(parts, common, marker, n), marker);
    assert(parts.take(n) =~= parts);
}

/// A token common to both ends of two equal tails is kept.
proof fn lemma_equal_kept(a: Seq<Seq<char>>, i: int)
    requires
        0 <= i <= a.len(),
    ensures
        tokens::kept(a, a, i, i).0 == Seq::new((a.len() - i) as nat, |k: int| true),
        tokens::kept(a, a, i, i).1 == Seq::new((a.len() - i) as nat, |k: int| true),
    decreases a.len() - i,
{
    let all = Seq::new((a.len() - i) as nat, |k: int| true);
    if i < a.len() {
        lemma_equal_kept(a, i + 1);
        assert(tokens::kept(a, a, i, i).0 =~= all);
        assert(tokens::kept(a, a, i, i).1 =~= all);
    } else {
        assert(tokens::kept(a, a, i, i).0 =~= all);
        assert(tokens::kept(a, a, i, i).1 =~= all);
    }
}

/// Merging unmarked tokens closes no span and stays unmarked.
proof fn lemma_merged_unmarked(parts: Seq<Seq<char>>, common: Seq<bool>, marker: Style, n: int)
    requires
        0 <= n <= parts.len() == common.len(),
        forall|k: int| 0 <= k < common.len() ==> #[trigger] common[k],
    ensures
        tokens::merged(parts, common, marker, n).closed == Seq::<SpanModel>::empty(),
        tokens::merged(parts, common, marker, n).common,
    decreases n,
{
    if n > 0 {
        lemma_merged_unmarked(parts, common, marker, n - 1);
        assert(common[n - 1]);
    }
}

/// A signature compared with itself shows no mark.
pub proof fn law_equal_sides_show_no_mark(s: Seq<char>)
    ensures
        forall|p: int|
            0 <= p < tokens::old_side(s, s).len() ==> (#[trigger] tokens::old_side(s, s)[p]).style
                == style::plain(),
        forall|p: int|
            0 <= p < tokens::new_side(s, s).len() ==> (#[trigger] tokens::new_side(s, s)[p]).style
                == style::plain(),
{
    let a = tokens::tokens(s);
    let marks = tokens::kept(a, a, 0, 0);
    lemma_equal_kept(a, 0);
    lemma_merged_unmarked(
        a,
        marks.0,
        Style { crossed_out: true, ..style::plain() },
        a.len() as int,
    );
    lemma_merged_unmarked(
        a,
        marks.1,
        Style { bold: true, underlined: true, ..style::plain() },
        a.len() as int,
    );
}

} // verus!
