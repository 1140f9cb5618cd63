//! What the text primitives make of a text: numbers read back, whitespace goes
//! where it should, and nothing else does.

use vstd::prelude::*;

use crate::text::{self, Separator};

verus! {

/// The number that decimal digits stand for.
pub open spec fn value(digits: Seq<char>) -> int
    decreases digits.len(),
{
    if digits.len() == 0 {
        0
    } else {
        10 * value(digits.drop_last()) + (digits.last() as int - '0' as int)
    }
}

/// A number in decimal is digits that stand for it, without a leading zero.
pub proof fn law_decimals_read_back(n: nat)
    ensures
        value(text::decimal(n)) == n,
        text::decimal(n).len() > 0,
        forall|i: int|
            0 <= i < text::decimal(n).len() ==> '0' <= (#[trigger] text::decimal(n)[i]) <= '9',
        text::decimal(n)[0] == '0' ==> n == 0,
    decreases n,
{
    lemma_digit((n % 10) as int);
    if n >= 10 {
        law_decimals_read_back(n / 10);
        let rest = text::decimal(n / 10);
        assert(text::decimal(n).drop_last() =~= rest);
        assert(text::decimal(n)[0] == rest[0]);
        assert(n == 10 * (n / 10) + n % 10);
    } else {
        assert(n % 10 == n);
        assert(text::decimal(n).drop_last() =~= seq![]);
        assert(value(text::decimal(n).drop_last()) == 0);
    }
}

/// A digit stands for its value.
proof fn lemma_digit(d: int)
    requires
        0 <= d < 10,
    ensures
        '0' <= text::digit(d) <= '9',
        text::digit(d) as int - '0' as int == d,
{
}

/// Spaces are spaces, as many as asked for.
pub proof fn law_padding_is_spaces(n: nat)
    ensures
        text::spaces(n).len() == n,
        forall|i: int| 0 <= i < n ==> #[trigger] text::spaces(n)[i] == ' ',
{
}

/// Blanks, tabs and line ends are whitespace; nothing that is seen in ASCII is.
pub proof fn law_visible_characters_are_no_whitespace(c: char)
    ensures
        text::white_space(' '),
        text::white_space('\t'),
        text::white_space('\n'),
        text::white_space('\r'),
        text::white_space('\u{b}'),
        text::white_space('\u{c}'),
        text::white_space('\u{85}'),
        text::white_space('\u{a0}'),
        text::white_space('\u{1680}'),
        text::white_space('\u{2028}'),
        text::white_space('\u{2029}'),
        text::white_space('\u{202f}'),
        text::white_space('\u{205f}'),
        text::white_space('\u{3000}'),
        '\u{2000}' <= c <= '\u{200a}' ==> text::white_space(c),
        '!' <= c <= '~' ==> !text::white_space(c),
        '\u{a1}' <= c <= '\u{167f}' ==> !text::white_space(c),
        c < '\t' || '\r' < c < ' ' ==> !text::white_space(c),
        c > '\u{3000}' ==> !text::white_space(c),
{
}

/// Whether a run stands at `span`: not empty, without a separator in it, and
/// with one on either side, or the end of the text.
pub open spec fn run_at(s: Seq<char>, sep: Separator, run: Seq<char>, span: (int, int)) -> bool {
    &&& 0 <= span.0 < span.1 <= s.len()
    &&& run == s.subrange(span.0, span.1)
    &&& forall|i: int| span.0 <= i < span.1 ==> !text::separates(sep, #[trigger] s[i])
    &&& span.0 == 0 || text::separates(sep, s[span.0 - 1])
    &&& span.1 == s.len() || text::separates(sep, s[span.1])
}

/// A text is split where it has separators and nowhere else: the runs stand in
/// it one after the other, each as far as it goes, and whatever is no separator
/// stands in one. The result tells where.
pub proof fn law_splitting_loses_nothing(s: Seq<char>, sep: Separator) -> (spans: Seq<(int, int)>)
    ensures
        spans.len() == text::runs(s, sep).len(),
        forall|k: int|
            0 <= k < spans.len() ==> run_at(s, sep, text::runs(s, sep)[k], #[trigger] spans[k]),
        forall|j: int, k: int|
            0 <= j < k < spans.len() ==> (#[trigger] spans[j]).1 < (#[trigger] spans[k]).0,
        forall|i: int|
            0 <= i < s.len() && !text::separates(sep, #[trigger] s[i]) ==> within(spans, i),
    decreases s.len(),
{
    if s.len() == 0 {
        seq![]
    } else {
        let front = s.drop_last();
        let n = front.len() as int;
        let had = law_splitting_loses_nothing(front, sep);
        let before = text::runs(front, sep);
        let runs = text::runs(s, sep);
        if text::separates(sep, s.last()) {
            assert forall|k: int| 0 <= k < had.len() implies run_at(
                s,
                sep,
                runs[k],
                #[trigger] had[k],
            ) by {
                assert(run_at(front, sep, before[k], had[k]));
                assert(s.subrange(had[k].0, had[k].1) =~= front.subrange(had[k].0, had[k].1));
                assert forall|i: int| had[k].0 <= i < had[k].1 implies !text::separates(
                    sep,
                    #[trigger] s[i],
                ) by {
                    assert(front[i] == s[i]);
                }
            }
            assert forall|i: int|
                0 <= i < s.len() && !text::separates(sep, #[trigger] s[i]) implies within(
                had,
                i,
            ) by {
                assert(front[i] == s[i]);
            }
            had
        } else if s.len() == 1 || text::separates(sep, s[s.len() - 2]) {
            let spans = had.push((n, n + 1));
            assert forall|k: int| 0 <= k < spans.len() implies run_at(
                s,
                sep,
                runs[k],
                #[trigger] spans[k],
            ) by {
                if k < had.len() {
                    assert(run_at(front, sep, before[k], had[k]));
                    lemma_kept(s, sep, before[k], had[k]);
                } else {
                    assert(s.subrange(n, n + 1) =~= seq![s.last()]);
                }
            }
            assert forall|j: int, k: int| 0 <= j < k < spans.len() implies (#[trigger] spans[j]).1
                < (#[trigger] spans[k]).0 by {
                if k == had.len() {
                    assert(run_at(front, sep, before[j], had[j]));
                    if had[j].1 == n {
                        assert(front[n - 1] == s[n - 1]);
                        assert(!text::separates(sep, front[n - 1]));
                    }
                }
            }
            assert forall|i: int|
                0 <= i < s.len() && !text::separates(sep, #[trigger] s[i]) implies within(
                spans,
                i,
            ) by {
                if i < n {
                    assert(front[i] == s[i]);
                    let k = choose|k: int|
                        0 <= k < had.len() && (#[trigger] had[k]).0 <= i < had[k].1;
                    assert(spans[k] == had[k]);
                } else {
                    assert(spans[had.len() as int] == (n, n + 1));
                }
            }
            spans
        } else {
            // The last run goes on.
            assert(front[n - 1] == s[n - 1]);
            assert(within(had, n - 1));
            let m = choose|k: int|
                0 <= k < had.len() && (#[trigger] had[k]).0 <= n - 1 < had[k].1;
            let last = had.len() - 1;
            if m < last {
                assert(had[m].1 < had[last].0);
                assert(run_at(front, sep, before[last], had[last]));
            }
            assert(m == last);
            assert(run_at(front, sep, before[last], had[last]));
            let spans = had.update(last, (had[last].0, n + 1));
            assert forall|k: int| 0 <= k < spans.len() implies run_at(
                s,
                sep,
                runs[k],
                #[trigger] spans[k],
            ) by {
                if k < last {
                    assert(had[k].1 < had[last].0);
                    assert(run_at(front, sep, before[k], had[k]));
                    lemma_kept(s, sep, before[k], had[k]);
                } else {
                    assert(runs[k] == before.last().push(s.last()));
                    assert(s.subrange(had[last].0, n + 1) =~= front.subrange(had[last].0, n).push(
                        s.last(),
                    ));
                    assert forall|i: int| had[last].0 <= i < n + 1 implies !text::separates(
                        sep,
                        #[trigger] s[i],
                    ) by {
                        if i < n {
                            assert(front[i] == s[i]);
                        }
                    }
                    if had[last].0 > 0 {
                        assert(front[had[last].0 - 1] == s[had[last].0 - 1]);
                    }
                }
            }
            assert forall|j: int, k: int| 0 <= j < k < spans.len() implies (#[trigger] spans[j]).1
                < (#[trigger] spans[k]).0 by {
                assert(had[j].1 < had[k].0);
            }
            assert forall|i: int|
                0 <= i < s.len() && !text::separates(sep, #[trigger] s[i]) implies within(
                spans,
                i,
            ) by {
                if i < n {
                    assert(front[i] == s[i]);
                    let k = choose|k: int|
                        0 <= k < had.len() && (#[trigger] had[k]).0 <= i < had[k].1;
                    assert(spans[k].0 == had[k].0);
                } else {
                    assert(spans[last].0 <= i < spans[last].1);
                }
            }
            spans
        }
    }
}

/// Whether one of the spans covers a place.
pub open spec fn within(spans: Seq<(int, int)>, i: int) -> bool {
    exists|k: int| 0 <= k < spans.len() && (#[trigger] spans[k]).0 <= i < spans[k].1
}

/// A run that ends before the last character of a text stays where it is, as
/// long as it does not go on.
proof fn lemma_kept(s: Seq<char>, sep: Separator, run: Seq<char>, span: (int, int))
    requires
        s.len() > 0,
        run_at(s.drop_last(), sep, run, span),
        span.1 < s.len() - 1 || s.len() == 1 || text::separates(sep, s[s.len() - 2]),
    ensures
        run_at(s, sep, run, span),
{
    let front = s.drop_last();
    assert(s.subrange(span.0, span.1) =~= front.subrange(span.0, span.1));
    assert forall|i: int| span.0 <= i < span.1 implies !text::separates(sep, #[trigger] s[i]) by {
        assert(front[i] == s[i]);
    }
    if span.1 == front.len() {
        assert(!text::separates(sep, front[span.1 - 1]));
        assert(front[span.1 - 1] == s[s.len() - 2]);
    } else {
        assert(front[span.1] == s[span.1]);
    }
    if span.0 > 0 {
        assert(front[span.0 - 1] == s[span.0 - 1]);
    }
}

/// A separator of words is whitespace, and one of fields is the character named.
pub proof fn law_separators_separate(c: char, mark: char)
    ensures
        text::separates(Separator::Whitespace, c) <==> text::white_space(c),
        text::separates(Separator::Char(mark), c) <==> c == mark,
{
}

/// Joining puts the separator between each two parts and nowhere else: one part
/// is itself, and one more comes after a separator.
pub proof fn law_joining_separates(parts: Seq<Seq<char>>, sep: Seq<char>, more: Seq<char>)
    ensures
        text::joined(seq![more], sep) == more,
        parts.len() > 0 ==> text::joined(parts.push(more), sep) == text::joined(parts, sep) + sep
            + more,
{
    if parts.len() > 0 {
        assert(parts.push(more).drop_last() =~= parts);
    }
}

/// Collapsed text is the words of a text with one blank between each two.
pub proof fn law_collapsing_leaves_single_blanks(s: Seq<char>)
    ensures
        ({
            let words = text::runs(s, Separator::Whitespace);
            text::collapsed(s) == text::joined(words, seq![' '])
        }),
        forall|i: int|
            0 <= i < text::collapsed(s).len() && text::white_space(
                #[trigger] text::collapsed(s)[i],
            ) ==> text::collapsed(s)[i] == ' ' && 0 < i < text::collapsed(s).len() - 1
                && !text::white_space(text::collapsed(s)[i - 1]) && !text::white_space(
                text::collapsed(s)[i + 1],
            ),
{
    let words = text::runs(s, Separator::Whitespace);
    let spans = law_splitting_loses_nothing(s, Separator::Whitespace);
    assert forall|k: int| 0 <= k < words.len() implies full(#[trigger] words[k]) by {
        assert(run_at(s, Separator::Whitespace, words[k], spans[k]));
        assert forall|i: int| 0 <= i < words[k].len() implies !text::white_space(
            #[trigger] words[k][i],
        ) by {
            assert(words[k][i] == s[spans[k].0 + i]);
            assert(!text::separates(Separator::Whitespace, s[spans[k].0 + i]));
        }
    }
    lemma_single_blanks(words);
}

/// Whether a word has characters and none of them is whitespace.
spec fn full(word: Seq<char>) -> bool {
    word.len() > 0 && forall|i: int|
        0 <= i < word.len() ==> !text::white_space(#[trigger] word[i])
}

/// Words joined by a blank have single blanks between words only.
proof fn lemma_single_blanks(words: Seq<Seq<char>>)
    requires
        forall|k: int| 0 <= k < words.len() ==> full(#[trigger] words[k]),
    ensures
        ({
            let whole = text::joined(words, seq![' ']);
            &&& words.len() > 0 ==> whole.len() > 0 && !text::white_space(whole[0])
                && !text::white_space(whole.last())
            &&& forall|i: int|
                0 <= i < whole.len() && text::white_space(#[trigger] whole[i]) ==> whole[i] == ' '
                    && 0 < i < whole.len() - 1 && !text::white_space(whole[i - 1])
                    && !text::white_space(whole[i + 1])
        }),
    decreases words.len(),
{
    let whole = text::joined(words, seq![' ']);
    if words.len() == 1 {
        assert(full(words[0]));
    } else if words.len() > 1 {
        let rest = words.drop_last();
        assert forall|k: int| 0 <= k < rest.len() implies full(#[trigger] rest[k]) by {
            assert(full(words[k]));
        }
        lemma_single_blanks(rest);
        let before = text::joined(rest, seq![' ']);
        let last = words.last();
        assert(full(words[words.len() - 1]));
        let b = before.len() as int;
        assert(whole =~= before + seq![' '] + last);
        assert forall|i: int|
            0 <= i < whole.len() && text::white_space(#[trigger] whole[i]) implies whole[i] == ' '
            && 0 < i < whole.len() - 1 && !text::white_space(whole[i - 1]) && !text::white_space(
            whole[i + 1],
        ) by {
            if i < b {
                assert(whole[i] == before[i]);
                assert(before[b - 1] == before.last());
                assert(whole[i - 1] == before[i - 1]);
                assert(whole[i + 1] == before[i + 1]);
            } else if i == b {
                assert(whole[b - 1] == before.last());
                assert(whole[b + 1] == last[0]);
            } else {
                assert(whole[i] == last[i - b - 1]);
            }
        }
        assert(whole[0] == before[0]);
        assert(whole.last() == last[last.len() - 1]);
    }
}

/// Trimming takes off the whitespace at both ends, all of it and nothing else.
pub proof fn law_trimming_takes_off_whitespace(s: Seq<char>) -> (ends: (Seq<char>, Seq<char>))
    ensures
        s == ends.0 + text::trimmed(s) + ends.1,
        forall|i: int| 0 <= i < ends.0.len() ==> text::white_space(#[trigger] ends.0[i]),
        forall|i: int| 0 <= i < ends.1.len() ==> text::white_space(#[trigger] ends.1[i]),
        text::trimmed(s).len() > 0 ==> !text::white_space(text::trimmed(s)[0])
            && !text::white_space(text::trimmed(s).last()),
{
    let white = |c: char| text::white_space(c);
    let front = text::without_tail(s, white);
    let tail = lemma_tail(s);
    let head = lemma_head(front);
    assert(s =~= head + text::trimmed(s) + tail);
    if text::trimmed(s).len() > 0 {
        assert(text::trimmed(s).last() == front.last());
    }
    (head, tail)
}

/// What is taken off the end.
proof fn lemma_tail(s: Seq<char>) -> (tail: Seq<char>)
    ensures
        ({
            let front = text::without_tail(s, |c: char| text::white_space(c));
            &&& s == front + tail
            &&& forall|i: int| 0 <= i < tail.len() ==> text::white_space(#[trigger] tail[i])
            &&& front.len() > 0 ==> !text::white_space(front.last())
        }),
    decreases s.len(),
{
    let white = |c: char| text::white_space(c);
    if s.len() > 0 && text::white_space(s.last()) {
        let rest = lemma_tail(s.drop_last());
        let tail = rest.push(s.last());
        let front = text::without_tail(s, white);
        assert(front == text::without_tail(s.drop_last(), white));
        assert(s.drop_last() == front + rest);
        assert(s =~= s.drop_last().push(s.last()));
        assert(s =~= front + tail);
        tail
    } else {
        assert(s =~= s + Seq::<char>::empty());
        seq![]
    }
}

/// What is taken off the start.
proof fn lemma_head(s: Seq<char>) -> (head: Seq<char>)
    ensures
        ({
            let rest = text::without_head(s, |c: char| text::white_space(c));
            &&& s == head + rest
            &&& forall|i: int| 0 <= i < head.len() ==> text::white_space(#[trigger] head[i])
            &&& rest.len() > 0 ==> !text::white_space(rest[0])
        }),
    decreases s.len(),
{
    let white = |c: char| text::white_space(c);
    if s.len() > 0 && text::white_space(s[0]) {
        let less = lemma_head(s.drop_first());
        let head = seq![s[0]] + less;
        let rest = text::without_head(s, white);
        assert(rest == text::without_head(s.drop_first(), white));
        assert(s.drop_first() == less + rest);
        assert(s =~= seq![s[0]] + s.drop_first());
        assert(s =~= head + rest);
        head
    } else {
        assert(s =~= Seq::<char>::empty() + s);
        seq![]
    }
}

} // verus!
