//! Text primitives: comparison, concatenation, splitting, trimming, and
//! slicing, each stated over the characters a string holds.

use vstd::prelude::*;
use vstd::string::*;
use vstd::utf8::*;

verus! {

/// `String::push` appends the given character to the end of the string.
pub assume_specification[ String::push ](s: &mut String, c: char)
    ensures
        final(s)@ == old(s)@.push(c),
;

/// Whether a character has the Unicode `White_Space` property.
pub open spec fn white_space(c: char) -> bool {
    ||| '\u{9}' <= c <= '\u{d}'
    ||| c == ' '
    ||| c == '\u{85}'
    ||| c == '\u{a0}'
    ||| c == '\u{1680}'
    ||| '\u{2000}' <= c <= '\u{200a}'
    ||| c == '\u{2028}'
    ||| c == '\u{2029}'
    ||| c == '\u{202f}'
    ||| c == '\u{205f}'
    ||| c == '\u{3000}'
}

/// Whether a character has the Unicode `White_Space` property.
pub fn is_white_space(c: char) -> (yes: bool)
    ensures
        yes == white_space(c),
{
    ('\u{9}' <= c && c <= '\u{d}') || c == ' ' || c == '\u{85}' || c == '\u{a0}' || c
        == '\u{1680}' || ('\u{2000}' <= c && c <= '\u{200a}') || c == '\u{2028}' || c
        == '\u{2029}' || c == '\u{202f}' || c == '\u{205f}' || c == '\u{3000}'
}

/// The lowercase equivalent of a text under Unicode.
pub uninterp spec fn lowered(s: Seq<char>) -> Seq<char>;

/// `str::to_lowercase` maps the text to its lowercase equivalent, character
/// by character under the Unicode rules but for a final sigma.
pub assume_specification[ str::to_lowercase ](s: &str) -> (r: String)
    ensures
        r@ == lowered(s@),
;

/// Whether two strings hold the same characters.
pub fn same_text(a: &str, b: &str) -> (same: bool)
    ensures
        same == (a@ == b@),
{
    let x = a.as_bytes();
    let y = b.as_bytes();
    proof {
        encode_utf8_decode_utf8(a@);
        encode_utf8_decode_utf8(b@);
    }
    if x.len() != y.len() {
        return false;
    }
    let mut i: usize = 0;
    while i < x.len()
        invariant
            x@ == encode_utf8(a@),
            y@ == encode_utf8(b@),
            i <= x@.len() == y@.len(),
            forall|j: int| 0 <= j < i ==> x@[j] == y@[j],
        decreases x.len() - i,
    {
        if x[i] != y[i] {
            return false;
        }
        i = i + 1;
    }
    assert(x@ =~= y@);
    true
}

/// The characters of a string.
pub fn chars_of(s: &str) -> (chars: Vec<char>)
    ensures
        chars@ == s@,
{
    let mut out: Vec<char> = Vec::new();
    for c in it: s.chars()
        invariant
            out@ == s@.take(it.index() as int),
            it.seq() == s@,
    {
        out.push(c);
    }
    out
}

/// The string holding `chars[from..to]`.
pub fn text_of(chars: &Vec<char>, from: usize, to: usize) -> (text: String)
    requires
        from <= to <= chars@.len(),
    ensures
        text@ == chars@.subrange(from as int, to as int),
{
    let mut out = String::new();
    let mut i: usize = from;
    while i < to
        invariant
            from <= i <= to <= chars@.len(),
            out@ == chars@.subrange(from as int, i as int),
        decreases to - i,
    {
        out.push(chars[i]);
        i = i + 1;
        assert(out@ =~= chars@.subrange(from as int, i as int));
    }
    out
}

/// `s` without its last character, if it has one.
pub fn without_last(s: &str) -> (text: String)
    ensures
        text@ == if s@.len() > 0 {
            s@.drop_last()
        } else {
            s@
        },
{
    let chars = chars_of(s);
    if chars.len() > 0 {
        text_of(&chars, 0, chars.len() - 1)
    } else {
        s.to_owned()
    }
}

/// `a` then `b`.
pub fn join2(a: &str, b: &str) -> (text: String)
    ensures
        text@ == a@ + b@,
{
    a.to_owned().concat(b)
}

/// `a`, `b`, then `c`.
pub fn join3(a: &str, b: &str, c: &str) -> (text: String)
    ensures
        text@ == a@ + b@ + c@,
{
    a.to_owned().concat(b).concat(c)
}

/// `a`, `b`, `c`, then `d`.
pub fn join4(a: &str, b: &str, c: &str, d: &str) -> (text: String)
    ensures
        text@ == a@ + b@ + c@ + d@,
{
    a.to_owned().concat(b).concat(c).concat(d)
}

/// `a`, `b`, `c`, `d`, then `e`.
pub fn join5(a: &str, b: &str, c: &str, d: &str, e: &str) -> (text: String)
    ensures
        text@ == a@ + b@ + c@ + d@ + e@,
{
    a.to_owned().concat(b).concat(c).concat(d).concat(e)
}

/// `count` spaces.
pub open spec fn spaces(count: nat) -> Seq<char> {
    Seq::new(count, |i: int| ' ')
}

/// A run of `count` spaces.
pub fn pad(count: usize) -> (text: String)
    ensures
        text@ == spaces(count as nat),
{
    let mut out = String::new();
    let mut i: usize = 0;
    while i < count
        invariant
            i <= count,
            out@ == spaces(i as nat),
        decreases count - i,
    {
        out.push(' ');
        i = i + 1;
        assert(out@ =~= spaces(i as nat));
    }
    out
}

/// The decimal digit of value `d`.
pub open spec fn digit(d: int) -> char {
    (('0' as u32) + d) as char
}

/// `n` in decimal, without leading zeros.
pub open spec fn decimal(n: nat) -> Seq<char>
    decreases n,
{
    if n < 10 {
        seq![digit(n as int)]
    } else {
        decimal(n / 10).push(digit((n % 10) as int))
    }
}

/// The digit character for a value below ten.
fn digit_char(d: u64) -> (c: char)
    requires
        d < 10,
    ensures
        c == digit(d as int),
{
    (48u8 + (d as u8)) as char
}

/// Writes a number in decimal.
pub fn decimal_text(n: u64) -> (text: String)
    ensures
        text@ == decimal(n as nat),
    decreases n,
{
    if n < 10 {
        let mut out = String::new();
        out.push(digit_char(n));
        assert(out@ =~= seq![digit(n as int)]);
        out
    } else {
        let mut out = decimal_text(n / 10);
        out.push(digit_char(n % 10));
        out
    }
}

/// What separates the runs of a split.
pub enum Separator {
    /// Any whitespace character.
    Whitespace,
    /// One given character.
    Char(char),
}

/// Whether `c` separates runs under `sep`.
pub open spec fn separates(sep: Separator, c: char) -> bool {
    match sep {
        Separator::Whitespace => white_space(c),
        Separator::Char(mark) => c == mark,
    }
}

/// The maximal runs of characters of `s` free of separators, in order; runs
/// are never empty.
pub open spec fn runs(s: Seq<char>, sep: Separator) -> Seq<Seq<char>>
    decreases s.len(),
{
    if s.len() == 0 {
        seq![]
    } else {
        let rest = runs(s.drop_last(), sep);
        if separates(sep, s.last()) {
            rest
        } else if s.len() == 1 || separates(sep, s[s.len() - 2]) {
            rest.push(seq![s.last()])
        } else {
            rest.drop_last().push(rest.last().push(s.last()))
        }
    }
}

/// The views of a sequence of strings.
pub open spec fn texts(strings: Seq<String>) -> Seq<Seq<char>> {
    Seq::new(strings.len(), |i: int| strings[i]@)
}

/// Splits `s` into its separator-free runs.
pub fn split_runs(s: &str, sep: &Separator) -> (parts: Vec<String>)
    ensures
        texts(parts@) == runs(s@, *sep),
{
    let mut parts: Vec<String> = Vec::new();
    let mut run = String::new();
    let mut open = false;
    for c in it: s.chars()
        invariant
            it.seq() == s@,
            open == (it.index() > 0 && !separates(*sep, s@[it.index() - 1])),
            !open ==> run@.len() == 0,
            texts(parts@) + (if open { seq![run@] } else { seq![] }) == runs(
                s@.take(it.index() as int),
                *sep,
            ),
    {
        let ghost before = s@.take(it.index() as int);
        let ghost after = s@.take(it.index() + 1);
        proof {
            assert(after.drop_last() =~= before);
            assert(after.last() == c);
        }
        let splits = match sep {
            Separator::Whitespace => is_white_space(c),
            Separator::Char(mark) => c == *mark,
        };
        let ghost old_parts = texts(parts@);
        if splits {
            if open {
                let ghost last = run@;
                parts.push(run);
                proof {
                    assert(texts(parts@) =~= old_parts.push(last));
                }
                run = String::new();
                open = false;
            }
            assert(texts(parts@) + Seq::<Seq<char>>::empty() =~= runs(after, *sep));
        } else {
            run.push(c);
            proof {
                if open {
                    let rest = runs(before, *sep);
                    assert(rest.drop_last() =~= old_parts);
                    assert(old_parts + seq![run@] =~= rest.drop_last().push(rest.last().push(c)));
                } else {
                    assert(run@ =~= seq![c]);
                    assert(old_parts + Seq::<Seq<char>>::empty() =~= old_parts);
                    assert(old_parts + seq![run@] =~= runs(before, *sep).push(seq![c]));
                }
            }
            open = true;
        }
    }
    proof {
        assert(s@.take(s@.len() as int) =~= s@);
    }
    if open {
        let ghost old_parts = texts(parts@);
        let ghost last = run@;
        parts.push(run);
        assert(texts(parts@) =~= old_parts + seq![last]);
    } else {
        assert(texts(parts@) + Seq::<Seq<char>>::empty() =~= texts(parts@));
    }
    parts
}

/// `parts` with `sep` between each two.
pub open spec fn joined(parts: Seq<Seq<char>>, sep: Seq<char>) -> Seq<char>
    decreases parts.len(),
{
    if parts.len() == 0 {
        seq![]
    } else if parts.len() == 1 {
        parts[0]
    } else {
        joined(parts.drop_last(), sep) + sep + parts.last()
    }
}

/// `s` with every run of whitespace collapsed to one space and none at
/// either end.
pub open spec fn collapsed(s: Seq<char>) -> Seq<char> {
    joined(runs(s, Separator::Whitespace), seq![' '])
}

/// Collapses whitespace: the words of `s` separated by single spaces.
pub fn collapse(s: &str) -> (text: String)
    ensures
        text@ == collapsed(s@),
{
    let words = split_runs(s, &Separator::Whitespace);
    let mut out = String::new();
    let mut i: usize = 0;
    while i < words.len()
        invariant
            i <= words@.len(),
            out@ == joined(texts(words@).take(i as int), seq![' ']),
        decreases words.len() - i,
    {
        let ghost prefix = texts(words@).take(i + 1);
        proof {
            assert(prefix.drop_last() =~= texts(words@).take(i as int));
            assert(prefix.last() == words@[i as int]@);
        }
        if i > 0 {
            out.push(' ');
            assert(out@ =~= joined(prefix.drop_last(), seq![' ']) + seq![' ']);
        }
        out.append(words[i].as_str());
        i = i + 1;
        assert(out@ =~= joined(prefix, seq![' ']));
    }
    proof {
        assert(texts(words@).take(words@.len() as int) =~= texts(words@));
    }
    out
}

/// `s` without the characters at its end that satisfy `drop`.
pub open spec fn without_tail(s: Seq<char>, drop: spec_fn(char) -> bool) -> Seq<char>
    decreases s.len(),
{
    if s.len() > 0 && drop(s.last()) {
        without_tail(s.drop_last(), drop)
    } else {
        s
    }
}

/// `s` without the characters at its start that satisfy `drop`.
pub open spec fn without_head(s: Seq<char>, drop: spec_fn(char) -> bool) -> Seq<char>
    decreases s.len(),
{
    if s.len() > 0 && drop(s[0]) {
        without_head(s.drop_first(), drop)
    } else {
        s
    }
}

/// `s` without whitespace at either end.
pub open spec fn trimmed(s: Seq<char>) -> Seq<char> {
    without_head(without_tail(s, |c: char| white_space(c)), |c: char| white_space(c))
}

/// Removes whitespace from both ends.
pub fn trim(s: &str) -> (text: String)
    ensures
        text@ == trimmed(s@),
{
    let chars = chars_of(s);
    let ghost drop = |c: char| white_space(c);
    let mut end: usize = chars.len();
    assert(s@.take(end as int) =~= s@);
    while end > 0 && is_white_space(chars[end - 1])
        invariant
            end <= chars@.len(),
            chars@ == s@,
            drop == (|c: char| white_space(c)),
            without_tail(s@, drop) == without_tail(s@.take(end as int), drop),
        decreases end,
    {
        proof {
            assert(s@.take(end as int).drop_last() =~= s@.take(end - 1));
        }
        end = end - 1;
    }
    let ghost tail = s@.take(end as int);
    assert(tail.skip(0) =~= tail);
    let mut start: usize = 0;
    while start < end && is_white_space(chars[start])
        invariant
            start <= end <= chars@.len(),
            chars@ == s@,
            tail == s@.take(end as int),
            drop == (|c: char| white_space(c)),
            without_head(tail, drop) == without_head(tail.skip(start as int), drop),
        decreases end - start,
    {
        proof {
            assert(tail.skip(start as int).drop_first() =~= tail.skip(start + 1));
        }
        start = start + 1;
    }
    proof {
        assert(tail.skip(start as int) =~= s@.subrange(start as int, end as int));
    }
    text_of(&chars, start, end)
}

/// Whether `needle` occurs in `hay` at `at`.
pub open spec fn occurs_at(hay: Seq<char>, needle: Seq<char>, at: int) -> bool {
    0 <= at && at + needle.len() <= hay.len() && hay.subrange(at, at + needle.len()) == needle
}

/// Whether `needle` occurs anywhere in `hay`.
pub open spec fn occurs(hay: Seq<char>, needle: Seq<char>) -> bool {
    exists|at: int| occurs_at(hay, needle, at)
}

/// Whether `needle` occurs in `hay` at `at`, and nowhere before.
pub open spec fn first_at(hay: Seq<char>, needle: Seq<char>, at: int) -> bool {
    occurs_at(hay, needle, at) && forall|before: int|
        0 <= before < at ==> !occurs_at(hay, needle, before)
}

/// Whether `needle` sits in `hay` at `at`.
fn sits_at(hay: &Vec<char>, needle: &Vec<char>, at: usize) -> (yes: bool)
    requires
        at + needle@.len() <= hay@.len(),
    ensures
        yes == occurs_at(hay@, needle@, at as int),
{
    let length: usize = hay.len();
    let mut i: usize = 0;
    while i < needle.len()
        invariant
            i <= needle@.len(),
            at + needle@.len() <= hay@.len() == length,
            forall|j: int| 0 <= j < i ==> hay@[at + j] == needle@[j],
        decreases needle.len() - i,
    {
        if hay[at + i] != needle[i] {
            proof {
                assert(hay@.subrange(at as int, at + needle@.len())[i as int] == hay@[at + i]);
            }
            return false;
        }
        i = i + 1;
    }
    assert(hay@.subrange(at as int, at + needle@.len()) =~= needle@);
    true
}

/// Where `needle` first occurs in `hay`, in characters.
pub fn find(hay: &Vec<char>, needle: &Vec<char>) -> (at: Option<usize>)
    ensures
        match at {
            Some(i) => first_at(hay@, needle@, i as int),
            None => !occurs(hay@, needle@),
        },
{
    if needle.len() > hay.len() {
        return None;
    }
    let last: usize = hay.len() - needle.len();
    let mut i: usize = 0;
    loop
        invariant
            last == hay@.len() - needle@.len(),
            i <= last,
            forall|j: int| 0 <= j < i ==> !occurs_at(hay@, needle@, j),
        decreases last - i,
    {
        if sits_at(hay, needle, i) {
            return Some(i);
        }
        if i == last {
            return None;
        }
        i = i + 1;
    }
}

/// Whether `hay` contains `needle`.
pub fn contains(hay: &str, needle: &str) -> (found: bool)
    ensures
        found == occurs(hay@, needle@),
{
    let h = chars_of(hay);
    let n = chars_of(needle);
    match find(&h, &n) {
        Some(i) => {
            assert(occurs_at(hay@, needle@, i as int));
            true
        },
        None => false,
    }
}

/// Splits `s` around the first occurrence of `sep`.
pub fn split_once(s: &str, sep: &str) -> (halves: Option<(String, String)>)
    ensures
        match halves {
            Some((before, after)) => exists|at: int|
                #[trigger] first_at(s@, sep@, at) && before@ == s@.take(at) && after@ == s@.skip(
                    at + sep@.len(),
                ),
            None => !occurs(s@, sep@),
        },
{
    let chars = chars_of(s);
    let mark = chars_of(sep);
    match find(&chars, &mark) {
        Some(i) => {
            let before = text_of(&chars, 0, i);
            let length: usize = chars.len();
            let after = text_of(&chars, i + mark.len(), length);
            proof {
                assert(before@ =~= s@.take(i as int));
                assert(after@ =~= s@.skip(i + sep@.len()));
                assert(first_at(s@, sep@, i as int));
            }
            Some((before, after))
        },
        None => None,
    }
}

/// Whether the byte range `start..end` of `source` can be sliced out: in
/// bounds, in order, and on character boundaries.
pub open spec fn sliceable(source: Seq<char>, start: int, end: int) -> bool {
    &&& 0 <= start <= end <= encode_utf8(source).len()
    &&& is_char_boundary(encode_utf8(source), start)
    &&& is_char_boundary(encode_utf8(source), end)
}

/// The characters of `source` whose UTF-8 bytes are `start..end`.
pub open spec fn byte_text(source: Seq<char>, start: int, end: int) -> Seq<char> {
    decode_utf8(encode_utf8(source).subrange(start, end))
}

/// Slices `source` by byte offsets.
pub fn byte_slice(source: &str, start: usize, end: usize) -> (text: &str)
    requires
        sliceable(source@, start as int, end as int),
    ensures
        text@ == byte_text(source@, start as int, end as int),
{
    proof {
        encode_utf8_valid_utf8(source@);
        lemma_boundary_in_prefix(encode_utf8(source@), start as int, end as int);
    }
    let (head, _) = source.split_at(end);
    let (_, text) = head.split_at(start);
    proof {
        encode_utf8_decode_utf8(text@);
        assert(text.spec_bytes() =~= encode_utf8(source@).subrange(start as int, end as int));
    }
    text
}

/// A boundary before `end` is a boundary of the bytes up to `end`.
proof fn lemma_boundary_in_prefix(bytes: Seq<u8>, start: int, end: int)
    requires
        valid_utf8(bytes),
        0 <= start <= end <= bytes.len(),
        is_char_boundary(bytes, start),
        is_char_boundary(bytes, end),
    ensures
        valid_utf8(bytes.subrange(0, end)),
        is_char_boundary(bytes.subrange(0, end), start),
{
    let prefix = bytes.subrange(0, end);
    valid_utf8_split(bytes, end);
    if start == end {
        is_char_boundary_start_end_of_seq(prefix);
    } else {
        is_char_boundary_iff_not_is_continuation_byte(bytes, start);
        is_char_boundary_iff_not_is_continuation_byte(prefix, start);
        assert(prefix[start] == bytes[start]);
    }
}

} // verus!
