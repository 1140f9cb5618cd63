//! Which two states of the tree a review compares.
//!
//! Finding the default base takes questions to git; the functions here say
//! which to ask next, given the answers so far.

use vstd::prelude::*;

use crate::git::{self, DiffMode, RangeModel, RefRange, Rev, RevModel};
use crate::item;
use crate::text;

verus! {

/// The sides of a range as written, each if it is there, and the semantics.
#[verifier::ext_equal]
pub struct SidesModel {
    pub base: Option<Seq<char>>,
    pub head: Option<Seq<char>>,
    pub mode: DiffMode,
}

/// The candidates for a base that was not given, in order of preference: what
/// the remote calls its main branch, or else a local one.
pub open spec fn base_candidates() -> Seq<Seq<char>> {
    seq!["origin/main"@, "origin/master"@, "main"@, "master"@]
}

/// What finding the default base has come to.
#[derive(Debug, PartialEq, Eq)]
pub enum BaseStep {
    /// It takes to know whether this ref exists.
    Ask(String),
    /// This is the base.
    Found(String),
    /// No candidate exists.
    Missing,
}

/// What resolving a range has come to.
#[derive(Debug, PartialEq, Eq)]
pub enum RangeStep {
    /// It takes to know whether this ref exists.
    Ask(String),
    /// This is the range.
    Range(RefRange),
    /// No base was given, and no candidate exists.
    Missing,
}

/// The mathematical model of a `BaseStep`.
pub enum BaseModel {
    Ask(Seq<char>),
    Found(Seq<char>),
    Missing,
}

/// The mathematical model of a `RangeStep`.
pub enum StepModel {
    Ask(Seq<char>),
    Range(RangeModel),
    Missing,
}

impl View for BaseStep {
    type V = BaseModel;

    open spec fn view(&self) -> BaseModel {
        match *self {
            BaseStep::Ask(name) => BaseModel::Ask(name@),
            BaseStep::Found(name) => BaseModel::Found(name@),
            BaseStep::Missing => BaseModel::Missing,
        }
    }
}

impl View for RangeStep {
    type V = StepModel;

    open spec fn view(&self) -> StepModel {
        match *self {
            RangeStep::Ask(name) => StepModel::Ask(name@),
            RangeStep::Range(range) => StepModel::Range(range@),
            RangeStep::Missing => StepModel::Missing,
        }
    }
}

/// A side that is there.
pub open spec fn given(side: Seq<char>) -> Option<Seq<char>> {
    if side.len() == 0 {
        None
    } else {
        Some(side)
    }
}

/// Where `needle` first occurs in `hay`.
pub open spec fn first_place(hay: Seq<char>, needle: Seq<char>) -> int {
    choose|at: int| text::first_at(hay, needle, at)
}

/// The sides of a range: split around the first `...`, or else around the
/// first `..`, or else a bare base.
pub open spec fn sides(raw: Seq<char>) -> SidesModel {
    if text::occurs(raw, "..."@) {
        let at = first_place(raw, "..."@);
        SidesModel {
            base: given(raw.take(at)),
            head: given(raw.skip(at + 3)),
            mode: DiffMode::MergeBase,
        }
    } else if text::occurs(raw, ".."@) {
        let at = first_place(raw, ".."@);
        SidesModel {
            base: given(raw.take(at)),
            head: given(raw.skip(at + 2)),
            mode: DiffMode::Direct,
        }
    } else {
        SidesModel { base: given(raw), head: None, mode: DiffMode::MergeBase }
    }
}

/// There is one first place.
pub proof fn lemma_first_place(hay: Seq<char>, needle: Seq<char>, at: int)
    requires
        text::first_at(hay, needle, at),
    ensures
        first_place(hay, needle) == at,
        text::occurs(hay, needle),
{
    let other = first_place(hay, needle);
    assert(text::first_at(hay, needle, other));
    assert(text::occurs_at(hay, needle, at));
    assert(text::occurs_at(hay, needle, other));
}

/// A range side that was present and non-empty.
pub fn side(s: &str) -> (found: Option<&str>)
    ensures
        match found {
            Some(words) => given(s@) == Some(words@),
            None => given(s@) is None,
        },
{
    if s.is_empty() {
        None
    } else {
        Some(s)
    }
}

/// A side as a string of its own.
fn owned(s: &str) -> (found: Option<String>)
    ensures
        item::optional_text(found) == given(s@),
{
    match side(s) {
        Some(words) => Some(words.to_owned()),
        None => None,
    }
}

/// Splits `base...head`, `base..head`, or a bare `base` into its sides and the
/// diff semantics. Empty sides come back as `None`.
pub fn parse_range(raw: &str) -> (found: (Option<String>, Option<String>, DiffMode))
    ensures
        (SidesModel {
            base: item::optional_text(found.0),
            head: item::optional_text(found.1),
            mode: found.2,
        }) == sides(raw@),
{
    proof {
        reveal_strlit("...");
        reveal_strlit("..");
    }
    match text::split_once(raw, "...") {
        Some((base, head)) => {
            proof {
                let at = choose|at: int|
                    #[trigger] text::first_at(raw@, "..."@, at) && base@ == raw@.take(at) && head@
                        == raw@.skip(at + "..."@.len());
                lemma_first_place(raw@, "..."@, at);
            }
            (owned(base.as_str()), owned(head.as_str()), DiffMode::MergeBase)
        },
        None => match text::split_once(raw, "..") {
            Some((base, head)) => {
                proof {
                    let at = choose|at: int|
                        #[trigger] text::first_at(raw@, ".."@, at) && base@ == raw@.take(at)
                            && head@ == raw@.skip(at + ".."@.len());
                    lemma_first_place(raw@, ".."@, at);
                }
                (owned(base.as_str()), owned(head.as_str()), DiffMode::Direct)
            },
            None => (owned(raw), None, DiffMode::MergeBase),
        },
    }
}

/// The first candidate from `i` on that exists, by the answers so far; or the
/// next to ask about; or none.
pub open spec fn base_from(answers: Seq<bool>, i: int) -> BaseModel
    decreases base_candidates().len() - i,
{
    if i >= base_candidates().len() {
        BaseModel::Missing
    } else if i >= answers.len() {
        BaseModel::Ask(base_candidates()[i])
    } else if answers[i] {
        BaseModel::Found(base_candidates()[i])
    } else {
        base_from(answers, i + 1)
    }
}

/// The base to review against when none was given. `answers` tells for each
/// candidate asked about so far whether it exists.
pub fn resolve_base(answers: &[bool]) -> (step: BaseStep)
    ensures
        step@ == base_from(answers@, 0),
{
    let ghost all = base_candidates();
    assert(all.len() == 4);
    proof {
        reveal_with_fuel(base_from, 5);
    }
    if answers.len() == 0 {
        return BaseStep::Ask("origin/main".to_owned());
    }
    if answers[0] {
        return BaseStep::Found("origin/main".to_owned());
    }
    if answers.len() == 1 {
        return BaseStep::Ask("origin/master".to_owned());
    }
    if answers[1] {
        return BaseStep::Found("origin/master".to_owned());
    }
    if answers.len() == 2 {
        return BaseStep::Ask("main".to_owned());
    }
    if answers[2] {
        return BaseStep::Found("main".to_owned());
    }
    if answers.len() == 3 {
        return BaseStep::Ask("master".to_owned());
    }
    if answers[3] {
        return BaseStep::Found("master".to_owned());
    }
    BaseStep::Missing
}

/// The range that the sides of the argument, if there is one, and the default
/// base make.
pub open spec fn resolved(raw: Option<Seq<char>>, answers: Seq<bool>) -> StepModel {
    let given_sides = match raw {
        Some(words) => sides(words),
        None => SidesModel { base: None, head: None, mode: DiffMode::MergeBase },
    };
    let head = RevModel::Ref(
        match given_sides.head {
            Some(words) => words,
            None => "HEAD"@,
        },
    );
    match given_sides.base {
        Some(base) => StepModel::Range(RangeModel { base, head, mode: given_sides.mode }),
        None => match base_from(answers, 0) {
            BaseModel::Ask(name) => StepModel::Ask(name),
            BaseModel::Found(base) => StepModel::Range(
                RangeModel { base, head, mode: given_sides.mode },
            ),
            BaseModel::Missing => StepModel::Missing,
        },
    }
}

/// Turns the optional argument into a concrete `RefRange`. A missing or empty
/// side falls back to the default: the default base for the base, HEAD for
/// the head. `answers` tells for each candidate base asked about so far
/// whether it exists.
pub fn resolve_range(raw: Option<&str>, answers: &[bool]) -> (step: RangeStep)
    ensures
        step@ == resolved(
            (match raw {
                Some(words) => Some(words@),
                None => None,
            }),
            answers@,
        ),
{
    let (base, head, mode) = match raw {
        Some(words) => parse_range(words),
        None => (None, None, DiffMode::MergeBase),
    };
    let head = match head {
        Some(words) => words,
        None => "HEAD".to_owned(),
    };
    match base {
        Some(given_base) => RangeStep::Range(
            RefRange { base: given_base, head: Rev::Ref(head), mode },
        ),
        None => match resolve_base(answers) {
            BaseStep::Ask(name) => RangeStep::Ask(name),
            BaseStep::Found(found) => RangeStep::Range(
                RefRange { base: found, head: Rev::Ref(head), mode },
            ),
            BaseStep::Missing => RangeStep::Missing,
        },
    }
}

/// What a review reads base content at.
#[derive(Debug, PartialEq, Eq)]
pub enum BaseRev {
    /// The base itself.
    At(String),
    /// The merge base of these two.
    MergeBaseOf(String, String),
}

/// The mathematical model of a `BaseRev`.
pub enum BaseRevModel {
    At(Seq<char>),
    MergeBaseOf(Seq<char>, Seq<char>),
}

impl View for BaseRev {
    type V = BaseRevModel;

    open spec fn view(&self) -> BaseRevModel {
        match *self {
            BaseRev::At(name) => BaseRevModel::At(name@),
            BaseRev::MergeBaseOf(a, b) => BaseRevModel::MergeBaseOf(a@, b@),
        }
    }
}

/// Three-dot reviews compare against the merge base, so base content must be
/// read there — not at the base tip, which may have moved on. The working tree
/// sits on HEAD.
pub fn base_rev(range: &RefRange) -> (at: BaseRev)
    ensures
        at@ == match range@.mode {
            DiffMode::Direct => BaseRevModel::At(range@.base),
            DiffMode::MergeBase => BaseRevModel::MergeBaseOf(
                range@.base,
                match range@.head {
                    RevModel::Ref(head) => head,
                    RevModel::WorkingTree => "HEAD"@,
                },
            ),
        },
        at@ matches BaseRevModel::At(name) ==> range@.mode == DiffMode::Direct && name
            == range@.base,
        at@ matches BaseRevModel::MergeBaseOf(one, other) ==> range@.mode == DiffMode::MergeBase
            && one == range@.base && (range@.head matches RevModel::Ref(head) ==> other == head)
            && (range@.head is WorkingTree ==> other == "HEAD"@),
{
    match range.mode {
        DiffMode::Direct => BaseRev::At(range.base.clone()),
        DiffMode::MergeBase => BaseRev::MergeBaseOf(
            range.base.clone(),
            match &range.head {
                Rev::Ref(head) => head.clone(),
                Rev::WorkingTree => "HEAD".to_owned(),
            },
        ),
    }
}

/// Which frontend gets the review.
#[derive(Clone, Copy, Debug, PartialEq, Eq, Structural)]
pub enum OutputMode {
    Interactive,
    Plain,
    Json,
    Markdown,
}

/// Decides the frontend, from the flags and whether the output is a terminal:
/// the interactive view is the default, but never where nobody could see it.
pub fn output_mode(json: bool, markdown: bool, plain: bool, terminal: bool) -> (mode: OutputMode)
    ensures
        mode == if json {
            OutputMode::Json
        } else if markdown {
            OutputMode::Markdown
        } else if plain || !terminal {
            OutputMode::Plain
        } else {
            OutputMode::Interactive
        },
        mode == OutputMode::Json <==> json,
        mode == OutputMode::Markdown <==> markdown && !json,
        mode == OutputMode::Interactive <==> terminal && !json && !markdown && !plain,
{
    if json {
        OutputMode::Json
    } else if markdown {
        OutputMode::Markdown
    } else if plain || !terminal {
        OutputMode::Plain
    } else {
        OutputMode::Interactive
    }
}

/// Whether `name` may stand in a range: not empty, no `..` in it, and no `.`
/// at either end.
pub open spec fn plain_ref(name: Seq<char>) -> bool {
    &&& name.len() > 0
    &&& name[0] != '.'
    &&& name.last() != '.'
    &&& !text::occurs(name, ".."@)
}

/// Dots between two plain refs are the first there are.
proof fn lemma_dots_between(base: Seq<char>, dots: Seq<char>, head: Seq<char>)
    requires
        plain_ref(base),
        dots == "..."@ || dots == ".."@,
    ensures
        text::first_at(base + dots + head, dots, base.len() as int),
{
    reveal_strlit("...");
    reveal_strlit("..");
    let raw = base + dots + head;
    let b = base.len() as int;
    assert(raw.subrange(b, b + dots.len()) =~= dots);
    assert forall|before: int| 0 <= before < b implies !text::occurs_at(raw, dots, before) by {
        if text::occurs_at(raw, dots, before) {
            let part = raw.subrange(before, before + dots.len());
            assert(part == dots);
            assert(part[0] == raw[before] && part[1] == raw[before + 1]);
            assert(dots[0] == '.' && dots[1] == '.');
            if before + 1 < b {
                assert(base[before] == '.' && base[before + 1] == '.');
                assert(base.subrange(before, before + 2) =~= ".."@);
                assert(text::occurs_at(base, ".."@, before));
            } else {
                assert(base[b - 1] == '.');
            }
        }
    }
}

/// Two dots between plain refs are not three.
proof fn lemma_no_third_dot(base: Seq<char>, head: Seq<char>)
    requires
        plain_ref(base),
        plain_ref(head),
    ensures
        !text::occurs(base + ".."@ + head, "..."@),
{
    reveal_strlit("...");
    reveal_strlit("..");
    let raw = base + ".."@ + head;
    let b = base.len() as int;
    assert forall|at: int| !text::occurs_at(raw, "..."@, at) by {
        if text::occurs_at(raw, "..."@, at) {
            let part = raw.subrange(at, at + 3);
            assert(part[0] == raw[at] && part[1] == raw[at + 1] && part[2] == raw[at + 2]);
            assert("..."@[0] == '.' && "..."@[1] == '.' && "..."@[2] == '.');
            if at + 1 < b {
                assert(base[at] == '.' && base[at + 1] == '.');
                assert(base.subrange(at, at + 2) =~= ".."@);
                assert(text::occurs_at(base, ".."@, at));
            } else if at < b {
                assert(base[b - 1] == '.');
            } else if at == b {
                assert(raw[b + 2] == head[0]);
            } else if at == b + 1 {
                assert(raw[b + 2] == head[0]);
            } else {
                let k = at - b - 2;
                assert(head[k] == raw[at] && head[k + 1] == raw[at + 1]);
                assert(head.subrange(k, k + 2) =~= ".."@);
                assert(text::occurs_at(head, ".."@, k));
            }
        }
    }
}

/// A range between two plain refs, written in git's grammar, reads back as
/// the same sides and semantics.
pub proof fn law_ranges_read_back(base: Seq<char>, head: Seq<char>, mode: DiffMode)
    requires
        plain_ref(base),
        plain_ref(head),
    ensures
        sides(git::range_text(RangeModel { base, head: RevModel::Ref(head), mode })) == (
        SidesModel { base: Some(base), head: Some(head), mode }),
{
    reveal_strlit("...");
    reveal_strlit("..");
    let b = base.len() as int;
    match mode {
        DiffMode::MergeBase => {
            let raw = base + "..."@ + head;
            lemma_dots_between(base, "..."@, head);
            lemma_first_place(raw, "..."@, b);
            assert(raw.take(b) =~= base);
            assert(raw.skip(b + 3) =~= head);
        },
        DiffMode::Direct => {
            let raw = base + ".."@ + head;
            lemma_no_third_dot(base, head);
            lemma_dots_between(base, ".."@, head);
            lemma_first_place(raw, ".."@, b);
            assert(raw.take(b) =~= base);
            assert(raw.skip(b + 2) =~= head);
        },
    }
}

/// What exists on the remote is preferred over what exists locally, and `main`
/// over `master`: the base is the first candidate that exists, and there is
/// none only if none exists.
pub proof fn law_first_existing_base_wins(answers: Seq<bool>)
    requires
        answers.len() == base_candidates().len(),
    ensures
        match base_from(answers, 0) {
            BaseModel::Ask(_) => false,
            BaseModel::Found(base) => exists|i: int|
                0 <= i < answers.len() && #[trigger] answers[i] && base == base_candidates()[i]
                    && forall|j: int| 0 <= j < i ==> !#[trigger] answers[j],
            BaseModel::Missing => forall|i: int| 0 <= i < answers.len() ==> !#[trigger] answers[i],
        },
{
    reveal_with_fuel(base_from, 5);
    assert(base_candidates().len() == 4);
    assert(answers[0] || !answers[0]);
    assert(answers[1] || !answers[1]);
    assert(answers[2] || !answers[2]);
    assert(answers[3] || !answers[3]);
}

} // verus!
