//! What is compared and what is read: how git is asked and its answers are
//! taken, which refs a range means, which files are looked at, and what each of
//! them brings to a review.

use vstd::prelude::*;

use crate::changes::{self, FileKindModel, FileModel};
use crate::git::{
    self, ChangeStatus, ChangedModel, DiffMode, EntryModel, ErrorModel, GitOutput, GitQuery, Listing,
    RangeModel, RevModel,
};
use crate::item::ItemModel;
use crate::layout;
use crate::producer::go;
use crate::producer::registry;
use crate::producer::rust;
use crate::producer::syntax::{self, Grammar, ProducerError};
use crate::range::{self, BaseModel, SidesModel, StepModel};
use crate::review::{self, HeadModel, SourceModel, SourcesModel};
use crate::text::{self, Separator};
use crate::word_laws;

verus! {

/// Whether a status field starts with the letter.
pub open spec fn letter(all: Seq<Seq<char>>, i: int, c: char) -> bool {
    all[i].len() > 0 && all[i][0] == c
}

/// Whether the listing from `i` on is an entry and then the listing from `then`
/// on.
pub open spec fn lists(
    all: Seq<Seq<char>>,
    i: int,
    entry: EntryModel,
    then: int,
) -> bool {
    match git::listing(all, then) {
        Listing::Entries(rest) => git::listing(all, i) == Listing::Entries(seq![entry] + rest),
        Listing::Missing(status) => git::listing(all, i) == Listing::Missing(status),
    }
}

/// `A` lists an added file, `D` a deleted one, `M` and `T` a modified one, each
/// under the path that follows. `R` and `C`, whatever score they carry, list a
/// modified file under the second of the two paths that follow; the first is
/// where it was. Any other status is skipped with its path. A status without its
/// paths is an error.
pub proof fn law_listings_are_read_by_letter(all: Seq<Seq<char>>, i: int)
    requires
        0 <= i < all.len(),
        all[i].len() > 0,
    ensures
        i + 1 < all.len() && letter(all, i, 'A') ==> lists(
            all,
            i,
            plain_entry(all[i + 1], ChangeStatus::Added),
            i + 2,
        ),
        i + 1 < all.len() && letter(all, i, 'D') ==> lists(
            all,
            i,
            plain_entry(all[i + 1], ChangeStatus::Deleted),
            i + 2,
        ),
        i + 1 < all.len() && (letter(all, i, 'M') || letter(all, i, 'T')) ==> lists(
            all,
            i,
            plain_entry(all[i + 1], ChangeStatus::Modified),
            i + 2,
        ),
        i + 2 < all.len() && (letter(all, i, 'R') || letter(all, i, 'C')) ==> lists(
            all,
            i,
            EntryModel {
                file: ChangedModel { path: all[i + 2], status: ChangeStatus::Modified },
                from: Some(all[i + 1]),
            },
            i + 3,
        ),
        i + 1 >= all.len() && (letter(all, i, 'A') || letter(all, i, 'D') || letter(all, i, 'M')
            || letter(all, i, 'T')) ==> git::listing(all, i) == Listing::Missing(all[i]),
        i + 2 >= all.len() && (letter(all, i, 'R') || letter(all, i, 'C')) ==> git::listing(all, i)
            == Listing::Missing(all[i]),
        !letter(all, i, 'A') && !letter(all, i, 'D') && !letter(all, i, 'M') && !letter(all, i, 'T')
            && !letter(all, i, 'R') && !letter(all, i, 'C') ==> git::listing(all, i)
            == git::listing(all, i + 2),
{
}

/// The end of a listing lists nothing more.
pub proof fn law_listings_end(all: Seq<Seq<char>>, i: int)
    requires
        i >= all.len(),
    ensures
        git::listing(all, i) == Listing::Entries(seq![]),
{
}

/// An entry of a file that did not move.
pub open spec fn plain_entry(path: Seq<char>, status: ChangeStatus) -> EntryModel {
    EntryModel { file: ChangedModel { path, status }, from: None }
}

/// The files of a listing are those of its entries, one for one.
pub proof fn law_files_are_those_of_the_entries(entries: Seq<EntryModel>)
    ensures
        git::files_of(entries).len() == entries.len(),
        forall|i: int|
            0 <= i < entries.len() ==> #[trigger] git::files_of(entries)[i] == entries[i].file,
{
}

/// A listing is split at its NULs.
pub proof fn law_fields_end_at_nuls(raw: Seq<char>)
    ensures
        git::fields(raw) == text::runs(raw, Separator::Char('\0')),
{
}

/// An untracked file is new, all of it.
pub proof fn law_untracked_files_are_added(path: Seq<char>)
    ensures
        git::untracked_entry(path) == plain_entry(path, ChangeStatus::Added),
{
}

/// The word for a review's three-dot or two-dot comparison stands between the
/// base and the head; a comparison with the working tree names the base alone.
pub proof fn law_ranges_are_written_as_git_reads_them(base: Seq<char>, head: Seq<char>)
    ensures
        git::range_text(
            RangeModel { base, head: RevModel::Ref(head), mode: DiffMode::MergeBase },
        ) == base + seq!['.', '.', '.'] + head,
        git::range_text(RangeModel { base, head: RevModel::Ref(head), mode: DiffMode::Direct })
            == base + seq!['.', '.'] + head,
        git::range_text(RangeModel { base, head: RevModel::WorkingTree, mode: DiffMode::Direct })
            == base,
        git::range_text(
            RangeModel { base, head: RevModel::WorkingTree, mode: DiffMode::MergeBase },
        ) == base + seq!['.', '.', '.'],
        git::rev_text(RevModel::Ref(head)) == head,
        git::rev_text(RevModel::WorkingTree) == "worktree"@,
{
    reveal_strlit("...");
    reveal_strlit("..");
    assert("..."@ =~= seq!['.', '.', '.']);
    assert(".."@ =~= seq!['.', '.']);
}

/// What git is asked with. Whatever is read as a listing is asked for with `-z`,
/// so that paths come unquoted. A diff names its range, or the base alone where
/// the working tree is compared with the merge base; a file is shown at its ref
/// and under its path.
pub proof fn law_git_is_asked_for(
    range: &git::RefRange,
    one: &str,
    other: &str,
)
    ensures
        git::query_args(GitQuery::Toplevel) == seq!["rev-parse"@, "--show-toplevel"@],
        git::query_args(GitQuery::RefExists(one)) == seq![
            "rev-parse"@,
            "--verify"@,
            "--quiet"@,
            one@,
        ],
        git::query_args(GitQuery::Diff(range)).take(3) == seq!["diff"@, "--name-status"@, "-z"@],
        git::query_args(GitQuery::Diff(range)).len() >= 4,
        range@.mode == DiffMode::MergeBase && range@.head == RevModel::WorkingTree
            ==> git::query_args(GitQuery::Diff(range)).skip(3) == seq!["--merge-base"@, range@.base],
        !(range@.mode == DiffMode::MergeBase && range@.head == RevModel::WorkingTree)
            ==> git::query_args(GitQuery::Diff(range)).skip(3) == seq![git::range_text(range@)],
        git::query_args(GitQuery::Untracked) == seq![
            "ls-files"@,
            "--others"@,
            "--exclude-standard"@,
            "-z"@,
        ],
        git::query_args(GitQuery::MergeBase(one, other)) == seq!["merge-base"@, one@, other@],
        git::query_args(GitQuery::Show(one, other)) == seq!["show"@, one@ + seq![':'] + other@],
        git::query_args(GitQuery::ListTree(one)) == seq![
            "ls-tree"@,
            "-r"@,
            "--name-only"@,
            "-z"@,
            one@,
        ],
        git::query_args(GitQuery::ListWorktree) == seq![
            "ls-files"@,
            "--cached"@,
            "--others"@,
            "--exclude-standard"@,
            "-z"@,
        ],
        git::query_args(GitQuery::OriginUrl) == seq!["remote"@, "get-url"@, "origin"@],
        git::query_args(GitQuery::Fetch(one)) == seq!["fetch"@, "origin"@, one@],
{
    reveal_strlit(":");
    assert(":"@ =~= seq![':']);
    let args = git::query_args(GitQuery::Diff(range));
    assert(args.take(3) =~= seq!["diff"@, "--name-status"@, "-z"@]);
    if range@.mode == DiffMode::MergeBase && range@.head == RevModel::WorkingTree {
        assert(args.skip(3) =~= seq!["--merge-base"@, range@.base]);
    } else {
        assert(args.skip(3) =~= seq![git::range_text(range@)]);
    }
}

/// What git wrote counts only if it succeeded; otherwise what it complained of
/// does, with its exit code, or minus one if it was ended by a signal.
pub proof fn law_failures_of_git_are_errors(output: GitOutput)
    ensures
        output.success <==> git::checked(output) is Ok,
        git::checked(output) matches Ok(words) ==> words == git::lossy_text(output.stdout@),
        git::checked(output) matches Err(error) ==> (error matches ErrorModel::GitFailed {
            status,
            stderr,
        } && stderr == git::lossy_text(output.stderr@) && (output.code matches Some(code) ==> status
            == code) && (output.code is None ==> status == -1)),
{
}

/// Each error of git says what it is about.
pub proof fn law_errors_say_what_failed(words: Seq<char>, path: Seq<char>, status: i32)
    ensures
        git::error_text(ErrorModel::Spawn(words)) == "failed to spawn git: "@ + words,
        git::error_text(ErrorModel::UnexpectedOutput(words)) == "unexpected git output: "@ + words,
        git::error_text(ErrorModel::GitFailed { status, stderr: words })
            == "git exited with status "@ + git::signed(status as int) + ": "@ + words,
        git::error_text(ErrorModel::WorktreeRead { path, reason: words }) == "failed to read "@
            + path + " from the working tree: "@ + words,
        status >= 0 ==> git::signed(status as int) == text::decimal(status as nat),
        status < 0 ==> git::signed(status as int) == seq!['-'] + text::decimal((-status) as nat),
        git::missing_path(words) == ErrorModel::UnexpectedOutput(
            "missing path after status "@ + git::quoted(words),
        ),
{
    reveal_strlit("-");
    assert("-"@ =~= seq!['-']);
}

/// A forge publishes a request's head under its number, GitLab among the merge
/// requests and any other among the pulls.
pub proof fn law_requests_are_published_by_number(origin: Seq<char>, number: nat)
    ensures
        text::occurs(origin, "gitlab"@) ==> git::published_ref(origin, number)
            == "refs/merge-requests/"@ + text::decimal(number) + "/head"@,
        !text::occurs(origin, "gitlab"@) ==> git::published_ref(origin, number) == "refs/pull/"@
            + text::decimal(number) + "/head"@,
{
}

/// A side, if anything is written there.
pub open spec fn written(side: Seq<char>) -> Option<Seq<char>> {
    if side.len() > 0 {
        Some(side)
    } else {
        None
    }
}

/// A range is split around the first three dots, and compares with the merge
/// base; without three dots around the first two, and compares directly; without
/// either it is the base. A side that is empty is not given.
pub proof fn law_ranges_split_at_their_dots(
    raw: Seq<char>,
    before: Seq<char>,
    after: Seq<char>,
)
    ensures
        raw == before + seq!['.', '.', '.'] + after && !text::occurs(
            before + seq!['.', '.'],
            seq!['.', '.', '.'],
        ) ==> range::sides(raw) == (SidesModel {
            base: written(before),
            head: written(after),
            mode: DiffMode::MergeBase,
        }),
        raw == before + seq!['.', '.'] + after && !text::occurs(raw, seq!['.', '.', '.'])
            && !text::occurs(before + seq!['.'], seq!['.', '.']) ==> range::sides(raw) == (
        SidesModel { base: written(before), head: written(after), mode: DiffMode::Direct }),
        !text::occurs(raw, seq!['.', '.']) ==> range::sides(raw) == (SidesModel {
            base: written(raw),
            head: None,
            mode: DiffMode::MergeBase,
        }),
{
    reveal_strlit("...");
    reveal_strlit("..");
    let three = seq!['.', '.', '.'];
    let two = seq!['.', '.'];
    assert("..."@ =~= three);
    assert(".."@ =~= two);
    assert(three.take(2) =~= two);
    assert(two.take(1) =~= seq!['.']);
    let b = before.len() as int;
    if raw == before + three + after && !text::occurs(before + two, three) {
        lemma_first(raw, before, three, after, two);
        range::lemma_first_place(raw, three, b);
        assert(raw.take(b) =~= before);
        assert(raw.skip(b + 3) =~= after);
    }
    if raw == before + two + after && !text::occurs(raw, three) && !text::occurs(
        before + seq!['.'],
        two,
    ) {
        lemma_first(raw, before, two, after, seq!['.']);
        range::lemma_first_place(raw, two, b);
        assert(raw.take(b) =~= before);
        assert(raw.skip(b + 2) =~= after);
    }
    if !text::occurs(raw, two) && text::occurs(raw, three) {
        let at = choose|at: int| text::occurs_at(raw, three, at);
        assert(raw.subrange(at, at + 2) =~= raw.subrange(at, at + 3).take(2));
        assert(three.take(2) =~= two);
        assert(text::occurs_at(raw, two, at));
    }
}

/// Dots after a text are the first if none start in the text.
proof fn lemma_first(
    raw: Seq<char>,
    before: Seq<char>,
    dots: Seq<char>,
    after: Seq<char>,
    fewer: Seq<char>,
)
    requires
        raw == before + dots + after,
        dots.len() == fewer.len() + 1,
        fewer == dots.take(fewer.len() as int),
        !text::occurs(before + fewer, dots),
    ensures
        text::first_at(raw, dots, before.len() as int),
{
    let b = before.len() as int;
    assert(raw.subrange(b, b + dots.len()) =~= dots);
    assert forall|at: int| 0 <= at < b implies !text::occurs_at(raw, dots, at) by {
        if text::occurs_at(raw, dots, at) {
            let short = before + fewer;
            assert(short =~= raw.take(b + fewer.len()));
            assert(short.subrange(at, at + dots.len()) =~= raw.subrange(at, at + dots.len()));
            assert(text::occurs_at(short, dots, at));
        }
    }
}

/// Without a base, `origin/main` is reviewed against if it exists, or else
/// `origin/master`, or else `main`, or else `master`; each is asked about only
/// once those before it are known not to exist.
pub proof fn law_bases_are_tried_in_order(answers: Seq<bool>)
    ensures
        answers.len() == 0 ==> range::base_from(answers, 0) == BaseModel::Ask("origin/main"@),
        answers.len() > 0 && answers[0] ==> range::base_from(answers, 0) == BaseModel::Found(
            "origin/main"@,
        ),
        answers.len() == 1 && !answers[0] ==> range::base_from(answers, 0) == BaseModel::Ask(
            "origin/master"@,
        ),
        answers.len() > 1 && !answers[0] && answers[1] ==> range::base_from(answers, 0)
            == BaseModel::Found("origin/master"@),
        answers.len() == 2 && !answers[0] && !answers[1] ==> range::base_from(answers, 0)
            == BaseModel::Ask("main"@),
        answers.len() > 2 && !answers[0] && !answers[1] && answers[2] ==> range::base_from(
            answers,
            0,
        ) == BaseModel::Found("main"@),
        answers.len() == 3 && !answers[0] && !answers[1] && !answers[2] ==> range::base_from(
            answers,
            0,
        ) == BaseModel::Ask("master"@),
        answers.len() > 3 && !answers[0] && !answers[1] && !answers[2] && answers[3]
            ==> range::base_from(answers, 0) == BaseModel::Found("master"@),
        answers.len() > 3 && !answers[0] && !answers[1] && !answers[2] && !answers[3]
            ==> range::base_from(answers, 0) == BaseModel::Missing,
{
    reveal_with_fuel(range::base_from, 5);
}

/// A range keeps the sides it is given. A base that is not given is the default
/// one, a head that is not given is `HEAD`, and without a range at all the
/// comparison is with the merge base.
pub proof fn law_ranges_keep_their_sides(raw: Option<Seq<char>>, answers: Seq<bool>)
    ensures
        ({
            let sides = match raw {
                Some(words) => range::sides(words),
                None => SidesModel { base: None, head: None, mode: DiffMode::MergeBase },
            };
            let head = match sides.head {
                Some(name) => name,
                None => "HEAD"@,
            };
            match range::resolved(raw, answers) {
                StepModel::Range(found) => {
                    &&& found.head == RevModel::Ref(head)
                    &&& found.mode == sides.mode
                    &&& sides.base matches Some(base) ==> found.base == base
                    &&& sides.base is None ==> range::base_from(answers, 0) == BaseModel::Found(
                        found.base,
                    )
                },
                StepModel::Ask(name) => sides.base is None && range::base_from(answers, 0)
                    == BaseModel::Ask(name),
                StepModel::Missing => sides.base is None && range::base_from(answers, 0)
                    == BaseModel::Missing,
            }
        }),
{
}

/// Whether a file name is a stem and an extension.
pub open spec fn named(name: Seq<char>, stem: Seq<char>, ext: Seq<char>) -> bool {
    &&& name == stem + seq!['.'] + ext
    &&& stem.len() > 0
    &&& forall|i: int| 0 <= i < name.len() ==> (#[trigger] name[i]) != '/'
    &&& forall|i: int| 0 <= i < ext.len() ==> (#[trigger] ext[i]) != '.'
}

/// A file is taken for Go if its name ends in `.go`, for Rust if in `.rs`, and
/// for neither otherwise, whatever directory it stands in. A name that has no
/// extension, or nothing else, is taken for neither.
pub proof fn law_extensions_tell_the_language(
    dir: Seq<char>,
    name: Seq<char>,
    stem: Seq<char>,
    ext: Seq<char>,
)
    requires
        dir.len() == 0 || dir.last() == '/',
        name.len() > 0,
        name != seq!['.'],
        name != seq!['.', '.'],
        forall|i: int| 0 <= i < name.len() ==> (#[trigger] name[i]) != '/',
    ensures
        named(name, stem, ext) && ext == seq!['g', 'o'] ==> registry::language_of(dir + name)
            == Some(Grammar::Go),
        named(name, stem, ext) && ext == seq!['r', 's'] ==> registry::language_of(dir + name)
            == Some(Grammar::Rust),
        named(name, stem, ext) && ext != seq!['g', 'o'] && ext != seq!['r', 's']
            ==> registry::language_of(dir + name) is None,
        (forall|i: int| 1 <= i < name.len() ==> (#[trigger] name[i]) != '.')
            ==> registry::language_of(dir + name) is None,
{
    let path = dir + name;
    let sep = Separator::Char('/');
    reveal_strlit(".");
    reveal_strlit("..");
    reveal_strlit("go");
    reveal_strlit("rs");
    assert("."@ =~= seq!['.']);
    assert(".."@ =~= seq!['.', '.']);
    assert("go"@ =~= seq!['g', 'o']);
    assert("rs"@ =~= seq!['r', 's']);
    assert("go"@[0] != "rs"@[0]);
    // The name is the last of the path's segments.
    let spans = word_laws::law_splitting_loses_nothing(path, sep);
    let parts = registry::segments(path);
    let d = dir.len() as int;
    let end = path.len() as int;
    assert(!text::separates(sep, path[end - 1])) by {
        assert(path[end - 1] == name[name.len() - 1]);
    }
    assert(word_laws::within(spans, end - 1));
    let k = choose|k: int| 0 <= k < spans.len() && (#[trigger] spans[k]).0 <= end - 1 < spans[k].1;
    let last = spans.len() - 1;
    assert(word_laws::run_at(path, sep, parts[k], spans[k]));
    if k < last {
        assert(spans[k].1 < spans[last].0);
        assert(word_laws::run_at(path, sep, parts[last], spans[last]));
    }
    assert(k == last);
    let start = spans[last].0;
    if start > d {
        assert(path[start - 1] == name[start - 1 - d]);
    }
    if start < d {
        assert(path[d - 1] == dir.last());
        assert(!text::separates(sep, path[d - 1]));
    }
    assert(start == d);
    assert(parts[last] =~= name);
    assert(registry::file_name(path) == Some(name));
    let n = name.len() as int;
    lemma_dot(name, n);
    if named(name, stem, ext) {
        let s = stem.len() as int;
        assert(name[s] == '.');
        if let Some(at) = registry::last_dot(name, n) {
            if at > s {
                assert(name[at] == ext[at - s - 1]);
            }
            assert(at == s);
            assert(name.skip(s + 1) =~= ext);
        }
    }
}

/// A path that ends in a slash, or in a dot for where it already is, leads where
/// it would without; one that ends in two dots leads to no file by name.
pub proof fn law_trailing_slashes_do_not_count(path: Seq<char>)
    ensures
        registry::language_of(path.push('/')) == registry::language_of(path),
        registry::language_of(path.push('/').push('.')) == registry::language_of(path),
        registry::language_of(path.push('/').push('.').push('.')) is None,
{
    let sep = Separator::Char('/');
    let parts = registry::segments(path);
    let slashed = path.push('/');
    let dot = slashed.push('.');
    let dots = dot.push('.');
    reveal_strlit(".");
    reveal_strlit("..");
    assert("."@ =~= seq!['.']);
    assert(".."@ =~= seq!['.', '.']);
    assert(slashed.drop_last() =~= path);
    assert(registry::segments(slashed) == parts);
    assert(dot.drop_last() =~= slashed);
    assert(registry::segments(dot) == parts.push("."@));
    lemma_last_segment(parts, "."@, parts.len() as int);
    assert(dots.drop_last() =~= dot);
    assert(dots[dots.len() - 2] == '.');
    let all = registry::segments(dots);
    assert(all =~= parts.push(".."@)) by {
        assert(parts.push("."@).drop_last() =~= parts);
        assert("."@.push('.') =~= ".."@);
    }
    assert(all.last() == ".."@);
    assert(".."@ != "."@) by {
        assert(".."@.len() != "."@.len());
    }
}

/// Segments that more join are looked through the same.
proof fn lemma_last_segment(parts: Seq<Seq<char>>, more: Seq<char>, n: int)
    requires
        0 <= n <= parts.len(),
    ensures
        registry::last_segment(parts.push(more), n) == registry::last_segment(parts, n),
    decreases n,
{
    if n > 0 {
        lemma_last_segment(parts, more, n - 1);
    }
}

/// Where the last dot of a name is.
proof fn lemma_dot(name: Seq<char>, n: int)
    requires
        0 <= n <= name.len(),
    ensures
        match registry::last_dot(name, n) {
            Some(at) => 0 <= at < n && name[at] == '.' && forall|i: int|
                at < i < n ==> (#[trigger] name[i]) != '.',
            None => forall|i: int| 0 <= i < n ==> (#[trigger] name[i]) != '.',
        },
    decreases n,
{
    if n > 0 {
        lemma_dot(name, n - 1);
    }
}

/// A Go file gives the items of Go, a Rust file those of Rust; a source that is
/// too long gives no tree, and a tree that does not fit its source is refused.
pub proof fn law_languages_are_not_mixed_up(source: Seq<char>, path: Seq<char>)
    ensures
        registry::extracted(Grammar::Go, source, path) matches Ok(items) ==> items
            == go::file_items(syntax::parsed(Grammar::Go, source), source, path),
        registry::extracted(Grammar::Rust, source, path) matches Ok(items) ==> items
            == rust::file_items(syntax::parsed(Grammar::Rust, source), source, path),
        forall|grammar: Grammar|
            !syntax::parsable(source) <==> #[trigger] registry::extracted(grammar, source, path)
                == Err::<Seq<ItemModel>, ProducerError>(ProducerError::NoTree),
        forall|grammar: Grammar|
            syntax::parsable(source) && syntax::readable(syntax::parsed(grammar, source), source)
                <==> #[trigger] registry::extracted(grammar, source, path) is Ok,
{
}

/// A deleted file is reported as such, whatever it held. A file that was added is
/// compared with nothing, a modified one with what it was, both under the file's
/// path; a file in no language brings nothing. A file whose content cannot be read
/// fails.
pub proof fn law_files_bring_their_change(
    path: Seq<char>,
    base: Seq<char>,
    head: Seq<char>,
    before: Seq<ItemModel>,
    after: Seq<ItemModel>,
)
    ensures
        review::contribution(SourceModel { path, sources: SourcesModel::Deleted }) == Ok::<
            Option<FileModel>,
            ProducerError,
        >(Some(FileModel { path, kind: FileKindModel::Deleted })),
        registry::language_of(path) is None ==> review::contribution(
            SourceModel { path, sources: SourcesModel::Added { head } },
        ) == Ok::<Option<FileModel>, ProducerError>(None) && review::contribution(
            SourceModel { path, sources: SourcesModel::Modified { base, head } },
        ) == Ok::<Option<FileModel>, ProducerError>(None),
        registry::language_of(path) matches Some(grammar) ==> {
            let added = review::contribution(
                SourceModel { path, sources: SourcesModel::Added { head } },
            );
            let modified = review::contribution(
                SourceModel { path, sources: SourcesModel::Modified { base, head } },
            );
            let was = registry::extracted(grammar, base, path);
            let is = registry::extracted(grammar, head, path);
            &&& is == Ok::<Seq<ItemModel>, ProducerError>(after) ==> brings(
                added,
                path,
                seq![],
                after,
            )
            &&& was == Ok::<Seq<ItemModel>, ProducerError>(before) && is == Ok::<
                Seq<ItemModel>,
                ProducerError,
            >(after) ==> brings(modified, path, before, after)
            &&& is is Err ==> added is Err && modified is Err
            &&& was is Err ==> modified is Err
        },
{
}

/// Whether a contribution is the change from one list of items to another: none
/// if they do not differ.
pub open spec fn brings(
    out: Result<Option<FileModel>, ProducerError>,
    path: Seq<char>,
    before: Seq<ItemModel>,
    after: Seq<ItemModel>,
) -> bool {
    let blocks = changes::diff_blocks(before, after);
    out matches Ok(change) && match change {
        None => blocks.len() == 0,
        Some(file) => blocks.len() > 0 && file.path == path && file.kind == FileKindModel::Changed(
            blocks,
        ),
    }
}

/// A review is what its files bring, one after the other, if none of them fails;
/// and the first failure otherwise, with the file it came from.
pub proof fn law_reviews_hold_what_files_bring(files: Seq<SourceModel>, n: int)
    requires
        0 <= n <= files.len(),
    ensures
        match review::review_of(files, n) {
            Ok(found) => layout::in_turn(found, |i: int| brought(files[i]), n) && forall|i: int|
                0 <= i < n ==> review::contribution(#[trigger] files[i]) is Ok,
            Err(failure) => exists|i: int|
                0 <= i < n && (#[trigger] files[i]).path == failure.path && review::contribution(
                    files[i],
                ) == Err::<Option<FileModel>, ProducerError>(failure.error) && forall|j: int|
                    0 <= j < i ==> review::contribution(#[trigger] files[j]) is Ok,
        },
    decreases n,
{
    let piece = |i: int| brought(files[i]);
    if n == 0 {
        layout::lemma_no_pieces(piece);
    } else {
        law_reviews_hold_what_files_bring(files, n - 1);
        match review::review_of(files, n - 1) {
            Ok(before) => {
                layout::lemma_one_more(before, piece, n - 1);
                match review::contribution(files[n - 1]) {
                    Ok(None) => {
                        assert(before + piece(n - 1) =~= before);
                    },
                    Ok(Some(change)) => {
                        assert(before + piece(n - 1) =~= before.push(change));
                    },
                    Err(_) => {
                        assert(files[n - 1].path == files[n - 1].path);
                    },
                }
            },
            Err(_) => {},
        }
    }
}

/// What a file that does not fail brings.
pub open spec fn brought(file: SourceModel) -> Seq<FileModel> {
    match review::contribution(file) {
        Ok(Some(change)) => seq![change],
        _ => seq![],
    }
}

/// Only files in a language are reviewed, each of them and in order, deleted or
/// not.
pub proof fn law_supported_files_are_kept(entries: Seq<EntryModel>)
    ensures
        layout::in_turn(
            review::supported(entries),
            |i: int|
                if registry::language_of(entries[i].file.path) is Some {
                    seq![entries[i]]
                } else {
                    seq![]
                },
            entries.len() as int,
        ),
    decreases entries.len(),
{
    lemma_supported(entries, entries.len() as int);
    assert(entries.take(entries.len() as int) =~= entries);
}

/// The first `n` entries that are kept.
proof fn lemma_supported(entries: Seq<EntryModel>, n: int)
    requires
        0 <= n <= entries.len(),
    ensures
        layout::in_turn(
            review::supported(entries.take(n)),
            |i: int|
                if registry::language_of(entries[i].file.path) is Some {
                    seq![entries[i]]
                } else {
                    seq![]
                },
            n,
        ),
    decreases n,
{
    let piece = |i: int|
        if registry::language_of(entries[i].file.path) is Some {
            seq![entries[i]]
        } else {
            seq![]
        };
    reveal(Seq::filter);
    if n == 0 {
        layout::lemma_no_pieces(piece);
        assert(review::supported(entries.take(0)) =~= seq![]);
    } else {
        lemma_supported(entries, n - 1);
        let before = review::supported(entries.take(n - 1));
        layout::lemma_one_more(before, piece, n - 1);
        assert(entries.take(n).drop_last() =~= entries.take(n - 1));
        assert(review::supported(entries.take(n)) =~= before + piece(n - 1));
    }
}

/// The base of a modified file is read under its path, or under the one it had if
/// it moved; an added or deleted file has no base to read.
pub proof fn law_base_content_is_read_where_it_was(path: Seq<char>, from: Option<Seq<char>>)
    ensures
        review::base_path(
            EntryModel { file: ChangedModel { path, status: ChangeStatus::Modified }, from },
        ) == Some(
            if from is Some {
                from->0
            } else {
                path
            },
        ),
        review::base_path(
            EntryModel { file: ChangedModel { path, status: ChangeStatus::Added }, from },
        ) is None,
        review::base_path(
            EntryModel { file: ChangedModel { path, status: ChangeStatus::Deleted }, from },
        ) is None,
{
}

/// The index takes in every file in a language that can be read, in order, each
/// under its path.
pub proof fn law_every_readable_file_is_indexed(files: Seq<HeadModel>, n: int)
    requires
        0 <= n <= files.len(),
    ensures
        layout::in_turn(
            review::head_surfaces(files, n),
            |i: int|
                match registry::language_of(files[i].path) {
                    Some(grammar) => match registry::extracted(
                        grammar,
                        files[i].source,
                        files[i].path,
                    ) {
                        Ok(items) => seq![items],
                        Err(_) => seq![],
                    },
                    None => seq![],
                },
            n,
        ),
    decreases n,
{
    let piece = |i: int|
        match registry::language_of(files[i].path) {
            Some(grammar) => match registry::extracted(grammar, files[i].source, files[i].path) {
                Ok(items) => seq![items],
                Err(_) => seq![],
            },
            None => seq![],
        };
    if n == 0 {
        layout::lemma_no_pieces(piece);
    } else {
        law_every_readable_file_is_indexed(files, n - 1);
        let before = review::head_surfaces(files, n - 1);
        layout::lemma_one_more(before, piece, n - 1);
        assert(review::head_surfaces(files, n) =~= before + piece(n - 1));
    }
}

} // verus!
