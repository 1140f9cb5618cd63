//! What absolem asks of git, and how it reads the answers.
//!
//! Nothing here runs a process: a `GitQuery` says which arguments to run git
//! with, and the functions beside it make sense of what git wrote.

use vstd::prelude::*;
use vstd::utf8::*;

use crate::item;
use crate::text::{self, Separator};
use crate::text_laws;
use crate::word_laws;

verus! {

/// Why git gave no answer.
#[derive(Debug, PartialEq, Eq)]
pub enum GitError {
    /// Git could not be started, for the given reason.
    Spawn(String),
    GitFailed { status: i32, stderr: String },
    UnexpectedOutput(String),
    WorktreeRead { path: String, reason: String },
}

/// A reviewable state of the tree: a committed ref, or the working tree as it
/// sits on disk, uncommitted changes and all. Only the head side of a review
/// may be the working tree — the base is always a ref.
#[derive(Debug, PartialEq, Eq)]
pub enum Rev {
    Ref(String),
    WorkingTree,
}

/// How the two refs of a review are compared.
#[derive(Clone, Copy, Debug, PartialEq, Eq, Structural)]
pub enum DiffMode {
    /// Three-dot: changes since the merge base — what GitHub/GitLab show on a
    /// PR, and the default.
    MergeBase,
    /// Two-dot: a direct tree-to-tree diff between the refs.
    Direct,
}

/// The two sides under review, plus the semantics for comparing them.
#[derive(Debug, PartialEq, Eq)]
pub struct RefRange {
    pub base: String,
    pub head: Rev,
    pub mode: DiffMode,
}

/// A file that changed between the two sides.
#[derive(Debug, PartialEq, Eq)]
pub struct ChangedFile {
    pub path: String,
    pub status: ChangeStatus,
}

/// How a file changed.
#[derive(Clone, Copy, Debug, PartialEq, Eq, Structural)]
pub enum ChangeStatus {
    Added,
    Modified,
    Deleted,
}

/// One entry of a name-status listing: the file, and the path it had before
/// if it was renamed or copied.
#[derive(Debug, PartialEq, Eq)]
pub struct Entry {
    pub file: ChangedFile,
    pub from: Option<String>,
}

/// What a finished git process left behind.
pub struct GitOutput {
    pub success: bool,
    /// The exit code, unless a signal ended the process.
    pub code: Option<i32>,
    pub stdout: Vec<u8>,
    pub stderr: Vec<u8>,
}

/// The mathematical model of a `GitError`.
pub enum ErrorModel {
    Spawn(Seq<char>),
    GitFailed { status: i32, stderr: Seq<char> },
    UnexpectedOutput(Seq<char>),
    WorktreeRead { path: Seq<char>, reason: Seq<char> },
}

/// The mathematical model of a `Rev`.
pub enum RevModel {
    Ref(Seq<char>),
    WorkingTree,
}

/// The mathematical model of a `RefRange`.
#[verifier::ext_equal]
pub struct RangeModel {
    pub base: Seq<char>,
    pub head: RevModel,
    pub mode: DiffMode,
}

/// The mathematical model of a `ChangedFile`.
#[verifier::ext_equal]
pub struct ChangedModel {
    pub path: Seq<char>,
    pub status: ChangeStatus,
}

/// The mathematical model of an `Entry`.
#[verifier::ext_equal]
pub struct EntryModel {
    pub file: ChangedModel,
    pub from: Option<Seq<char>>,
}

impl View for GitError {
    type V = ErrorModel;

    open spec fn view(&self) -> ErrorModel {
        match *self {
            GitError::Spawn(reason) => ErrorModel::Spawn(reason@),
            GitError::GitFailed { status, stderr } => ErrorModel::GitFailed {
                status,
                stderr: stderr@,
            },
            GitError::UnexpectedOutput(what) => ErrorModel::UnexpectedOutput(what@),
            GitError::WorktreeRead { path, reason } => ErrorModel::WorktreeRead {
                path: path@,
                reason: reason@,
            },
        }
    }
}

impl View for Rev {
    type V = RevModel;

    open spec fn view(&self) -> RevModel {
        match *self {
            Rev::Ref(name) => RevModel::Ref(name@),
            Rev::WorkingTree => RevModel::WorkingTree,
        }
    }
}

impl View for RefRange {
    type V = RangeModel;

    open spec fn view(&self) -> RangeModel {
        RangeModel { base: self.base@, head: self.head@, mode: self.mode }
    }
}

impl View for ChangedFile {
    type V = ChangedModel;

    open spec fn view(&self) -> ChangedModel {
        ChangedModel { path: self.path@, status: self.status }
    }
}

impl View for Entry {
    type V = EntryModel;

    open spec fn view(&self) -> EntryModel {
        EntryModel { file: self.file@, from: item::optional_text(self.from) }
    }
}

impl Clone for Rev {
    fn clone(&self) -> (copy: Self)
        ensures
            copy@ == self@,
    {
        match self {
            Rev::Ref(name) => Rev::Ref(name.clone()),
            Rev::WorkingTree => Rev::WorkingTree,
        }
    }
}

impl Clone for RefRange {
    fn clone(&self) -> (copy: Self)
        ensures
            copy@ == self@,
    {
        RefRange { base: self.base.clone(), head: self.head.clone(), mode: self.mode }
    }
}

impl Clone for ChangedFile {
    fn clone(&self) -> (copy: Self)
        ensures
            copy@ == self@,
    {
        ChangedFile { path: self.path.clone(), status: self.status }
    }
}

/// The text that a byte sequence amounts to, with replacement characters in
/// place of what is not UTF-8.
pub uninterp spec fn lossy_text(bytes: Seq<u8>) -> Seq<char>;

/// `String::from_utf8_lossy`: what it makes of bytes depends on the bytes
/// alone, and bytes that are UTF-8 are decoded as they are.
#[verifier::external_body]
fn lossy(bytes: &Vec<u8>) -> (decoded: String)
    ensures
        decoded@ == lossy_text(bytes@),
        valid_utf8(bytes@) ==> decoded@ == decode_utf8(bytes@),
{
    String::from_utf8_lossy(bytes).into_owned()
}

/// A text in double quotes, with what cannot be shown plainly escaped.
pub uninterp spec fn quoted(s: Seq<char>) -> Seq<char>;

/// The `Debug` rendering of a string, which depends on its characters alone.
#[verifier::external_body]
fn quote(s: &str) -> (words: String)
    ensures
        words@ == quoted(s@),
{
    format!("{s:?}")
}

/// A signed number in decimal.
pub open spec fn signed(n: int) -> Seq<char> {
    if n < 0 {
        "-"@ + text::decimal((-n) as nat)
    } else {
        text::decimal(n as nat)
    }
}

/// Writes a signed number in decimal.
fn signed_text(n: i32) -> (words: String)
    ensures
        words@ == signed(n as int),
{
    if n < 0 {
        let size: u64 = (-(n as i64)) as u64;
        let digits = text::decimal_text(size);
        text::join2("-", digits.as_str())
    } else {
        text::decimal_text(n as u64)
    }
}

/// An error in words.
pub open spec fn error_text(error: ErrorModel) -> Seq<char> {
    match error {
        ErrorModel::Spawn(reason) => "failed to spawn git: "@ + reason,
        ErrorModel::GitFailed { status, stderr } => "git exited with status "@ + signed(
            status as int,
        ) + ": "@ + stderr,
        ErrorModel::UnexpectedOutput(what) => "unexpected git output: "@ + what,
        ErrorModel::WorktreeRead { path, reason } => "failed to read "@ + path
            + " from the working tree: "@ + reason,
    }
}

impl GitError {
    /// The error in words.
    pub fn message(&self) -> (words: String)
        ensures
            words@ == error_text(self@),
    {
        match self {
            GitError::Spawn(reason) => text::join2("failed to spawn git: ", reason.as_str()),
            GitError::GitFailed { status, stderr } => {
                let code = signed_text(*status);
                text::join4("git exited with status ", code.as_str(), ": ", stderr.as_str())
            },
            GitError::UnexpectedOutput(what) => text::join2(
                "unexpected git output: ",
                what.as_str(),
            ),
            GitError::WorktreeRead { path, reason } => text::join4(
                "failed to read ",
                path.as_str(),
                " from the working tree: ",
                reason.as_str(),
            ),
        }
    }
}

/// How a state of the tree is called.
pub open spec fn rev_text(rev: RevModel) -> Seq<char> {
    match rev {
        RevModel::Ref(name) => name,
        RevModel::WorkingTree => "worktree"@,
    }
}

impl Rev {
    /// How the state of the tree is called.
    pub fn name(&self) -> (words: String)
        ensures
            words@ == rev_text(self@),
    {
        match self {
            Rev::Ref(name) => name.clone(),
            Rev::WorkingTree => "worktree".to_owned(),
        }
    }
}

/// The argument `git diff` expects for a range. Git's own grammar already
/// covers the working tree: a bare `base` diffs it directly.
pub open spec fn range_text(range: RangeModel) -> Seq<char> {
    match (range.head, range.mode) {
        (RevModel::Ref(head), DiffMode::MergeBase) => range.base + "..."@ + head,
        (RevModel::Ref(head), DiffMode::Direct) => range.base + ".."@ + head,
        (RevModel::WorkingTree, DiffMode::MergeBase) => range.base + "..."@,
        (RevModel::WorkingTree, DiffMode::Direct) => range.base,
    }
}

impl RefRange {
    /// The range in git's grammar.
    pub fn to_git_range(&self) -> (words: String)
        ensures
            words@ == range_text(self@),
    {
        match (&self.head, self.mode) {
            (Rev::Ref(head), DiffMode::MergeBase) => text::join3(
                self.base.as_str(),
                "...",
                head.as_str(),
            ),
            (Rev::Ref(head), DiffMode::Direct) => text::join3(
                self.base.as_str(),
                "..",
                head.as_str(),
            ),
            (Rev::WorkingTree, DiffMode::MergeBase) => text::join2(self.base.as_str(), "..."),
            (Rev::WorkingTree, DiffMode::Direct) => self.base.clone(),
        }
    }

    /// The same review with another head.
    pub fn with_head(self, head: Rev) -> (range: RefRange)
        ensures
            range@ == (RangeModel { head: head@, ..self@ }),
            range.base@ == self.base@,
            range.head@ == head@,
            range.mode == self.mode,
    {
        RefRange { base: self.base, head, mode: self.mode }
    }
}

/// The ref a forge publishes a PR/MR head under.
pub open spec fn published_ref(origin_url: Seq<char>, number: nat) -> Seq<char> {
    if text::occurs(origin_url, "gitlab"@) {
        "refs/merge-requests/"@ + text::decimal(number) + "/head"@
    } else {
        "refs/pull/"@ + text::decimal(number) + "/head"@
    }
}

/// The ref a forge publishes a PR/MR head under, chosen from the origin URL:
/// GitLab uses `refs/merge-requests/`, GitHub (and the Gitea family) use
/// `refs/pull/`.
pub fn pr_refspec(origin_url: &str, number: u32) -> (words: String)
    ensures
        words@ == published_ref(origin_url@, number as nat),
{
    let digits = text::decimal_text(number as u64);
    if text::contains(origin_url, "gitlab") {
        text::join3("refs/merge-requests/", digits.as_str(), "/head")
    } else {
        text::join3("refs/pull/", digits.as_str(), "/head")
    }
}

/// The non-empty NUL-separated fields of what git writes with `-z`.
pub open spec fn fields(raw: Seq<char>) -> Seq<Seq<char>> {
    text::runs(raw, Separator::Char('\0'))
}

/// What a name-status listing amounts to: its entries, or the status field
/// that no path follows.
pub enum Listing {
    Entries(Seq<EntryModel>),
    Missing(Seq<char>),
}

/// One more entry before the rest of a listing.
pub open spec fn preceded(entry: EntryModel, rest: Listing) -> Listing {
    match rest {
        Listing::Entries(entries) => Listing::Entries(seq![entry] + entries),
        Listing::Missing(status) => Listing::Missing(status),
    }
}

/// How a file changed, by the letter its status starts with.
pub open spec fn letter_status(letter: char) -> Option<ChangeStatus> {
    if letter == 'A' {
        Some(ChangeStatus::Added)
    } else if letter == 'D' {
        Some(ChangeStatus::Deleted)
    } else if letter == 'M' || letter == 'T' || letter == 'R' || letter == 'C' {
        Some(ChangeStatus::Modified)
    } else {
        None
    }
}

/// Whether two paths follow the status: the old one and the new one.
pub open spec fn letter_moves(letter: char) -> bool {
    letter == 'R' || letter == 'C'
}

/// The listing that the fields from `i` on hold. For `A`/`M`/`D`/`T` a path
/// follows the status; for `R`/`C` the old path and the new one, and the entry
/// is a modification of the new one. What follows any other status is skipped.
pub open spec fn listing(all: Seq<Seq<char>>, i: int) -> Listing
    decreases all.len() - i,
{
    if i >= all.len() {
        Listing::Entries(seq![])
    } else {
        let letter = all[i][0];
        match letter_status(letter) {
            None => if i + 2 < all.len() {
                listing(all, i + 2)
            } else {
                Listing::Entries(seq![])
            },
            Some(status) => {
                let at = if letter_moves(letter) {
                    i + 2
                } else {
                    i + 1
                };
                if at >= all.len() {
                    Listing::Missing(all[i])
                } else {
                    preceded(
                        EntryModel {
                            file: ChangedModel { path: all[at], status },
                            from: if letter_moves(letter) {
                                Some(all[i + 1])
                            } else {
                                None
                            },
                        },
                        listing(all, at + 1),
                    )
                }
            },
        }
    }
}

/// The files of a sequence of entries.
pub open spec fn files_of(entries: Seq<EntryModel>) -> Seq<ChangedModel> {
    Seq::new(entries.len(), |i: int| entries[i].file)
}

/// The error for a status that no path follows.
pub open spec fn missing_path(status: Seq<char>) -> ErrorModel {
    ErrorModel::UnexpectedOutput("missing path after status "@ + quoted(status))
}

/// Parses `git diff --name-status -z` output into entries.
pub fn parse_entries(output: &str) -> (entries: Result<Vec<Entry>, GitError>)
    ensures
        match listing(fields(output@), 0) {
            Listing::Entries(expected) => entries matches Ok(found) && item::views(found@)
                == expected,
            Listing::Missing(status) => entries matches Err(error) && error@ == missing_path(
                status,
            ),
        },
{
    let parts = text::split_runs(output, &Separator::Char('\0'));
    let ghost all = fields(output@);
    proof {
        text_laws::lemma_runs_solid(output@, Separator::Char('\0'));
    }
    let length: usize = parts.len();
    assert(all.len() == length);
    let mut found: Vec<Entry> = Vec::new();
    let mut i: usize = 0;
    assert(item::views(found@) =~= seq![]);
    assert(continues(item::views(found@), listing(all, 0)) == listing(all, 0)) by {
        if let Listing::Entries(entries) = listing(all, 0) {
            assert(item::views(found@) + entries =~= entries);
        }
    }
    while i < length
        invariant
            all.len() == length == parts@.len(),
            all == fields(output@),
            text::texts(parts@) == all,
            forall|k: int| 0 <= k < all.len() ==> (#[trigger] all[k]).len() > 0,
            listing(all, 0) == continues(item::views(found@), listing(all, i as int)),
        decreases length - i,
    {
        let field = parts[i].as_str();
        assert(all[i as int] == field@);
        let letter = text::chars_of(field)[0];
        let ghost before = item::views(found@);
        let status: Option<ChangeStatus> = match letter {
            'A' => Some(ChangeStatus::Added),
            'D' => Some(ChangeStatus::Deleted),
            'M' | 'T' | 'R' | 'C' => Some(ChangeStatus::Modified),
            _ => None,
        };
        match status {
            None => {
                if length - i <= 2 {
                    i = length;
                } else {
                    i = i + 2;
                }
            },
            Some(change) => {
                let moves = letter == 'R' || letter == 'C';
                let needed: usize = if moves {
                    2
                } else {
                    1
                };
                if length - i <= needed {
                    let words = quote(field);
                    return Err(
                        GitError::UnexpectedOutput(
                            text::join2("missing path after status ", words.as_str()),
                        ),
                    );
                }
                let at: usize = i + needed;
                assert(all[at as int] == parts@[at as int]@);
                assert(all[i + 1] == parts@[i + 1]@);
                let entry = Entry {
                    file: ChangedFile { path: parts[at].clone(), status: change },
                    from: if moves {
                        Some(parts[i + 1].clone())
                    } else {
                        None
                    },
                };
                proof {
                    item::lemma_views_push(found@, entry);
                    if let Listing::Entries(rest) = listing(all, at + 1) {
                        assert(before + (seq![entry@] + rest) =~= before.push(entry@) + rest);
                    }
                }
                found.push(entry);
                i = at + 1;
            },
        }
    }
    proof {
        assert(item::views(found@) + Seq::<EntryModel>::empty() =~= item::views(found@));
    }
    Ok(found)
}

/// A listing continued: the entries so far, then the rest.
spec fn continues(so_far: Seq<EntryModel>, rest: Listing) -> Listing {
    match rest {
        Listing::Entries(entries) => Listing::Entries(so_far + entries),
        Listing::Missing(status) => Listing::Missing(status),
    }
}

/// Parses `git diff --name-status -z` output. With `-z`, fields are
/// NUL-separated and unquoted. For `A`/`M`/`D`/`T`: the status, then the path.
/// For `R`/`C`: the status with a score, the old path, then the new path — we
/// keep the new path and treat the entry as `Modified`.
pub fn parse_name_status(output: &str) -> (files: Result<Vec<ChangedFile>, GitError>)
    ensures
        match listing(fields(output@), 0) {
            Listing::Entries(expected) => files matches Ok(found) && item::views(found@)
                == files_of(expected),
            Listing::Missing(status) => files matches Err(error) && error@ == missing_path(status),
        },
{
    match parse_entries(output) {
        Err(error) => Err(error),
        Ok(entries) => {
            let ghost expected = item::views(entries@);
            let mut files: Vec<ChangedFile> = Vec::new();
            let mut i: usize = 0;
            while i < entries.len()
                invariant
                    i <= entries@.len(),
                    expected == item::views(entries@),
                    item::views(files@) == files_of(expected).take(i as int),
                decreases entries.len() - i,
            {
                let file = entries[i].file.clone();
                proof {
                    item::lemma_views_push(files@, file);
                    assert(expected[i as int] == entries@[i as int]@);
                }
                files.push(file);
                i = i + 1;
                assert(item::views(files@) =~= files_of(expected).take(i as int));
            }
            assert(files_of(expected).take(i as int) =~= files_of(expected));
            Ok(files)
        },
    }
}

/// The paths of a NUL-separated listing.
pub fn parse_listing(raw: &str) -> (paths: Vec<String>)
    ensures
        text::texts(paths@) == fields(raw@),
{
    text::split_runs(raw, &Separator::Char('\0'))
}

/// The entry of a file that git does not track yet: all of it is new.
pub open spec fn untracked_entry(path: Seq<char>) -> EntryModel {
    EntryModel { file: ChangedModel { path, status: ChangeStatus::Added }, from: None }
}

/// Whether the last entries are those of `paths`, as far as the `k`-th goes: a
/// file that was added, and did not move.
pub open spec fn appended(entries: Seq<EntryModel>, paths: Seq<Seq<char>>, k: int) -> bool {
    let at = entries.len() - paths.len() + k;
    &&& 0 <= at < entries.len()
    &&& entries[at].file.path == paths[k]
    &&& entries[at].file.status == ChangeStatus::Added
    &&& entries[at].from is None
}

/// The files of a review: what the diff lists, and — `git diff` never
/// reports them, but they are exactly what a working-tree review is for — the
/// untracked files, if any were asked for.
pub fn changed_files(diff: &str, untracked: Option<&str>) -> (entries: Result<
    Vec<Entry>,
    GitError,
>)
    ensures
        match listing(fields(diff@), 0) {
            Listing::Entries(expected) => entries matches Ok(found) && item::views(found@)
                == expected + (match untracked {
                Some(raw) => Seq::new(
                    fields(raw@).len(),
                    |i: int| untracked_entry(fields(raw@)[i]),
                ),
                None => seq![],
            }),
            Listing::Missing(status) => entries matches Err(error) && error@ == missing_path(
                status,
            ),
        },
        entries matches Ok(found) ==> (untracked matches Some(raw) ==> forall|k: int|
            0 <= k < fields(raw@).len() ==> #[trigger] appended(
                item::views(found@),
                fields(raw@),
                k,
            )),
{
    let mut entries = match parse_entries(diff) {
        Err(error) => {
            return Err(error);
        },
        Ok(found) => found,
    };
    let ghost expected = item::views(entries@);
    if let Some(raw) = untracked {
        let paths = parse_listing(raw);
        let ghost all = fields(raw@);
        let ghost more = Seq::new(all.len(), |i: int| untracked_entry(all[i]));
        let mut i: usize = 0;
        assert(expected + more.take(0) =~= expected);
        while i < paths.len()
            invariant
                i <= paths@.len(),
                all == text::texts(paths@),
                more == Seq::new(all.len(), |i: int| untracked_entry(all[i])),
                item::views(entries@) == expected + more.take(i as int),
            decreases paths.len() - i,
        {
            let entry = Entry {
                file: ChangedFile { path: paths[i].clone(), status: ChangeStatus::Added },
                from: None,
            };
            proof {
                item::lemma_views_push(entries@, entry);
                assert(all[i as int] == paths@[i as int]@);
            }
            entries.push(entry);
            i = i + 1;
            assert(item::views(entries@) =~= expected + more.take(i as int));
        }
        assert(more.take(i as int) =~= more);
        assert forall|k: int| 0 <= k < all.len() implies #[trigger] appended(
            item::views(entries@),
            all,
            k,
        ) by {
            assert(item::views(entries@)[expected.len() + k] == more[k]);
        }
    } else {
        assert(expected + Seq::<EntryModel>::empty() =~= expected);
    }
    Ok(entries)
}

/// What absolem asks of git.
pub enum GitQuery<'a> {
    /// The repository's top-level directory.
    Toplevel,
    /// Whether a ref resolves.
    RefExists(&'a str),
    /// The files changed across a range, honoring its semantics.
    Diff(&'a RefRange),
    /// The files git does not track and does not ignore.
    Untracked,
    /// The merge base of two refs. Three-dot reviews read base content there,
    /// so work that landed on base after the branch point is not
    /// misattributed to the branch.
    MergeBase(&'a str, &'a str),
    /// The contents of a file at a ref.
    Show(&'a str, &'a str),
    /// Every file in the tree at a ref.
    ListTree(&'a str),
    /// Every file in the working tree.
    ListWorktree,
    /// Where origin is.
    OriginUrl,
    /// Fetch a ref from origin.
    Fetch(&'a str),
}

/// The arguments git is run with.
pub open spec fn query_args(query: GitQuery<'_>) -> Seq<Seq<char>> {
    match query {
        GitQuery::Toplevel => seq!["rev-parse"@, "--show-toplevel"@],
        GitQuery::RefExists(name) => seq!["rev-parse"@, "--verify"@, "--quiet"@, name@],
        GitQuery::Diff(range) => if range@.head == RevModel::WorkingTree && range@.mode
            == DiffMode::MergeBase {
            // With dots git would compare the merge base with HEAD, not with
            // the working tree.
            seq!["diff"@, "--name-status"@, "-z"@, "--merge-base"@, range@.base]
        } else {
            seq!["diff"@, "--name-status"@, "-z"@, range_text(range@)]
        },
        GitQuery::Untracked => seq!["ls-files"@, "--others"@, "--exclude-standard"@, "-z"@],
        GitQuery::MergeBase(a, b) => seq!["merge-base"@, a@, b@],
        GitQuery::Show(name, path) => seq!["show"@, name@ + ":"@ + path@],
        GitQuery::ListTree(name) => seq!["ls-tree"@, "-r"@, "--name-only"@, "-z"@, name@],
        GitQuery::ListWorktree => seq![
            "ls-files"@,
            "--cached"@,
            "--others"@,
            "--exclude-standard"@,
            "-z"@,
        ],
        GitQuery::OriginUrl => seq!["remote"@, "get-url"@, "origin"@],
        GitQuery::Fetch(refspec) => seq!["fetch"@, "origin"@, refspec@],
    }
}

/// A list of one more text.
fn and(mut list: Vec<String>, word: &str) -> (longer: Vec<String>)
    ensures
        text::texts(longer@) == text::texts(list@).push(word@),
{
    let ghost before = list@;
    list.push(word.to_owned());
    assert(text::texts(list@) =~= text::texts(before).push(word@));
    list
}

/// A list of two texts.
fn pair(first: &str, second: &str) -> (list: Vec<String>)
    ensures
        text::texts(list@) == seq![first@, second@],
{
    let list = and(and(Vec::new(), first), second);
    assert(text::texts(list@) =~= seq![first@, second@]);
    list
}

impl<'a> GitQuery<'a> {
    /// The arguments to run git with.
    pub fn args(&self) -> (list: Vec<String>)
        ensures
            text::texts(list@) == query_args(*self),
    {
        let list = match self {
            GitQuery::Toplevel => pair("rev-parse", "--show-toplevel"),
            GitQuery::RefExists(name) => and(and(pair("rev-parse", "--verify"), "--quiet"), name),
            GitQuery::Diff(range) => {
                let start = and(pair("diff", "--name-status"), "-z");
                match (&range.head, range.mode) {
                    (Rev::WorkingTree, DiffMode::MergeBase) => and(
                        and(start, "--merge-base"),
                        range.base.as_str(),
                    ),
                    _ => and(start, range.to_git_range().as_str()),
                }
            },
            GitQuery::Untracked => and(
                and(pair("ls-files", "--others"), "--exclude-standard"),
                "-z",
            ),
            GitQuery::MergeBase(a, b) => and(pair("merge-base", a), b),
            GitQuery::Show(name, path) => {
                let at = text::join3(name, ":", path);
                pair("show", at.as_str())
            },
            GitQuery::ListTree(name) => and(
                and(and(pair("ls-tree", "-r"), "--name-only"), "-z"),
                name,
            ),
            GitQuery::ListWorktree => and(
                and(and(pair("ls-files", "--cached"), "--others"), "--exclude-standard"),
                "-z",
            ),
            GitQuery::OriginUrl => and(pair("remote", "get-url"), "origin"),
            GitQuery::Fetch(refspec) => and(pair("fetch", "origin"), refspec),
        };
        assert(text::texts(list@) =~= query_args(*self));
        list
    }
}

/// A repository, by the directory git is run in.
#[derive(Debug, PartialEq, Eq)]
pub struct RealGit {
    pub repo_dir: String,
}

/// What git wrote, or why it failed.
pub open spec fn checked(output: GitOutput) -> Result<Seq<char>, ErrorModel> {
    if output.success {
        Ok(lossy_text(output.stdout@))
    } else {
        Err(
            ErrorModel::GitFailed {
                status: match output.code {
                    Some(code) => code,
                    None => -1i32,
                },
                stderr: lossy_text(output.stderr@),
            },
        )
    }
}

impl RealGit {
    /// The repository around a directory.
    pub fn new(repo_dir: &str) -> (git: Self)
        ensures
            git.repo_dir@ == repo_dir@,
    {
        RealGit { repo_dir: repo_dir.to_owned() }
    }

    /// What git wrote, or why it failed.
    pub fn run_checked(&self, output: GitOutput) -> (raw: Result<String, GitError>)
        ensures
            match checked(output) {
                Ok(expected) => raw matches Ok(words) && words@ == expected,
                Err(expected) => raw matches Err(error) && error@ == expected,
            },
    {
        if !output.success {
            return Err(
                GitError::GitFailed {
                    status: match output.code {
                        Some(code) => code,
                        None => -1,
                    },
                    stderr: lossy(&output.stderr),
                },
            );
        }
        Ok(lossy(&output.stdout))
    }

    /// The repository's top-level directory. Everything downstream — diff
    /// paths, file reads, editor jumps — is repo-root-relative, so the
    /// composition root re-homes here before any other git call.
    pub fn toplevel(&self, output: GitOutput) -> (dir: Result<String, GitError>)
        ensures
            match checked(output) {
                Ok(expected) => dir matches Ok(words) && words@ == text::trimmed(expected),
                Err(expected) => dir matches Err(error) && error@ == expected,
            },
            dir is Ok <==> output.success,
            dir matches Ok(words) ==> words@.len() > 0 ==> !text::white_space(words@[0])
                && !text::white_space(words@.last()),
    {
        match self.run_checked(output) {
            Ok(raw) => {
                let ghost ends = word_laws::law_trimming_takes_off_whitespace(raw@);
                Ok(text::trim(raw.as_str()))
            },
            Err(error) => Err(error),
        }
    }
}

} // verus!
