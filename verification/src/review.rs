//! Diffs each changed file into the review the frontends consume.

use vstd::prelude::*;

use crate::changes::{self, FileChange, FileChangeKind, FileKindModel, FileModel};
use crate::diff_laws;
use crate::git::{ChangeStatus, Entry, EntryModel};
use crate::index::TypeIndex;
use crate::item;
use crate::producer::body_laws;
use crate::producer::registry::{self, Registry};
use crate::producer::syntax::{self, Grammar, ProducerError};
use crate::surface::Surface;

verus! {

/// The contents a changed file's review takes.
#[derive(Debug, PartialEq, Eq)]
pub enum Sources {
    Deleted,
    Added { head: String },
    Modified { base: String, head: String },
}

/// A changed file with its contents on either side.
#[derive(Debug, PartialEq, Eq)]
pub struct SourceFile {
    pub path: String,
    pub sources: Sources,
}

/// A producer's error, with the file it came from.
#[derive(Debug, PartialEq, Eq)]
pub struct ReviewError {
    pub path: String,
    pub error: ProducerError,
}

/// The mathematical model of `Sources`.
pub enum SourcesModel {
    Deleted,
    Added { head: Seq<char> },
    Modified { base: Seq<char>, head: Seq<char> },
}

/// The mathematical model of a `SourceFile`.
#[verifier::ext_equal]
pub struct SourceModel {
    pub path: Seq<char>,
    pub sources: SourcesModel,
}

/// The mathematical model of a `ReviewError`.
#[verifier::ext_equal]
pub struct FailureModel {
    pub path: Seq<char>,
    pub error: ProducerError,
}

impl View for Sources {
    type V = SourcesModel;

    open spec fn view(&self) -> SourcesModel {
        match *self {
            Sources::Deleted => SourcesModel::Deleted,
            Sources::Added { head } => SourcesModel::Added { head: head@ },
            Sources::Modified { base, head } => SourcesModel::Modified {
                base: base@,
                head: head@,
            },
        }
    }
}

impl View for SourceFile {
    type V = SourceModel;

    open spec fn view(&self) -> SourceModel {
        SourceModel { path: self.path@, sources: self.sources@ }
    }
}

impl View for ReviewError {
    type V = FailureModel;

    open spec fn view(&self) -> FailureModel {
        FailureModel { path: self.path@, error: self.error }
    }
}

/// The entries whose path a producer claims.
pub open spec fn supported(entries: Seq<EntryModel>) -> Seq<EntryModel> {
    entries.filter(|entry: EntryModel| registry::language_of(entry.file.path) is Some)
}

/// Drops the files no producer claims, deleted ones included.
pub fn keep_supported(registry: &Registry, entries: Vec<Entry>) -> (kept: Vec<Entry>)
    ensures
        item::views(kept@) == supported(item::views(entries@)),
{
    let ghost all = item::views(entries@);
    let ghost claimed = |entry: EntryModel| registry::language_of(entry.file.path) is Some;
    let mut kept: Vec<Entry> = Vec::new();
    let mut i: usize = 0;
    proof {
        reveal(Seq::filter);
        assert(item::views(kept@) =~= all.take(0).filter(claimed));
    }
    while i < entries.len()
        invariant
            i <= entries@.len(),
            all == item::views(entries@),
            claimed == (|entry: EntryModel| registry::language_of(entry.file.path) is Some),
            item::views(kept@) == all.take(i as int).filter(claimed),
        decreases entries.len() - i,
    {
        proof {
            reveal(Seq::filter);
            assert(all.take(i + 1).drop_last() =~= all.take(i as int));
            assert(all.take(i + 1).last() == entries@[i as int]@);
        }
        if registry.supports(entries[i].file.path.as_str()) {
            let copied = Entry {
                file: entries[i].file.clone(),
                from: item::clone_optional(&entries[i].from),
            };
            proof {
                item::lemma_views_push(kept@, copied);
            }
            kept.push(copied);
        }
        i = i + 1;
    }
    assert(all.take(all.len() as int) =~= all);
    kept
}

/// The change of one file between two surfaces, if its shape moved.
pub open spec fn shape_change(
    path: Seq<char>,
    base: Seq<item::ItemModel>,
    head: Seq<item::ItemModel>,
) -> Option<FileModel> {
    let blocks = changes::diff_blocks(base, head);
    if blocks.len() == 0 {
        None
    } else {
        Some(FileModel { path, kind: FileKindModel::Changed(blocks) })
    }
}

/// The change of one file between two surfaces, if its shape moved.
pub fn review_surfaces(path: &str, base: &Surface, head: &Surface) -> (change: Option<FileChange>)
    ensures
        match change {
            Some(found) => shape_change(path@, base@, head@) == Some(found@),
            None => shape_change(path@, base@, head@) is None,
        },
{
    let changeset = changes::diff(base, head);
    if changeset.is_empty() {
        None
    } else {
        Some(FileChange { path: path.to_owned(), kind: FileChangeKind::Changed(changeset) })
    }
}

/// What one file contributes to a review: nothing if no producer claims it or
/// its shape did not move.
pub open spec fn contribution(file: SourceModel) -> Result<Option<FileModel>, ProducerError> {
    match file.sources {
        SourcesModel::Deleted => Ok(
            Some(FileModel { path: file.path, kind: FileKindModel::Deleted }),
        ),
        SourcesModel::Added { head } => match registry::language_of(file.path) {
            None => Ok(None),
            Some(grammar) => match registry::extracted(grammar, head, file.path) {
                Err(error) => Err(error),
                Ok(items) => Ok(shape_change(file.path, seq![], items)),
            },
        },
        SourcesModel::Modified { base, head } => match registry::language_of(file.path) {
            None => Ok(None),
            Some(grammar) => match registry::extracted(grammar, base, file.path) {
                Err(error) => Err(error),
                Ok(before) => match registry::extracted(grammar, head, file.path) {
                    Err(error) => Err(error),
                    Ok(after) => Ok(shape_change(file.path, before, after)),
                },
            },
        },
    }
}

/// The review of the first `n` files: their contributions in order, or the
/// first failure.
pub open spec fn review_of(
    files: Seq<SourceModel>,
    n: int,
) -> Result<Seq<FileModel>, FailureModel>
    decreases n,
{
    if n <= 0 {
        Ok(seq![])
    } else {
        match review_of(files, n - 1) {
            Err(failure) => Err(failure),
            Ok(before) => match contribution(files[n - 1]) {
                Err(error) => Err(FailureModel { path: files[n - 1].path, error }),
                Ok(None) => Ok(before),
                Ok(Some(change)) => Ok(before.push(change)),
            },
        }
    }
}

/// A failure stays the failure of more files.
proof fn lemma_first_failure(files: Seq<SourceModel>, n: int, m: int)
    requires
        0 <= n <= m,
        review_of(files, n) is Err,
    ensures
        review_of(files, m) == review_of(files, n),
    decreases m - n,
{
    if n < m {
        lemma_first_failure(files, n, m - 1);
    }
}

/// What one file contributes to a review.
fn contribute(registry: &mut Registry, file: &SourceFile) -> (out: Result<
    Option<FileChange>,
    ProducerError,
>)
    requires
        old(registry).ready(),
    ensures
        final(registry).ready(),
        match contribution(file@) {
            Err(expected) => out matches Err(error) && error == expected,
            Ok(None) => out matches Ok(change) && change is None,
            Ok(Some(expected)) => out matches Ok(change) && (change matches Some(found) && found@
                == expected),
        },
{
    let path = file.path.as_str();
    match &file.sources {
        Sources::Deleted => Ok(
            Some(FileChange { path: file.path.clone(), kind: FileChangeKind::Deleted }),
        ),
        Sources::Added { head } => match registry.extract(path, head.as_str()) {
            None => Ok(None),
            Some(Err(error)) => Err(error),
            Some(Ok(after)) => Ok(review_surfaces(path, &Surface::new(), &after)),
        },
        Sources::Modified { base, head } => match registry.extract(path, base.as_str()) {
            None => Ok(None),
            Some(Err(error)) => Err(error),
            Some(Ok(before)) => match registry.extract(path, head.as_str()) {
                None => Ok(None),
                Some(Err(error)) => Err(error),
                Some(Ok(after)) => Ok(review_surfaces(path, &before, &after)),
            },
        },
    }
}

/// Diffs each changed file into the review the frontends consume. Files whose
/// API shape did not move are dropped here, so every `FileChange` that
/// survives is worth rendering.
pub fn build_review(registry: &mut Registry, files: &Vec<SourceFile>) -> (out: Result<
    Vec<FileChange>,
    ReviewError,
>)
    requires
        old(registry).ready(),
    ensures
        final(registry).ready(),
        match review_of(item::views(files@), files@.len() as int) {
            Err(expected) => out matches Err(error) && error@ == expected,
            Ok(expected) => out matches Ok(review) && item::views(review@) == expected,
        },
{
    let ghost all = item::views(files@);
    let mut review: Vec<FileChange> = Vec::new();
    let mut i: usize = 0;
    assert(item::views(review@) =~= seq![]);
    while i < files.len()
        invariant
            i <= files@.len(),
            all == item::views(files@),
            registry.ready(),
            review_of(all, i as int) == Ok::<Seq<FileModel>, FailureModel>(
                item::views(review@),
            ),
        decreases files.len() - i,
    {
        assert(all[i as int] == files@[i as int]@);
        match contribute(registry, &files[i]) {
            Err(error) => {
                proof {
                    lemma_first_failure(all, i + 1, files@.len() as int);
                }
                return Err(ReviewError { path: files[i].path.clone(), error });
            },
            Ok(None) => {},
            Ok(Some(change)) => {
                proof {
                    item::lemma_views_push(review@, change);
                }
                review.push(change);
            },
        }
        i = i + 1;
    }
    Ok(review)
}

/// The contents of a file at the head, for the type index.
#[derive(Debug, PartialEq, Eq)]
pub struct HeadFile {
    pub path: String,
    pub source: String,
}

/// The mathematical model of a `HeadFile`.
#[verifier::ext_equal]
pub struct HeadModel {
    pub path: Seq<char>,
    pub source: Seq<char>,
}

impl View for HeadFile {
    type V = HeadModel;

    open spec fn view(&self) -> HeadModel {
        HeadModel { path: self.path@, source: self.source@ }
    }
}

/// The surfaces of those of the first `n` files that a producer claims and
/// makes sense of.
pub open spec fn head_surfaces(files: Seq<HeadModel>, n: int) -> Seq<Seq<item::ItemModel>>
    decreases n,
{
    if n <= 0 {
        seq![]
    } else {
        let before = head_surfaces(files, n - 1);
        let file = files[n - 1];
        match registry::language_of(file.path) {
            None => before,
            Some(grammar) => match registry::extracted(grammar, file.source, file.path) {
                Err(_) => before,
                Ok(items) => before.push(items),
            },
        }
    }
}

/// Indexes the head: every file that a producer claims and makes sense of.
pub fn build_index(registry: &mut Registry, files: &Vec<HeadFile>) -> (types: TypeIndex)
    requires
        old(registry).ready(),
    ensures
        final(registry).ready(),
        types@ == crate::index::index_of(
            crate::index::all_items(head_surfaces(item::views(files@), files@.len() as int)),
        ),
{
    let ghost all = item::views(files@);
    let mut surfaces: Vec<Surface> = Vec::new();
    let mut i: usize = 0;
    assert(item::views(surfaces@) =~= seq![]);
    while i < files.len()
        invariant
            i <= files@.len(),
            all == item::views(files@),
            registry.ready(),
            item::views(surfaces@) == head_surfaces(all, i as int),
        decreases files.len() - i,
    {
        assert(all[i as int] == files@[i as int]@);
        if let Some(Ok(surface)) = registry.extract(
            files[i].path.as_str(),
            files[i].source.as_str(),
        ) {
            proof {
                item::lemma_views_push(surfaces@, surface);
            }
            surfaces.push(surface);
        }
        i = i + 1;
    }
    TypeIndex::build(surfaces.as_slice())
}

/// The contents of one side that a review of a file takes: where to read them,
/// `None` if there is nothing to read. A renamed file's base content is under
/// the path it had before.
pub open spec fn base_path(entry: EntryModel) -> Option<Seq<char>> {
    match entry.file.status {
        ChangeStatus::Modified => match entry.from {
            Some(from) => Some(from),
            None => Some(entry.file.path),
        },
        _ => None,
    }
}

/// Where to read a file's base content, if it takes any. A renamed file's is
/// under the path it had before.
pub fn base_path_of(entry: &Entry) -> (path: Option<String>)
    ensures
        item::optional_text(path) == base_path(entry@),
{
    match entry.file.status {
        ChangeStatus::Modified => match &entry.from {
            Some(from) => Some(from.clone()),
            None => Some(entry.file.path.clone()),
        },
        _ => None,
    }
}

/// Where to read a file's head content, if it takes any.
pub fn head_path_of(entry: &Entry) -> (path: Option<String>)
    ensures
        item::optional_text(path) == (if entry@.file.status == ChangeStatus::Deleted {
            None
        } else {
            Some(entry@.file.path)
        }),
        path is None <==> entry@.file.status == ChangeStatus::Deleted,
        path matches Some(words) ==> words@ == entry@.file.path,
{
    match entry.file.status {
        ChangeStatus::Deleted => None,
        _ => Some(entry.file.path.clone()),
    }
}

/// A file's change is left out of a review exactly if its shape is the same on
/// both sides.
pub proof fn law_only_moved_shapes_are_reviewed(
    path: Seq<char>,
    base: Seq<item::ItemModel>,
    head: Seq<item::ItemModel>,
)
    ensures
        shape_change(path, base, head) is None <==> diff_laws::same_shape(base, head),
{
    diff_laws::law_empty_iff_same_shape(base, head);
}

/// A file that was modified but declares the same items, on whatever lines,
/// contributes nothing: a change that stays within bodies is no change of
/// shape.
pub proof fn law_files_with_the_same_items_are_omitted(
    path: Seq<char>,
    base: Seq<char>,
    head: Seq<char>,
    grammar: Grammar,
)
    requires
        registry::language_of(path) == Some(grammar),
        registry::extracted(grammar, base, path) matches Ok(before) && (registry::extracted(
            grammar,
            head,
            path,
        ) matches Ok(after) && diff_laws::same_but_lines(before, after)
            && diff_laws::consistent(before)),
    ensures
        contribution(SourceModel { path, sources: SourcesModel::Modified { base, head } }) == Ok::<
            Option<FileModel>,
            ProducerError,
        >(None),
{
    let before = registry::extracted(grammar, base, path)->Ok_0;
    let after = registry::extracted(grammar, head, path)->Ok_0;
    diff_laws::law_moved_lines_are_no_change(before, after);
}

/// A file in which nothing of the API shape changed but bodies contributes
/// nothing to a review, wherever in the file its declarations now stand.
pub proof fn law_body_changes_are_omitted(
    path: Seq<char>,
    base: Seq<char>,
    head: Seq<char>,
    grammar: Grammar,
)
    requires
        registry::language_of(path) == Some(grammar),
        syntax::parsable(base),
        syntax::parsable(head),
        syntax::readable(syntax::parsed(grammar, base), base),
        syntax::readable(syntax::parsed(grammar, head), head),
        body_laws::files_alike(
            grammar,
            syntax::parsed(grammar, base),
            base,
            syntax::parsed(grammar, head),
            head,
        ),
        diff_laws::consistent(
            registry::items_of(grammar, syntax::parsed(grammar, base), base, path),
        ),
    ensures
        contribution(SourceModel { path, sources: SourcesModel::Modified { base, head } }) == Ok::<
            Option<FileModel>,
            ProducerError,
        >(None),
{
    let one = syntax::parsed(grammar, base);
    let other = syntax::parsed(grammar, head);
    match grammar {
        Grammar::Go => body_laws::law_go_body_changes_keep_the_shape(one, base, other, head, path),
        Grammar::Rust => body_laws::law_rust_body_changes_keep_the_shape(
            one,
            base,
            other,
            head,
            path,
        ),
    }
    law_files_with_the_same_items_are_omitted(path, base, head, grammar);
}

/// Every change that survives into a review is worth rendering: a deleted file,
/// or one with at least one block.
pub proof fn law_reviews_hold_only_changes(files: Seq<SourceModel>, n: int, j: int)
    requires
        0 <= n <= files.len(),
        review_of(files, n) matches Ok(review) && 0 <= j < review.len(),
    ensures
        (review_of(files, n)->Ok_0)[j].kind matches FileKindModel::Changed(blocks) ==> blocks.len()
            > 0,
    decreases n,
{
    if n > 0 {
        let before = review_of(files, n - 1)->Ok_0;
        if j < before.len() {
            law_reviews_hold_only_changes(files, n - 1, j);
        }
    }
}

/// A review lists files in the order they are handed over: no file contributes
/// out of turn, and each at most once.
pub proof fn law_reviews_keep_file_order(files: Seq<SourceModel>, n: int) -> (from: Seq<int>)
    requires
        0 <= n <= files.len(),
        review_of(files, n) is Ok,
    ensures
        from.len() == (review_of(files, n)->Ok_0).len(),
        forall|j: int|
            0 <= j < from.len() ==> 0 <= #[trigger] from[j] < n && contribution(files[from[j]])
                == Ok::<Option<FileModel>, ProducerError>(Some((review_of(files, n)->Ok_0)[j])),
        forall|j: int, k: int| 0 <= j < k < from.len() ==> from[j] < from[k],
    decreases n,
{
    if n <= 0 {
        seq![]
    } else {
        let before = law_reviews_keep_file_order(files, n - 1);
        match contribution(files[n - 1]) {
            Ok(Some(_)) => before.push(n - 1),
            _ => before,
        }
    }
}

} // verus!
