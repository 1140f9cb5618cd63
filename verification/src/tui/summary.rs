//! The title-bar summary of a review.

use vstd::prelude::*;

use crate::changes::{self, FileChange, FileChangeKind, ItemStatus, ItemView, StatusModel};
use crate::item;
use crate::text;

verus! {

/// What a summary counts.
#[derive(Clone, Copy, Debug, PartialEq, Eq, Structural)]
pub enum Tally {
    Added,
    Modified,
    Removed,
}

/// Whether `status` counts under `tally`.
pub open spec fn counts(status: StatusModel, tally: Tally) -> bool {
    match tally {
        Tally::Added => status is Added,
        Tally::Modified => status is Modified,
        Tally::Removed => status is Removed,
    }
}

/// One if `status` counts, else none.
pub open spec fn one_if(status: StatusModel, tally: Tally) -> nat {
    if counts(status, tally) {
        1
    } else {
        0
    }
}

/// How many of the first `n` members count.
pub open spec fn members_count(members: Seq<changes::ViewModel>, tally: Tally, n: int) -> nat
    decreases n,
{
    if n <= 0 {
        0
    } else {
        members_count(members, tally, n - 1) + one_if(members[n - 1].status, tally)
    }
}

/// How many of the first `n` blocks and of their members count.
pub open spec fn blocks_count(blocks: Seq<changes::ViewModel>, tally: Tally, n: int) -> nat
    decreases n,
{
    if n <= 0 {
        0
    } else {
        blocks_count(blocks, tally, n - 1) + one_if(blocks[n - 1].status, tally) + members_count(
            blocks[n - 1].members,
            tally,
            blocks[n - 1].members.len() as int,
        )
    }
}

/// How many rows of a file count; a deleted file has none.
pub open spec fn file_count(file: changes::FileModel, tally: Tally) -> nat {
    match file.kind {
        changes::FileKindModel::Deleted => 0,
        changes::FileKindModel::Changed(blocks) => blocks_count(
            blocks,
            tally,
            blocks.len() as int,
        ),
    }
}

/// How many rows of the first `n` files count.
pub open spec fn files_count(review: Seq<changes::FileModel>, tally: Tally, n: int) -> nat
    decreases n,
{
    if n <= 0 {
        0
    } else {
        files_count(review, tally, n - 1) + file_count(review[n - 1], tally)
    }
}

/// A count, as far as one is shown.
pub open spec fn shown(count: nat) -> nat {
    if count > u64::MAX {
        u64::MAX as nat
    } else {
        count
    }
}

/// `5 files · +12 ~3 -4`.
pub open spec fn summary(review: Seq<changes::FileModel>) -> Seq<char> {
    let n = review.len() as int;
    let word = if review.len() == 1 {
        " file"@
    } else {
        " files"@
    };
    text::decimal(review.len()) + word + " · +"@ + text::decimal(
        shown(files_count(review, Tally::Added, n)),
    ) + " ~"@ + text::decimal(shown(files_count(review, Tally::Modified, n))) + " -"@
        + text::decimal(shown(files_count(review, Tally::Removed, n)))
}

/// Counts the rows of a review under one heading.
fn count(review: &[FileChange], tally: Tally) -> (total: u64)
    ensures
        total == shown(files_count(item::views(review@), tally, review@.len() as int)),
{
    let ghost files = item::views(review@);
    let mut total: u64 = 0;
    let mut f: usize = 0;
    while f < review.len()
        invariant
            f <= review@.len(),
            files == item::views(review@),
            total == shown(files_count(files, tally, f as int)),
        decreases review.len() - f,
    {
        let ghost upto = files_count(files, tally, f as int);
        assert(files[f as int] == review@[f as int]@);
        if let FileChangeKind::Changed(changeset) = &review[f].kind {
            let mut b: usize = 0;
            while b < changeset.blocks.len()
                invariant
                    b <= changeset.blocks@.len(),
                    changeset@ == item::views(changeset.blocks@),
                    total == shown(upto + blocks_count(changeset@, tally, b as int)),
                decreases changeset.blocks.len() - b,
            {
                let block = &changeset.blocks[b];
                proof {
                    assert(changeset@[b as int] == block@);
                    changes::lemma_model(*block);
                }
                total = bump(total, block, tally);
                let ghost reached = upto + blocks_count(changeset@, tally, b as int) + one_if(
                    block@.status,
                    tally,
                );
                let mut m: usize = 0;
                while m < block.members.len()
                    invariant
                        m <= block.members@.len(),
                        block@.members == item::views(block.members@),
                        total == shown(reached + members_count(block@.members, tally, m as int)),
                    decreases block.members.len() - m,
                {
                    proof {
                        assert(block@.members[m as int] == block.members@[m as int]@);
                    }
                    total = bump(total, &block.members[m], tally);
                    m = m + 1;
                }
                b = b + 1;
            }
        }
        f = f + 1;
    }
    total
}

/// `total`, one higher if the view counts.
fn bump(total: u64, view: &ItemView, tally: Tally) -> (more: u64)
    ensures
        more == shown(total as nat + one_if(view@.status, tally)),
{
    proof {
        changes::lemma_model(*view);
    }
    let hit = match (&view.status, tally) {
        (ItemStatus::Added, Tally::Added) => true,
        (ItemStatus::Modified { .. }, Tally::Modified) => true,
        (ItemStatus::Removed, Tally::Removed) => true,
        _ => false,
    };
    if hit {
        total.saturating_add(1)
    } else {
        total
    }
}

/// The title-bar summary: `5 files · +12 ~3 -4`, with deleted files counted
/// among the files but not the change tallies.
pub fn summarize(review: &[FileChange]) -> (title: String)
    ensures
        title@ == summary(item::views(review@)),
{
    let files = text::decimal_text(review.len() as u64);
    let word = if review.len() == 1 {
        " file"
    } else {
        " files"
    };
    let added = text::decimal_text(count(review, Tally::Added));
    let modified = text::decimal_text(count(review, Tally::Modified));
    let removed = text::decimal_text(count(review, Tally::Removed));
    let head = text::join4(files.as_str(), word, " · +", added.as_str());
    text::join5(head.as_str(), " ~", modified.as_str(), " -", removed.as_str())
}

} // verus!
