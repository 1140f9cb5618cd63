//! The plain-text frontend: renders a review to text.
//!
//! Convention: `+` added, `-` removed, `~` modified (with the new signature on
//! the same line and the old one indented beneath), no marker for unchanged
//! context rows. Members are indented under their block header; a block with
//! members is set off as its own paragraph. Files are separated by a blank
//! line. The review is pre-filtered, so every `FileChange` handed in renders.

use vstd::prelude::*;
use vstd::string::*;

use crate::changes::{
    self, ChangeSet, FileChange, FileChangeKind, FileKindModel, FileModel, ItemStatus, ItemView,
    StatusModel, ViewModel,
};
use crate::item;
use crate::text;

verus! {

/// A line of text.
pub open spec fn line(words: Seq<char>) -> Seq<char> {
    words + "\n"@
}

/// One item row: a status marker (or none, for context rows) and the
/// signature, with a modified row's old signature beneath.
pub open spec fn row_text(view: ViewModel, indent: nat) -> Seq<char> {
    let pad = text::spaces(indent);
    let signature = view.item.signature;
    match view.status {
        StatusModel::Added => line(pad + "+ "@ + signature),
        StatusModel::Removed => line(pad + "- "@ + signature),
        StatusModel::Modified { before } => line(pad + "~ "@ + signature) + line(
            pad + "    was: "@ + before.signature,
        ),
        StatusModel::Unchanged => line(pad + "  "@ + signature),
    }
}

/// The rows of the first `n` members of a block.
pub open spec fn members_text(members: Seq<ViewModel>, n: int) -> Seq<char>
    decreases n,
{
    if n <= 0 {
        seq![]
    } else {
        members_text(members, n - 1) + row_text(members[n - 1], 6)
    }
}

/// Whether a blank line comes before block `i`: composites are paragraphs,
/// with air above and below, so a run of leaf rows stays tight but a
/// struct/enum block stands apart.
pub open spec fn set_off(blocks: Seq<ViewModel>, i: int) -> bool {
    blocks[i].members.len() > 0 || (i > 0 && blocks[i - 1].members.len() > 0)
}

/// The rows of the first `n` blocks of a file.
pub open spec fn blocks_text(blocks: Seq<ViewModel>, n: int) -> Seq<char>
    decreases n,
{
    if n <= 0 {
        seq![]
    } else {
        let block = blocks[n - 1];
        blocks_text(blocks, n - 1) + (if set_off(blocks, n - 1) {
            "\n"@
        } else {
            seq![]
        }) + row_text(block, 2) + members_text(block.members, block.members.len() as int)
    }
}

/// The text of one file.
pub open spec fn file_text(file: FileModel) -> Seq<char> {
    match file.kind {
        FileKindModel::Deleted => line("DELETED "@ + file.path),
        FileKindModel::Changed(blocks) => line(file.path) + blocks_text(
            blocks,
            blocks.len() as int,
        ),
    }
}

/// The text of the first `n` files, separated by blank lines.
pub open spec fn files_text(review: Seq<FileModel>, n: int) -> Seq<char>
    decreases n,
{
    if n <= 0 {
        seq![]
    } else {
        files_text(review, n - 1) + (if n > 1 {
            "\n"@
        } else {
            seq![]
        }) + file_text(review[n - 1])
    }
}

/// The text of a review. An empty review is a finding, not a failure: the
/// change touched no API surface.
pub open spec fn review_text(review: Seq<FileModel>) -> Seq<char> {
    if review.len() == 0 {
        line("No structural changes — the API surface is untouched."@)
    } else {
        files_text(review, review.len() as int)
    }
}

/// Writes a line of three pieces.
pub fn write_line(out: &mut String, a: &str, b: &str, c: &str)
    ensures
        final(out)@ == old(out)@ + line(a@ + b@ + c@),
{
    let ghost before = out@;
    out.append(a);
    out.append(b);
    out.append(c);
    out.append("\n");
    assert(out@ =~= before + line(a@ + b@ + c@));
}

/// Renders a review.
pub fn render_review(out: &mut String, review: &[FileChange])
    ensures
        final(out)@ == old(out)@ + review_text(item::views(review@)),
{
    let ghost before = out@;
    let ghost all = item::views(review@);
    // An empty review is a finding, not a failure: the change touched no API
    // surface. Say so rather than printing nothing.
    if review.len() == 0 {
        out.append("No structural changes — the API surface is untouched.");
        out.append("\n");
        assert(out@ =~= before + review_text(all));
        return;
    }
    let mut i: usize = 0;
    assert(before + files_text(all, 0) =~= before);
    while i < review.len()
        invariant
            i <= review@.len(),
            all == item::views(review@),
            out@ == before + files_text(all, i as int),
        decreases review.len() - i,
    {
        assert(all[i as int] == review@[i as int]@);
        if i > 0 {
            out.append("\n");
        }
        match &review[i].kind {
            FileChangeKind::Deleted => render_deleted(out, review[i].path.as_str()),
            FileChangeKind::Changed(changeset) => render_changeset(
                out,
                review[i].path.as_str(),
                changeset,
            ),
        }
        i = i + 1;
        assert(out@ =~= before + files_text(all, i as int));
    }
}

/// Renders a deleted file.
pub fn render_deleted(out: &mut String, path: &str)
    ensures
        final(out)@ == old(out)@ + file_text(
            FileModel { path: path@, kind: FileKindModel::Deleted },
        ),
{
    write_line(out, "DELETED ", path, "");
    proof {
        reveal_strlit("");
        assert("DELETED "@ + path@ + ""@ =~= "DELETED "@ + path@);
    }
}

/// Renders a changed file.
pub fn render_changeset(out: &mut String, path: &str, changeset: &ChangeSet)
    ensures
        final(out)@ == old(out)@ + file_text(
            FileModel { path: path@, kind: FileKindModel::Changed(changeset@) },
        ),
{
    let ghost before = out@;
    let ghost blocks = changeset@;
    write_line(out, path, "", "");
    proof {
        reveal_strlit("");
        assert(path@ + ""@ + ""@ =~= path@);
    }
    let ghost headed = out@;
    let mut after_composite = false;
    let mut i: usize = 0;
    assert(headed + blocks_text(blocks, 0) =~= headed);
    while i < changeset.blocks.len()
        invariant
            i <= changeset.blocks@.len(),
            blocks == item::views(changeset.blocks@),
            after_composite == (i > 0 && blocks[i - 1].members.len() > 0),
            out@ == headed + blocks_text(blocks, i as int),
        decreases changeset.blocks.len() - i,
    {
        let block = &changeset.blocks[i];
        proof {
            changes::lemma_model(*block);
            assert(blocks[i as int] == block@);
        }
        let composite = block.members.len() > 0;
        if composite || after_composite {
            out.append("\n");
        }
        render_row(out, block, 2);
        let ghost topped = out@;
        let mut m: usize = 0;
        assert(topped + members_text(block@.members, 0) =~= topped);
        while m < block.members.len()
            invariant
                m <= block.members@.len(),
                block@.members == item::views(block.members@),
                out@ == topped + members_text(block@.members, m as int),
            decreases block.members.len() - m,
        {
            render_row(out, &block.members[m], 6);
            m = m + 1;
            assert(out@ =~= topped + members_text(block@.members, m as int));
        }
        after_composite = composite;
        i = i + 1;
        assert(out@ =~= headed + blocks_text(blocks, i as int));
    }
    assert(out@ =~= before + file_text(
        FileModel { path: path@, kind: FileKindModel::Changed(blocks) },
    ));
}

/// One item row at the given indent: a status marker (or none, for context
/// rows) and the signature, with a modified row's old signature beneath.
pub fn render_row(out: &mut String, view: &ItemView, indent: usize)
    ensures
        final(out)@ == old(out)@ + row_text(view@, indent as nat),
{
    proof {
        changes::lemma_model(*view);
    }
    let ghost before_text = out@;
    let pad = text::pad(indent);
    let signature = view.item.signature.as_str();
    match &view.status {
        ItemStatus::Added => write_line(out, pad.as_str(), "+ ", signature),
        ItemStatus::Removed => write_line(out, pad.as_str(), "- ", signature),
        ItemStatus::Modified { before } => {
            write_line(out, pad.as_str(), "~ ", signature);
            write_line(out, pad.as_str(), "    was: ", before.signature.as_str());
        },
        ItemStatus::Unchanged => write_line(out, pad.as_str(), "  ", signature),
    }
    assert(out@ =~= before_text + row_text(view@, indent as nat));
}

} // verus!
