//! The markdown frontend: renders a review as forge-flavored markdown for a CI
//! pipeline comment.
//!
//! Each file is a bold heading over a diff-language code fence, so
//! GitHub/GitLab color added lines green and removed lines red. A modified
//! item renders as a remove/add pair — the diff idiom readers already know —
//! and unchanged context rows carry the leading space of a diff context line.
//! Members are indented under their block header.

use vstd::prelude::*;
use vstd::string::*;

use crate::changes::{
    self, ChangeSet, FileChange, FileChangeKind, FileKindModel, FileModel, ItemStatus, ItemView,
    StatusModel, ViewModel,
};
use crate::item;
use crate::render;

verus! {

/// One row inside the fence: the diff marker column (`+`, `-`, or the context
/// space), a space, the member indent, and the signature.
pub open spec fn row_text(view: ViewModel, indent: Seq<char>) -> Seq<char> {
    let signature = view.item.signature;
    match view.status {
        StatusModel::Added => render::line("+ "@ + indent + signature),
        StatusModel::Removed => render::line("- "@ + indent + signature),
        StatusModel::Modified { before } => render::line("- "@ + indent + before.signature)
            + render::line("+ "@ + indent + signature),
        StatusModel::Unchanged => render::line("  "@ + indent + signature),
    }
}

/// The rows of the first `n` members of a block.
pub open spec fn members_text(members: Seq<ViewModel>, n: int) -> Seq<char>
    decreases n,
{
    if n <= 0 {
        seq![]
    } else {
        members_text(members, n - 1) + row_text(members[n - 1], "  "@)
    }
}

/// The rows of the first `n` blocks of a file.
pub open spec fn blocks_text(blocks: Seq<ViewModel>, n: int) -> Seq<char>
    decreases n,
{
    if n <= 0 {
        seq![]
    } else {
        let block = blocks[n - 1];
        blocks_text(blocks, n - 1) + (if render::set_off(blocks, n - 1) {
            "\n"@
        } else {
            seq![]
        }) + row_text(block, ""@) + members_text(block.members, block.members.len() as int)
    }
}

/// The code fence of a file's blocks.
pub open spec fn fence_text(blocks: Seq<ViewModel>) -> Seq<char> {
    render::line("```diff"@) + blocks_text(blocks, blocks.len() as int) + render::line("```"@)
}

/// The text of one file, a blank line before it.
pub open spec fn file_text(file: FileModel) -> Seq<char> {
    match file.kind {
        FileKindModel::Deleted => "\n"@ + render::line("**`"@ + file.path + "`** — deleted"@),
        FileKindModel::Changed(blocks) => "\n"@ + render::line("**`"@ + file.path + "`**"@)
            + "\n"@ + fence_text(blocks),
    }
}

/// The text of the first `n` files.
pub open spec fn files_text(review: Seq<FileModel>, n: int) -> Seq<char>
    decreases n,
{
    if n <= 0 {
        seq![]
    } else {
        files_text(review, n - 1) + file_text(review[n - 1])
    }
}

/// The text of a review.
pub open spec fn review_text(review: Seq<FileModel>) -> Seq<char> {
    render::line("### absolem — shape of the change"@) + (if review.len() == 0 {
        "\n"@ + render::line("_No structural changes — the API surface is untouched._"@)
    } else {
        files_text(review, review.len() as int)
    })
}

/// Writes a line of one piece.
fn write_words(out: &mut String, words: &str)
    ensures
        final(out)@ == old(out)@ + render::line(words@),
{
    let ghost before = out@;
    out.append(words);
    out.append("\n");
    assert(out@ =~= before + render::line(words@));
}

/// Renders a review.
pub fn render_markdown(out: &mut String, review: &[FileChange])
    ensures
        final(out)@ == old(out)@ + review_text(item::views(review@)),
{
    let ghost before = out@;
    let ghost all = item::views(review@);
    write_words(out, "### absolem — shape of the change");
    if review.len() == 0 {
        out.append("\n");
        write_words(out, "_No structural changes — the API surface is untouched._");
        assert(out@ =~= before + review_text(all));
        return;
    }
    let ghost headed = out@;
    let mut i: usize = 0;
    assert(headed + files_text(all, 0) =~= headed);
    while i < review.len()
        invariant
            i <= review@.len(),
            all == item::views(review@),
            out@ == headed + files_text(all, i as int),
        decreases review.len() - i,
    {
        assert(all[i as int] == review@[i as int]@);
        out.append("\n");
        match &review[i].kind {
            FileChangeKind::Deleted => render::write_line(
                out,
                "**`",
                review[i].path.as_str(),
                "`** — deleted",
            ),
            FileChangeKind::Changed(changeset) => {
                render::write_line(out, "**`", review[i].path.as_str(), "`**");
                out.append("\n");
                render_fence(out, changeset);
            },
        }
        i = i + 1;
        assert(out@ =~= headed + files_text(all, i as int));
    }
    assert(out@ =~= before + review_text(all));
}

/// Renders a file's blocks in a code fence.
pub fn render_fence(out: &mut String, changeset: &ChangeSet)
    ensures
        final(out)@ == old(out)@ + fence_text(changeset@),
{
    let ghost before = out@;
    let ghost blocks = changeset@;
    write_words(out, "```diff");
    let ghost headed = out@;
    let mut after_composite = false;
    let mut i: usize = 0;
    assert(headed + blocks_text(blocks, 0) =~= headed);
    while i < changeset.blocks.len()
        invariant
            i <= changeset.blocks@.len(),
            blocks == item::views(changeset.blocks@),
            after_composite == (i > 0 && blocks[i - 1].members.len() > 0),
            out@ == headed + blocks_text(blocks, i as int),
        decreases changeset.blocks.len() - i,
    {
        let block = &changeset.blocks[i];
        proof {
            changes::lemma_model(*block);
            assert(blocks[i as int] == block@);
        }
        let composite = block.members.len() > 0;
        if composite || after_composite {
            out.append("\n");
        }
        render_row(out, block, "");
        let ghost topped = out@;
        let mut m: usize = 0;
        assert(topped + members_text(block@.members, 0) =~= topped);
        while m < block.members.len()
            invariant
                m <= block.members@.len(),
                block@.members == item::views(block.members@),
                out@ == topped + members_text(block@.members, m as int),
            decreases block.members.len() - m,
        {
            render_row(out, &block.members[m], "  ");
            m = m + 1;
            assert(out@ =~= topped + members_text(block@.members, m as int));
        }
        after_composite = composite;
        i = i + 1;
        assert(out@ =~= headed + blocks_text(blocks, i as int));
    }
    write_words(out, "```");
    assert(out@ =~= before + fence_text(blocks));
}

/// One row inside the fence: the diff marker column (`+`, `-`, or the context
/// space), a space, the member indent, and the signature.
pub fn render_row(out: &mut String, view: &ItemView, indent: &str)
    ensures
        final(out)@ == old(out)@ + row_text(view@, indent@),
{
    proof {
        changes::lemma_model(*view);
    }
    let ghost before_text = out@;
    let signature = view.item.signature.as_str();
    match &view.status {
        ItemStatus::Added => render::write_line(out, "+ ", indent, signature),
        ItemStatus::Removed => render::write_line(out, "- ", indent, signature),
        ItemStatus::Modified { before } => {
            render::write_line(out, "- ", indent, before.signature.as_str());
            render::write_line(out, "+ ", indent, signature);
        },
        ItemStatus::Unchanged => render::write_line(out, "  ", indent, signature),
    }
    assert(out@ =~= before_text + row_text(view@, indent@));
}

} // verus!
