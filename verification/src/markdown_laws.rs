//! What the markdown frontend writes: a heading, a fence per changed file, and
//! in it a marked row per item.

use vstd::prelude::*;

use crate::changes::{FileKindModel, FileModel, StatusModel, ViewModel};
use crate::layout;
use crate::markdown;
use crate::render_laws;

verus! {

/// Whether a text is one line: a mark, a space, an indent and a signature.
pub open spec fn diff_line(
    line: Seq<char>,
    mark: char,
    indent: Seq<char>,
    signature: Seq<char>,
) -> bool {
    &&& line.len() == 2 + indent.len() + signature.len() + 1
    &&& line[0] == mark
    &&& line[1] == ' '
    &&& line.subrange(2, 2int + indent.len()) == indent
    &&& line.subrange(2int + indent.len(), line.len() - 1) == signature
    &&& line.last() == '\n'
}

/// Whatever its indent, a removed item is one line that starts with `-`, an
/// added one a line that starts with `+`, an unchanged one a line that starts
/// with a space; a modified one is both, its old signature removed and then its
/// new one added.
pub proof fn law_markdown_rows_are_marked(view: ViewModel, indent: Seq<char>)
    ensures
        ({
            let row = markdown::row_text(view, indent);
            let signature = view.item.signature;
            match view.status {
                StatusModel::Added => diff_line(row, '+', indent, signature),
                StatusModel::Removed => diff_line(row, '-', indent, signature),
                StatusModel::Unchanged => diff_line(row, ' ', indent, signature),
                StatusModel::Modified { before } => {
                    let first = 2int + indent.len() + before.signature.len() + 1;
                    &&& first <= row.len()
                    &&& diff_line(row.take(first), '-', indent, before.signature)
                    &&& diff_line(row.skip(first), '+', indent, signature)
                },
            }
        }),
{
    lemma_line('+', "+ "@, indent, view.item.signature);
    lemma_line('-', "- "@, indent, view.item.signature);
    lemma_line(' ', "  "@, indent, view.item.signature);
    if let StatusModel::Modified { before } = view.status {
        let row = markdown::row_text(view, indent);
        let first = 2int + indent.len() + before.signature.len() + 1;
        lemma_line('-', "- "@, indent, before.signature);
        reveal_strlit("- ");
        reveal_strlit("\n");
        assert(row.take(first) =~= "- "@ + indent + before.signature + "\n"@);
        assert(row.skip(first) =~= "+ "@ + indent + view.item.signature + "\n"@);
    }
}

/// A marker, an indent, a signature and a line end are one line.
proof fn lemma_line(mark: char, marker: Seq<char>, indent: Seq<char>, signature: Seq<char>)
    requires
        marker == "+ "@ && mark == '+' || marker == "- "@ && mark == '-' || marker == "  "@ && mark
            == ' ',
    ensures
        diff_line(marker + indent + signature + "\n"@, mark, indent, signature),
{
    reveal_strlit("+ ");
    reveal_strlit("- ");
    reveal_strlit("  ");
    reveal_strlit("\n");
    let line = marker + indent + signature + "\n"@;
    assert(line.subrange(2, 2int + indent.len()) =~= indent);
    assert(line.subrange(2int + indent.len(), line.len() - 1) =~= signature);
}

/// The members of a block are written in order, each in a row of its own two
/// columns in, and nothing else is.
pub proof fn law_markdown_members_follow_each_other(members: Seq<ViewModel>, n: int)
    requires
        0 <= n <= members.len(),
    ensures
        layout::in_turn(
            markdown::members_text(members, n),
            |m: int| markdown::row_text(members[m], seq![' ', ' ']),
            n,
        ),
    decreases n,
{
    let piece = |m: int| markdown::row_text(members[m], seq![' ', ' ']);
    reveal_strlit("  ");
    assert("  "@ =~= seq![' ', ' ']);
    if n == 0 {
        layout::lemma_no_pieces(piece);
    } else {
        law_markdown_members_follow_each_other(members, n - 1);
        layout::lemma_one_more(markdown::members_text(members, n - 1), piece, n - 1);
    }
}

/// The blocks of a file are written in order, each with air where members are,
/// its own row without an indent, and then all of its members.
pub proof fn law_markdown_blocks_follow_each_other(blocks: Seq<ViewModel>, n: int)
    requires
        0 <= n <= blocks.len(),
    ensures
        layout::in_turn(
            markdown::blocks_text(blocks, n),
            |b: int|
                render_laws::air(blocks, b) + markdown::row_text(blocks[b], seq![])
                    + markdown::members_text(blocks[b].members, blocks[b].members.len() as int),
            n,
        ),
    decreases n,
{
    let piece = |b: int|
        render_laws::air(blocks, b) + markdown::row_text(blocks[b], seq![])
            + markdown::members_text(blocks[b].members, blocks[b].members.len() as int);
    if n == 0 {
        layout::lemma_no_pieces(piece);
    } else {
        law_markdown_blocks_follow_each_other(blocks, n - 1);
        layout::lemma_one_more(markdown::blocks_text(blocks, n - 1), piece, n - 1);
        reveal_strlit("\n");
        reveal_strlit("");
        assert("\n"@ =~= seq!['\n']);
        assert(""@ =~= seq![]);
        assert(markdown::blocks_text(blocks, n) =~= markdown::blocks_text(blocks, n - 1) + piece(
            n - 1,
        ));
    }
}

/// A file is set off by a blank line and headed by its path, in bold and in
/// code. A deleted file's heading says so and is all there is; all blocks of a
/// changed file stand in a fence of the diff language below it.
pub proof fn law_markdown_files_are_headed(file: FileModel)
    ensures
        match file.kind {
            FileKindModel::Deleted => markdown::file_text(file) == "\n**`"@ + file.path
                + "`** — deleted\n"@,
            FileKindModel::Changed(blocks) => markdown::file_text(file) == "\n**`"@ + file.path
                + "`**\n\n```diff\n"@ + markdown::blocks_text(blocks, blocks.len() as int)
                + "```\n"@,
        },
{
    reveal_strlit("\n");
    reveal_strlit("**`");
    reveal_strlit("\n**`");
    reveal_strlit("`** — deleted");
    reveal_strlit("`** — deleted\n");
    reveal_strlit("`**");
    reveal_strlit("```diff");
    reveal_strlit("```");
    reveal_strlit("```\n");
    reveal_strlit("`**\n\n```diff\n");
    assert("\n"@ + "**`"@ =~= "\n**`"@);
    match file.kind {
        FileKindModel::Deleted => {
            assert(markdown::file_text(file) =~= "\n**`"@ + file.path + "`** — deleted\n"@);
        },
        FileKindModel::Changed(blocks) => {
            let rows = markdown::blocks_text(blocks, blocks.len() as int);
            assert("`**"@ + "\n"@ + "\n"@ + "```diff"@ + "\n"@ =~= "`**\n\n```diff\n"@);
            assert(markdown::file_text(file) =~= "\n**`"@ + file.path + (("`**"@ + "\n"@ + "\n"@
                + "```diff"@ + "\n"@) + rows + ("```"@ + "\n"@)));
            assert("```"@ + "\n"@ =~= "```\n"@);
            assert(markdown::file_text(file) =~= "\n**`"@ + file.path + "`**\n\n```diff\n"@ + rows
                + "```\n"@);
        },
    }
}

/// Every file of a review is written below the heading, in order, and nothing
/// else is; a review without files says so there.
pub proof fn law_markdown_files_follow_each_other(review: Seq<FileModel>)
    ensures
        ({
            let whole = markdown::review_text(review);
            let heading = "### absolem — shape of the change\n"@;
            &&& heading.len() <= whole.len()
            &&& whole.take(heading.len() as int) == heading
            &&& review.len() > 0 ==> layout::in_turn(
                whole.skip(heading.len() as int),
                |f: int| markdown::file_text(review[f]),
                review.len() as int,
            )
            &&& review.len() == 0 ==> whole.skip(heading.len() as int)
                == "\n_No structural changes — the API surface is untouched._\n"@
        }),
{
    let whole = markdown::review_text(review);
    let heading = "### absolem — shape of the change\n"@;
    reveal_strlit("### absolem — shape of the change\n");
    reveal_strlit("### absolem — shape of the change");
    reveal_strlit("_No structural changes — the API surface is untouched._");
    reveal_strlit("\n_No structural changes — the API surface is untouched._\n");
    reveal_strlit("\n");
    assert("### absolem — shape of the change"@ + "\n"@ =~= heading);
    if review.len() == 0 {
        let rest = "\n"@ + ("_No structural changes — the API surface is untouched._"@ + "\n"@);
        assert(whole =~= heading + rest);
        assert(rest =~= "\n_No structural changes — the API surface is untouched._\n"@);
        assert(whole.skip(heading.len() as int) =~= rest);
    } else {
        let rest = markdown::files_text(review, review.len() as int);
        lemma_files(review, review.len() as int);
        assert(whole =~= heading + rest);
        assert(whole.skip(heading.len() as int) =~= rest);
    }
    assert(whole.take(heading.len() as int) =~= heading);
}

/// The first `n` files follow each other.
proof fn lemma_files(review: Seq<FileModel>, n: int)
    requires
        0 <= n <= review.len(),
    ensures
        layout::in_turn(
            markdown::files_text(review, n),
            |f: int| markdown::file_text(review[f]),
            n,
        ),
    decreases n,
{
    let piece = |f: int| markdown::file_text(review[f]);
    if n == 0 {
        layout::lemma_no_pieces(piece);
    } else {
        lemma_files(review, n - 1);
        layout::lemma_one_more(markdown::files_text(review, n - 1), piece, n - 1);
    }
}

} // verus!
