//! What the plain-text frontend writes: a marked row per item, in order, and
//! nothing else but separators.

use vstd::prelude::*;

use crate::changes::{FileKindModel, FileModel, StatusModel, ViewModel};
use crate::layout;
use crate::render;
use crate::text;

verus! {

/// The character that marks an item of a status.
pub open spec fn mark(status: StatusModel) -> char {
    match status {
        StatusModel::Added => '+',
        StatusModel::Removed => '-',
        StatusModel::Modified { .. } => '~',
        StatusModel::Unchanged => ' ',
    }
}

/// A row starts with its indent, the mark of its status and a space, and then
/// has the signature, up to the line end. A modified item has one more line,
/// with the old signature after `was: `, four columns further in; no other item
/// has more than the one.
pub proof fn law_plain_rows_are_marked(view: ViewModel, indent: nat)
    ensures
        ({
            let row = render::row_text(view, indent);
            let signature = view.item.signature;
            let at = indent as int;
            let end = at + 2 + signature.len();
            &&& row.len() > end
            &&& forall|i: int| 0 <= i < at ==> #[trigger] row[i] == ' '
            &&& row[at] == mark(view.status)
            &&& row[at + 1] == ' '
            &&& row.subrange(at + 2, end) == signature
            &&& row[end] == '\n'
            &&& match view.status {
                StatusModel::Modified { before } => {
                    let second = row.skip(end + 1);
                    &&& second.len() == at + 9 + before.signature.len() + 1
                    &&& forall|i: int| 0 <= i < at + 4 ==> #[trigger] second[i] == ' '
                    &&& second.subrange(at + 4, at + 9) == seq!['w', 'a', 's', ':', ' ']
                    &&& second.subrange(at + 9, second.len() - 1) == before.signature
                    &&& second.last() == '\n'
                },
                _ => row.len() == end + 1,
            }
        }),
{
    reveal_strlit("+ ");
    reveal_strlit("- ");
    reveal_strlit("~ ");
    reveal_strlit("  ");
    reveal_strlit("\n");
    reveal_strlit("    was: ");
    let row = render::row_text(view, indent);
    let signature = view.item.signature;
    let at = indent as int;
    let end = at + 2 + signature.len();
    assert(text::spaces(indent).len() == indent);
    assert(row.subrange(at + 2, end) =~= signature);
    if let StatusModel::Modified { before } = view.status {
        let second = row.skip(end + 1);
        let was = text::spaces(indent) + "    was: "@ + before.signature + "\n"@;
        assert(second =~= was);
        assert(second.subrange(at + 4, at + 9) =~= seq!['w', 'a', 's', ':', ' ']);
        assert(second.subrange(at + 9, second.len() - 1) =~= before.signature);
    }
}

/// The members of a block are written in order, each in a row of its own six
/// columns in, and nothing else is.
pub proof fn law_plain_members_follow_each_other(members: Seq<ViewModel>, n: int)
    requires
        0 <= n <= members.len(),
    ensures
        layout::in_turn(
            render::members_text(members, n),
            |m: int| render::row_text(members[m], 6),
            n,
        ),
    decreases n,
{
    let piece = |m: int| render::row_text(members[m], 6);
    if n == 0 {
        layout::lemma_no_pieces(piece);
    } else {
        law_plain_members_follow_each_other(members, n - 1);
        layout::lemma_one_more(render::members_text(members, n - 1), piece, n - 1);
    }
}

/// A blank line if a block has members or the block before it has, and none
/// otherwise.
pub open spec fn air(blocks: Seq<ViewModel>, b: int) -> Seq<char> {
    if blocks[b].members.len() > 0 || (b > 0 && blocks[b - 1].members.len() > 0) {
        seq!['\n']
    } else {
        seq![]
    }
}

/// The blocks of a file are written in order, each with air where members are,
/// its own row two columns in, and then all of its members.
pub proof fn law_plain_blocks_follow_each_other(blocks: Seq<ViewModel>, n: int)
    requires
        0 <= n <= blocks.len(),
    ensures
        layout::in_turn(
            render::blocks_text(blocks, n),
            |b: int|
                air(blocks, b) + render::row_text(blocks[b], 2) + render::members_text(
                    blocks[b].members,
                    blocks[b].members.len() as int,
                ),
            n,
        ),
    decreases n,
{
    let piece = |b: int|
        air(blocks, b) + render::row_text(blocks[b], 2) + render::members_text(
            blocks[b].members,
            blocks[b].members.len() as int,
        );
    if n == 0 {
        layout::lemma_no_pieces(piece);
    } else {
        law_plain_blocks_follow_each_other(blocks, n - 1);
        layout::lemma_one_more(render::blocks_text(blocks, n - 1), piece, n - 1);
        reveal_strlit("\n");
        assert("\n"@ =~= seq!['\n']);
        assert(render::blocks_text(blocks, n) =~= render::blocks_text(blocks, n - 1) + piece(
            n - 1,
        ));
    }
}

/// A file starts with a line that ends in its path. A deleted file's says so
/// before the path, and is all there is; a changed file's is the path alone, and
/// all of its blocks follow.
pub proof fn law_plain_files_are_headed(file: FileModel)
    ensures
        match file.kind {
            FileKindModel::Deleted => render::file_text(file) == seq![
                'D',
                'E',
                'L',
                'E',
                'T',
                'E',
                'D',
                ' ',
            ] + file.path + seq!['\n'],
            FileKindModel::Changed(blocks) => render::file_text(file) == file.path + seq!['\n']
                + render::blocks_text(blocks, blocks.len() as int),
        },
{
    reveal_strlit("DELETED ");
    reveal_strlit("\n");
    assert("DELETED "@ =~= seq!['D', 'E', 'L', 'E', 'T', 'E', 'D', ' ']);
    assert("\n"@ =~= seq!['\n']);
}

/// Every file of a review is written, in order, with a blank line between each
/// two and no other; a review without files is one line that says so.
pub proof fn law_plain_files_follow_each_other(review: Seq<FileModel>)
    ensures
        review.len() > 0 ==> layout::in_turn(
            render::review_text(review),
            |f: int|
                (if f > 0 {
                    seq!['\n']
                } else {
                    seq![]
                }) + render::file_text(review[f]),
            review.len() as int,
        ),
        review.len() == 0 ==> render::review_text(review)
            == "No structural changes — the API surface is untouched.\n"@,
{
    if review.len() > 0 {
        lemma_files(review, review.len() as int);
    } else {
        reveal_strlit("No structural changes — the API surface is untouched.");
        reveal_strlit("No structural changes — the API surface is untouched.\n");
        reveal_strlit("\n");
        assert(render::review_text(review)
            =~= "No structural changes — the API surface is untouched.\n"@);
    }
}

/// The first `n` files follow each other.
proof fn lemma_files(review: Seq<FileModel>, n: int)
    requires
        0 <= n <= review.len(),
    ensures
        layout::in_turn(
            render::files_text(review, n),
            |f: int|
                (if f > 0 {
                    seq!['\n']
                } else {
                    seq![]
                }) + render::file_text(review[f]),
            n,
        ),
    decreases n,
{
    let piece = |f: int|
        (if f > 0 {
            seq!['\n']
        } else {
            seq![]
        }) + render::file_text(review[f]);
    if n == 0 {
        layout::lemma_no_pieces(piece);
    } else {
        lemma_files(review, n - 1);
        layout::lemma_one_more(render::files_text(review, n - 1), piece, n - 1);
        reveal_strlit("\n");
        assert("\n"@ =~= seq!['\n']);
        assert(render::files_text(review, n) =~= render::files_text(review, n - 1) + piece(n - 1));
    }
}

} // verus!
