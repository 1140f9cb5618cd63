//! What the models keep of the values they stand for: nothing is left out,
//! renamed or put in another place.

use vstd::prelude::*;

use crate::changes::{
    FileChange, FileChangeKind, FileKindModel, ItemStatus, ItemView, StatusModel,
};
use crate::git::{Entry, RefRange, Rev, RevModel};
use crate::item::Item;
use crate::producer::syntax::SyntaxNode;
use crate::range::{BaseRev, BaseRevModel, BaseStep, RangeStep};
use crate::review::{HeadFile, SourceFile, Sources, SourcesModel};
use crate::tui::rows::{JumpTarget, Row, Stop};
use crate::tui::style::StyledLine;

verus! {

/// The model of an item has its identity, signature, line, parent and references.
pub proof fn law_items_keep_their_fields(item: Item)
    ensures
        item@.id.path == item.id.path@,
        item@.id.kind == item.id.kind,
        item@.id.name == item.id.name@,
        item@.signature == item.signature@,
        item@.line == item.line,
        item@.parent is Some <==> item.parent is Some,
        item.parent matches Some(parent) ==> item@.parent == Some(parent@),
        item@.refs.len() == item.refs@.len(),
        forall|r: int|
            0 <= r < item.refs@.len() ==> #[trigger] item@.refs[r] == item.refs@[r].0@,
{
}

/// The model of a status is the status of the same name.
pub proof fn law_statuses_keep_their_name(status: ItemStatus)
    ensures
        status is Added <==> status@ is Added,
        status is Removed <==> status@ is Removed,
        status is Unchanged <==> status@ is Unchanged,
        status is Modified <==> status@ is Modified,
        status matches ItemStatus::Modified { before } ==> status@ == (StatusModel::Modified {
            before: before@,
        }),
{
}

/// The model of a row has its status, its item and all its members, in order.
pub proof fn law_views_keep_their_members(view: ItemView)
    ensures
        view@.status == view.status@,
        view@.item == view.item@,
        view@.members.len() == view.members@.len(),
        forall|m: int|
            0 <= m < view.members@.len() ==> #[trigger] view@.members[m] == view.members@[m]@,
{
}

/// The model of a changed file has its path and all its blocks, in order.
pub proof fn law_files_keep_their_blocks(file: FileChange)
    ensures
        file@.path == file.path@,
        file.kind is Deleted <==> file@.kind is Deleted,
        file.kind matches FileChangeKind::Changed(set) ==> (
        file@.kind matches FileKindModel::Changed(blocks) && blocks.len() == set.blocks@.len()
            && forall|b: int|
            0 <= b < set.blocks@.len() ==> #[trigger] blocks[b] == set.blocks@[b]@),
{
}

/// The model of a file's contents tells the side before from the side after.
pub proof fn law_sources_keep_their_sides(file: SourceFile)
    ensures
        file@.path == file.path@,
        file.sources is Deleted <==> file@.sources is Deleted,
        file.sources matches Sources::Added { head } ==> file@.sources == (SourcesModel::Added {
            head: head@,
        }),
        file.sources matches Sources::Modified { base, head } ==> file@.sources == (
        SourcesModel::Modified { base: base@, head: head@ }),
{
}

/// The model of a head file has its path and its source.
pub proof fn law_head_files_keep_their_source(file: HeadFile)
    ensures
        file@.path == file.path@,
        file@.source == file.source@,
{
}

/// The model of a range tells its base from its head.
pub proof fn law_ranges_keep_their_ends(range: RefRange)
    ensures
        range@.base == range.base@,
        range@.mode == range.mode,
        range.head is WorkingTree <==> range@.head is WorkingTree,
        range.head matches Rev::Ref(name) ==> range@.head == RevModel::Ref(name@),
{
}

/// The model of a listed file has its path, its status and where it came from.
pub proof fn law_entries_keep_their_paths(entry: Entry)
    ensures
        entry@.file.path == entry.file.path@,
        entry@.file.status == entry.file.status,
        entry@.from is Some <==> entry.from is Some,
        entry.from matches Some(from) ==> entry@.from == Some(from@),
{
}

/// The model of a step is the step of the same name.
pub proof fn law_steps_keep_their_name(base: BaseStep, range: RangeStep, rev: BaseRev)
    ensures
        base is Ask <==> base@ is Ask,
        base is Found <==> base@ is Found,
        base matches BaseStep::Ask(name) ==> base@->Ask_0 == name@,
        base matches BaseStep::Found(name) ==> base@->Found_0 == name@,
        range is Ask <==> range@ is Ask,
        range is Range <==> range@ is Range,
        range matches RangeStep::Ask(name) ==> range@->Ask_0 == name@,
        range matches RangeStep::Range(given) ==> range@->Range_0 == given@,
        rev matches BaseRev::At(name) ==> rev@ == BaseRevModel::At(name@),
        rev matches BaseRev::MergeBaseOf(a, b) ==> rev@ == BaseRevModel::MergeBaseOf(a@, b@),
{
}

/// The model of a syntax node has its kind, its place and all its children, in
/// order, each under its field.
pub proof fn law_nodes_keep_their_children(node: SyntaxNode)
    ensures
        node@.kind == node.kind@,
        node@.named == node.named,
        node@.start == node.start,
        node@.end == node.end,
        node@.row == node.row,
        node@.children.len() == node.children@.len(),
        forall|i: int|
            0 <= i < node.children@.len() ==> #[trigger] node@.children[i].node
                == node.children@[i].node@,
        forall|i: int|
            0 <= i < node.children@.len() ==> (node.children@[i].field matches Some(field)
                ==> #[trigger] node@.children[i].field == Some(field@)),
        forall|i: int|
            0 <= i < node.children@.len() ==> (node.children@[i].field is None
                ==> #[trigger] node@.children[i].field is None),
{
}

/// The model of a display row has its text, its style and what it leads to.
pub proof fn law_rows_keep_their_stop(row: Row, stop: Stop, target: JumpTarget, line: StyledLine)
    ensures
        row@.line == row.line@,
        row@.stop is Some <==> row.stop is Some,
        row.stop matches Some(here) ==> row@.stop == Some(here@),
        stop@.jump is Some <==> stop.jump is Some,
        stop.jump matches Some(to) ==> stop@.jump == Some(to@),
        stop@.expandable == stop.expandable,
        stop@.referenced == stop.referenced,
        stop@.header == stop.header,
        stop@.path is Some <==> stop.path is Some,
        stop.path matches Some(path) ==> stop@.path == Some(path@),
        target@.path == target.path@,
        target@.line == target.line,
        line@.style == line.style,
        line@.spans.len() == line.spans@.len(),
        forall|s: int|
            0 <= s < line.spans@.len() ==> (#[trigger] line@.spans[s]).content
                == line.spans@[s].content@ && line@.spans[s].style == line.spans@[s].style,
{
}

} // verus!
