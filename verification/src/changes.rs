//! Pure diff between two Surfaces, grouped the way a person reads it.
//!
//! Matching is by `ItemId`: same id → compare signatures (modified if they
//! differ); id in head but not base → added; id in base but not head →
//! removed. Items are then grouped into *blocks*: a top-level item plus all
//! of its members. A block whose composite changed anywhere carries **all**
//! of its members — unchanged ones as context — so a frontend can show the
//! entire enum/struct/interface with the changes in place, not orphaned
//! member rows.
//!
//! Output order is deterministic: head order drives the blocks (and the
//! members within them), removed members trail their block, and removed
//! top-level items trail the file. A removed composite folds its members
//! into the one removal row. Blocks with no change anywhere are dropped. No
//! IO, no language knowledge.

use vstd::hash_map::StringHashMap;
use vstd::hash_set::StringHashSet;
use vstd::prelude::*;

use crate::item::{self, Item};
use crate::surface::{self, Surface};
use crate::text;

verus! {

/// How one item moved between the two Surfaces.
#[derive(Debug, PartialEq, Eq)]
pub enum ItemStatus {
    Added,
    Removed,
    Modified { before: Item },
    /// Identical on both sides — carried so composites render whole.
    Unchanged,
}

/// One rendered block: an item and its members (members never nest further
/// today).
#[derive(Debug, PartialEq, Eq)]
pub struct ItemView {
    pub status: ItemStatus,
    pub item: Item,
    pub members: Vec<ItemView>,
}

/// The diff of two Surfaces.
#[derive(Debug, PartialEq, Eq)]
pub struct ChangeSet {
    pub blocks: Vec<ItemView>,
}

/// One file's contribution to a review: either it was deleted outright, or
/// its shape changed in a way worth showing. Files whose API shape did not
/// move are dropped before this stage, so every `FileChange` renders.
#[derive(Debug, PartialEq, Eq)]
pub struct FileChange {
    pub path: String,
    pub kind: FileChangeKind,
}

/// What happened to a file.
#[derive(Debug, PartialEq, Eq)]
pub enum FileChangeKind {
    Deleted,
    Changed(ChangeSet),
}

/// The mathematical model of an `ItemStatus`.
#[verifier::ext_equal]
pub enum StatusModel {
    Added,
    Removed,
    Modified { before: item::ItemModel },
    Unchanged,
}

/// The mathematical model of an `ItemView`.
#[verifier::ext_equal]
pub struct ViewModel {
    pub status: StatusModel,
    pub item: item::ItemModel,
    pub members: Seq<ViewModel>,
}

/// The mathematical model of a `FileChange`.
#[verifier::ext_equal]
pub struct FileModel {
    pub path: Seq<char>,
    pub kind: FileKindModel,
}

/// The mathematical model of a `FileChangeKind`.
#[verifier::ext_equal]
pub enum FileKindModel {
    Deleted,
    Changed(Seq<ViewModel>),
}

impl View for ItemStatus {
    type V = StatusModel;

    open spec fn view(&self) -> StatusModel {
        match *self {
            ItemStatus::Added => StatusModel::Added,
            ItemStatus::Removed => StatusModel::Removed,
            ItemStatus::Modified { before } => StatusModel::Modified { before: before@ },
            ItemStatus::Unchanged => StatusModel::Unchanged,
        }
    }
}

impl ItemView {
    /// The model of the view: that of its parts.
    pub open spec fn model(self) -> ViewModel
        decreases self,
    {
        ViewModel {
            status: self.status@,
            item: self.item@,
            members: Seq::new(
                self.members@.len(),
                |i: int|
                    if 0 <= i < self.members@.len() {
                        self.members@[i].model()
                    } else {
                        arbitrary()
                    },
            ),
        }
    }
}

impl View for ItemView {
    type V = ViewModel;

    open spec fn view(&self) -> ViewModel {
        self.model()
    }
}

impl View for ChangeSet {
    type V = Seq<ViewModel>;

    open spec fn view(&self) -> Seq<ViewModel> {
        item::views(self.blocks@)
    }
}

impl View for FileChangeKind {
    type V = FileKindModel;

    open spec fn view(&self) -> FileKindModel {
        match *self {
            FileChangeKind::Deleted => FileKindModel::Deleted,
            FileChangeKind::Changed(set) => FileKindModel::Changed(set@),
        }
    }
}

impl View for FileChange {
    type V = FileModel;

    open spec fn view(&self) -> FileModel {
        FileModel { path: self.path@, kind: self.kind@ }
    }
}

/// A view models as its status, its item, and the models of its members.
pub proof fn lemma_model(view: ItemView)
    ensures
        view@ == (ViewModel {
            status: view.status@,
            item: view.item@,
            members: item::views(view.members@),
        }),
{
    assert(view@.members =~= item::views(view.members@));
}

/// Whether a status is a change.
pub open spec fn status_changed(status: StatusModel) -> bool {
    status != StatusModel::Unchanged
}

/// Whether a view or one of its members changed.
pub open spec fn view_changed(view: ViewModel) -> bool {
    status_changed(view.status) || exists|m: int|
        0 <= m < view.members.len() && status_changed((#[trigger] view.members[m]).status)
}

/// The word a status serializes to.
pub open spec fn status_word(status: StatusModel) -> Seq<char> {
    match status {
        StatusModel::Added => "added"@,
        StatusModel::Removed => "removed"@,
        StatusModel::Modified { .. } => "modified"@,
        StatusModel::Unchanged => "unchanged"@,
    }
}

/// A view without members.
pub open spec fn leaf(status: StatusModel, item: item::ItemModel) -> ViewModel {
    ViewModel { status, item, members: seq![] }
}

impl ItemStatus {
    /// Whether the status is a change.
    pub fn is_changed(&self) -> (changed: bool)
        ensures
            changed == status_changed(self@),
    {
        match self {
            ItemStatus::Unchanged => false,
            _ => true,
        }
    }

    /// The status as a lowercase word, for serialized output.
    pub fn as_str(&self) -> (word: &'static str)
        ensures
            word@ == status_word(self@),
    {
        match self {
            ItemStatus::Added => "added",
            ItemStatus::Removed => "removed",
            ItemStatus::Modified { .. } => "modified",
            ItemStatus::Unchanged => "unchanged",
        }
    }
}

impl Clone for ItemStatus {
    fn clone(&self) -> (copy: Self)
        ensures
            copy@ == self@,
    {
        match self {
            ItemStatus::Added => ItemStatus::Added,
            ItemStatus::Removed => ItemStatus::Removed,
            ItemStatus::Modified { before } => ItemStatus::Modified { before: before.clone() },
            ItemStatus::Unchanged => ItemStatus::Unchanged,
        }
    }
}

impl ItemView {
    /// A view without members.
    pub fn leaf(status: ItemStatus, item: Item) -> (view: Self)
        ensures
            view@ == leaf(status@, item@),
    {
        let view = ItemView { status, item, members: Vec::new() };
        proof {
            assert(view@.members =~= seq![]);
        }
        view
    }

    /// Whether the item or one of its members changed.
    pub fn is_changed(&self) -> (changed: bool)
        ensures
            changed == view_changed(self@),
    {
        proof {
            lemma_model(*self);
        }
        if self.status.is_changed() {
            return true;
        }
        let mut i: usize = 0;
        while i < self.members.len()
            invariant
                i <= self.members@.len(),
                self@.members == item::views(self.members@),
                forall|m: int| 0 <= m < i ==> !status_changed((#[trigger] self@.members[m]).status),
            decreases self.members.len() - i,
        {
            proof {
                lemma_model(self.members@[i as int]);
                assert(self@.members[i as int] == self.members@[i as int]@);
            }
            if self.members[i].status.is_changed() {
                return true;
            }
            i = i + 1;
        }
        false
    }
}

impl Clone for ItemView {
    fn clone(&self) -> (copy: Self)
        ensures
            copy@ == self@,
        decreases self,
    {
        let mut members: Vec<ItemView> = Vec::new();
        let mut i: usize = 0;
        while i < self.members.len()
            invariant
                i <= self.members@.len(),
                item::views(members@) == item::views(self.members@).take(i as int),
            decreases self.members.len() - i,
        {
            let copied = self.members[i].clone();
            proof {
                item::lemma_views_push(members@, copied);
            }
            members.push(copied);
            i = i + 1;
            assert(item::views(members@) =~= item::views(self.members@).take(i as int));
        }
        let copy = ItemView { status: self.status.clone(), item: self.item.clone(), members };
        proof {
            assert(item::views(self.members@).take(i as int) =~= item::views(self.members@));
            lemma_model(copy);
            lemma_model(*self);
        }
        copy
    }
}

/// Copies a list of views.
pub fn clone_views(list: &Vec<ItemView>) -> (copy: Vec<ItemView>)
    ensures
        item::views(copy@) == item::views(list@),
{
    let mut out: Vec<ItemView> = Vec::new();
    let mut i: usize = 0;
    while i < list.len()
        invariant
            i <= list@.len(),
            item::views(out@) == item::views(list@).take(i as int),
        decreases list.len() - i,
    {
        let copied = list[i].clone();
        proof {
            item::lemma_views_push(out@, copied);
        }
        out.push(copied);
        i = i + 1;
        assert(item::views(out@) =~= item::views(list@).take(i as int));
    }
    assert(item::views(list@).take(list@.len() as int) =~= item::views(list@));
    out
}

impl Clone for ChangeSet {
    fn clone(&self) -> (copy: Self)
        ensures
            copy@ == self@,
    {
        ChangeSet { blocks: clone_views(&self.blocks) }
    }
}

impl Default for ChangeSet {
    fn default() -> (set: Self)
        ensures
            set@ == Seq::<ViewModel>::empty(),
    {
        let set = ChangeSet { blocks: Vec::new() };
        assert(set@ =~= Seq::<ViewModel>::empty());
        set
    }
}

impl ChangeSet {
    /// Whether nothing changed.
    pub fn is_empty(&self) -> (empty: bool)
        ensures
            empty == (self@.len() == 0),
    {
        self.blocks.len() == 0
    }
}

impl Clone for FileChangeKind {
    fn clone(&self) -> (copy: Self)
        ensures
            copy@ == self@,
    {
        match self {
            FileChangeKind::Deleted => FileChangeKind::Deleted,
            FileChangeKind::Changed(set) => FileChangeKind::Changed(set.clone()),
        }
    }
}

impl Clone for FileChange {
    fn clone(&self) -> (copy: Self)
        ensures
            copy@ == self@,
    {
        FileChange { path: self.path.clone(), kind: self.kind.clone() }
    }
}

/// How `item` of the head moved against the base.
pub open spec fn status_of(base: Seq<item::ItemModel>, item: item::ItemModel) -> StatusModel {
    match surface::by_id(base, item.id) {
        None => StatusModel::Added,
        Some(before) => if before.signature != item.signature {
            StatusModel::Modified { before }
        } else {
            StatusModel::Unchanged
        },
    }
}

/// Whether the item stands on its own rather than inside a composite.
pub open spec fn top_level(item: item::ItemModel) -> bool {
    item.parent is None
}

/// The last of the first `n` items that is top-level and carries `name`.
pub open spec fn last_top(items: Seq<item::ItemModel>, name: Seq<char>, n: int) -> Option<int>
    decreases n,
{
    if n <= 0 {
        None
    } else if top_level(items[n - 1]) && items[n - 1].id.name == name {
        Some(n - 1)
    } else {
        last_top(items, name, n - 1)
    }
}

/// The head item whose block head item `i` joins as a member: the last
/// top-level item before it that carries the name its `parent` gives.
pub open spec fn owner(head: Seq<item::ItemModel>, i: int) -> Option<int> {
    match head[i].parent {
        None => None,
        Some(parent) => last_top(head, parent, i),
    }
}

/// The first `n` head items that start a block, in order.
pub open spec fn headers(head: Seq<item::ItemModel>, n: int) -> Seq<int>
    decreases n,
{
    if n <= 0 {
        seq![]
    } else if owner(head, n - 1) is None {
        headers(head, n - 1).push(n - 1)
    } else {
        headers(head, n - 1)
    }
}

/// The members that the first `n` head items bring to the block of head item
/// `at`.
pub open spec fn head_members(
    base: Seq<item::ItemModel>,
    head: Seq<item::ItemModel>,
    at: int,
    n: int,
) -> Seq<ViewModel>
    decreases n,
{
    if n <= 0 {
        seq![]
    } else if owner(head, n - 1) == Some(at) {
        head_members(base, head, at, n - 1).push(leaf(status_of(base, head[n - 1]), head[n - 1]))
    } else {
        head_members(base, head, at, n - 1)
    }
}

/// Whether base item `i` is gone from the head.
pub open spec fn removed(
    base: Seq<item::ItemModel>,
    head: Seq<item::ItemModel>,
    i: int,
) -> bool {
    !surface::has_id(head, base[i].id)
}

/// Whether a top-level item called `name` is gone from the head.
pub open spec fn removed_composite(
    base: Seq<item::ItemModel>,
    head: Seq<item::ItemModel>,
    name: Seq<char>,
) -> bool {
    exists|i: int|
        0 <= i < base.len() && #[trigger] top_level(base[i]) && removed(base, head, i)
            && base[i].id.name == name
}

/// Where a removed base item goes.
pub enum Place {
    /// Nowhere: its composite is gone too and its removal row stands for it.
    Folded,
    /// Into the block of this head item.
    Member(int),
    /// After the file's other blocks, as a block of its own.
    Tail,
}

/// Where removed base item `i` goes.
pub open spec fn place(
    base: Seq<item::ItemModel>,
    head: Seq<item::ItemModel>,
    i: int,
) -> Place {
    match base[i].parent {
        None => Place::Tail,
        Some(parent) => if removed_composite(base, head, parent) {
            Place::Folded
        } else {
            match last_top(head, parent, head.len() as int) {
                Some(at) => Place::Member(at),
                None => Place::Tail,
            }
        },
    }
}

/// The removal rows of those of the first `n` base items that are gone and
/// go to `to`.
pub open spec fn removals(
    base: Seq<item::ItemModel>,
    head: Seq<item::ItemModel>,
    to: Place,
    n: int,
) -> Seq<ViewModel>
    decreases n,
{
    if n <= 0 {
        seq![]
    } else if removed(base, head, n - 1) && place(base, head, n - 1) == to {
        removals(base, head, to, n - 1).push(leaf(StatusModel::Removed, base[n - 1]))
    } else {
        removals(base, head, to, n - 1)
    }
}

/// The block that head item `at` starts: the item, its members in head order,
/// then its removed members.
pub open spec fn block(
    base: Seq<item::ItemModel>,
    head: Seq<item::ItemModel>,
    at: int,
) -> ViewModel {
    ViewModel {
        status: status_of(base, head[at]),
        item: head[at],
        members: head_members(base, head, at, head.len() as int) + removals(
            base,
            head,
            Place::Member(at),
            base.len() as int,
        ),
    }
}

/// Every block of the head, then what is left of the base, changed or not.
pub open spec fn all_blocks(
    base: Seq<item::ItemModel>,
    head: Seq<item::ItemModel>,
) -> Seq<ViewModel> {
    let starts = headers(head, head.len() as int);
    Seq::new(starts.len(), |b: int| block(base, head, starts[b])) + removals(
        base,
        head,
        Place::Tail,
        base.len() as int,
    )
}

/// The blocks of the diff: those in which something changed.
pub open spec fn diff_blocks(
    base: Seq<item::ItemModel>,
    head: Seq<item::ItemModel>,
) -> Seq<ViewModel> {
    all_blocks(base, head).filter(|view: ViewModel| view_changed(view))
}

/// The status of a head item, by comparison with the base.
fn status_against(base: &Surface, item: &Item) -> (status: ItemStatus)
    ensures
        status@ == status_of(base@, item@),
{
    match base.by_id(&item.id) {
        None => ItemStatus::Added,
        Some(before) => if !text::same_text(before.signature.as_str(), item.signature.as_str()) {
            ItemStatus::Modified { before: before.clone() }
        } else {
            ItemStatus::Unchanged
        },
    }
}

/// Adds a member to one of `blocks`.
pub fn push_member(blocks: &mut Vec<ItemView>, at: usize, member: ItemView)
    requires
        at < old(blocks)@.len(),
    ensures
        item::views(final(blocks)@) == item::views(old(blocks)@).update(
            at as int,
            (ViewModel {
                members: old(blocks)@[at as int]@.members.push(member@),
                ..old(blocks)@[at as int]@
            }),
        ),
{
    let ghost before = *blocks;
    proof {
        lemma_model(before@[at as int]);
        item::lemma_views_push(before@[at as int].members@, member);
    }
    blocks[at].members.push(member);
    proof {
        lemma_model(blocks@[at as int]);
        assert(item::views(blocks@) =~= item::views(before@).update(
            at as int,
            (ViewModel {
                members: before@[at as int]@.members.push(member@),
                ..before@[at as int]@
            }),
        ));
    }
}

/// The blocks of the first `n` head items, before removals.
spec fn partial_block(
    base: Seq<item::ItemModel>,
    head: Seq<item::ItemModel>,
    at: int,
    n: int,
    k: int,
) -> ViewModel {
    ViewModel {
        status: status_of(base, head[at]),
        item: head[at],
        members: head_members(base, head, at, n) + removals(base, head, Place::Member(at), k),
    }
}

/// The partial blocks of every header among the first `n` head items.
spec fn partial_blocks(
    base: Seq<item::ItemModel>,
    head: Seq<item::ItemModel>,
    n: int,
    k: int,
) -> Seq<ViewModel> {
    let starts = headers(head, n);
    Seq::new(starts.len(), |b: int| partial_block(base, head, starts[b], n, k))
}

/// Whether `by_name` leads from each name to the block of the last top-level
/// item that carries it among the first `n` head items.
spec fn leads(
    by_name: Map<Seq<char>, usize>,
    head: Seq<item::ItemModel>,
    n: int,
) -> bool {
    forall|name: Seq<char>|
        #![trigger by_name.contains_key(name)]
        #![trigger last_top(head, name, n)]
        match last_top(head, name, n) {
            None => !by_name.contains_key(name),
            Some(at) => by_name.contains_key(name) && by_name[name] < headers(head, n).len()
                && headers(head, n)[by_name[name] as int] == at,
        }
}

/// Headers are distinct, ascending and among the items looked at.
pub proof fn lemma_headers(head: Seq<item::ItemModel>, n: int)
    requires
        0 <= n,
    ensures
        forall|b: int| 0 <= b < headers(head, n).len() ==> 0 <= #[trigger] headers(head, n)[b] < n,
        forall|b: int, c: int|
            0 <= b < c < headers(head, n).len() ==> #[trigger] headers(head, n)[b]
                < #[trigger] headers(head, n)[c],
    decreases n,
{
    if n > 0 {
        lemma_headers(head, n - 1);
        let before = headers(head, n - 1);
        assert forall|b: int| 0 <= b < headers(head, n).len() implies 0 <= #[trigger] headers(
            head,
            n,
        )[b] < n by {
            if b < before.len() {
                assert(headers(head, n)[b] == before[b]);
            }
        }
        assert forall|b: int, c: int|
            0 <= b < c < headers(head, n).len() implies #[trigger] headers(head, n)[b]
            < #[trigger] headers(head, n)[c] by {
            assert(headers(head, n)[b] == before[b]);
            if c < before.len() {
                assert(headers(head, n)[c] == before[c]);
            }
        }
    }
}

/// A top-level item found by name is among the items looked at.
proof fn lemma_last_top(items: Seq<item::ItemModel>, name: Seq<char>, n: int)
    ensures
        match last_top(items, name, n) {
            Some(at) => 0 <= at < n && top_level(items[at]) && items[at].id.name == name,
            None => true,
        },
    decreases n,
{
    if n > 0 {
        lemma_last_top(items, name, n - 1);
    }
}

/// Nothing joins the block of an item that has not been reached.
proof fn lemma_no_members_yet(
    base: Seq<item::ItemModel>,
    head: Seq<item::ItemModel>,
    at: int,
    n: int,
)
    requires
        n <= at + 1,
    ensures
        head_members(base, head, at, n) == Seq::<ViewModel>::empty(),
    decreases n,
{
    if n > 0 {
        lemma_no_members_yet(base, head, at, n - 1);
        if head[n - 1].parent is Some {
            lemma_last_top(head, head[n - 1].parent->0, n - 1);
        }
    }
}

/// Groups the head into blocks; also leads from each name to its block.
fn group_head(base: &Surface, head: &Surface) -> (grouped: (
    Vec<ItemView>,
    StringHashMap<usize>,
))
    ensures
        item::views(grouped.0@) == partial_blocks(base@, head@, head@.len() as int, 0),
        leads(grouped.1@, head@, head@.len() as int),
{
    let mut blocks: Vec<ItemView> = Vec::new();
    let mut by_name: StringHashMap<usize> = StringHashMap::new();
    let items = head.iter();
    let mut i: usize = 0;
    assert(item::views(blocks@) =~= partial_blocks(base@, head@, 0, 0));
    while i < items.len()
        invariant
            i <= items@.len(),
            item::views(items@) == head@,
            item::views(blocks@) == partial_blocks(base@, head@, i as int, 0),
            leads(by_name@, head@, i as int),
        decreases items.len() - i,
    {
        let item = &items[i];
        let ghost before = partial_blocks(base@, head@, i as int, 0);
        let ghost starts = headers(head@, i as int);
        proof {
            assert(head@[i as int] == item@);
            assert(item::views(blocks@).len() == starts.len());
            lemma_headers(head@, i as int);
            lemma_headers(head@, i + 1);
        }
        let view = ItemView::leaf(status_against(base, item), item.clone());
        let attached: Option<usize> = match &item.parent {
            None => None,
            Some(parent) => match by_name.get(parent.as_str()) {
                None => None,
                Some(at) => Some(*at),
            },
        };
        match attached {
            Some(at) => {
                proof {
                    assert(last_top(head@, item@.parent->0, i as int) == Some(starts[at as int]));
                }
                push_member(&mut blocks, at, view);
                proof {
                    assert(headers(head@, i + 1) == starts);
                    let after = partial_blocks(base@, head@, i + 1, 0);
                    assert forall|b: int| 0 <= b < after.len() implies item::views(blocks@)[b]
                        == #[trigger] after[b] by {
                        if b == at {
                            assert(after[b].members =~= before[b].members.push(view@));
                        } else {
                            assert(starts[b] != starts[at as int]);
                        }
                    }
                    assert(item::views(blocks@) =~= after);
                    assert forall|name: Seq<char>|
                        #![trigger by_name@.contains_key(name)]
                        #![trigger last_top(head@, name, i + 1)]
                        match last_top(head@, name, i + 1) {
                            None => !by_name@.contains_key(name),
                            Some(to) => by_name@.contains_key(name) && by_name@[name] < headers(
                                head@,
                                i + 1,
                            ).len() && headers(head@, i + 1)[by_name@[name] as int] == to,
                        } by {
                        assert(last_top(head@, name, i + 1) == last_top(head@, name, i as int));
                    }
                }
            },
            None => {
                let at: usize = blocks.len();
                let ghost named = by_name@;
                if item.parent.is_none() {
                    by_name.insert(item.id.name.clone(), at);
                }
                proof {
                    item::lemma_views_push(blocks@, view);
                    lemma_no_members_yet(base@, head@, i as int, i + 1);
                }
                blocks.push(view);
                proof {
                    assert(owner(head@, i as int) is None);
                    assert(headers(head@, i + 1) == starts.push(i as int));
                    let after = partial_blocks(base@, head@, i + 1, 0);
                    assert forall|b: int| 0 <= b < after.len() implies item::views(blocks@)[b]
                        == #[trigger] after[b] by {
                        if b < starts.len() {
                            assert(starts[b] == headers(head@, i + 1)[b]);
                            assert(after[b] == before[b]);
                        } else {
                            assert(after[b].members =~= seq![]);
                        }
                    }
                    assert(item::views(blocks@) =~= after);
                    assert forall|name: Seq<char>|
                        #![trigger by_name@.contains_key(name)]
                        #![trigger last_top(head@, name, i + 1)]
                        match last_top(head@, name, i + 1) {
                            None => !by_name@.contains_key(name),
                            Some(to) => by_name@.contains_key(name) && by_name@[name] < headers(
                                head@,
                                i + 1,
                            ).len() && headers(head@, i + 1)[by_name@[name] as int] == to,
                        } by {
                        assert(named.contains_key(name) == (last_top(head@, name, i as int)
                            is Some));
                    }
                }
            },
        }
        i = i + 1;
    }
    (blocks, by_name)
}

/// The names of the base's top-level items that are gone from the head.
fn removed_names(base: &Surface, head: &Surface) -> (names: StringHashSet)
    ensures
        forall|name: Seq<char>| #[trigger]
            names@.contains(name) == removed_composite(base@, head@, name),
{
    let mut names = StringHashSet::new();
    let items = base.iter();
    let mut i: usize = 0;
    while i < items.len()
        invariant
            i <= items@.len(),
            item::views(items@) == base@,
            forall|name: Seq<char>| #[trigger]
                names@.contains(name) <==> exists|j: int|
                    0 <= j < i && #[trigger] top_level(base@[j]) && removed(base@, head@, j)
                        && base@[j].id.name == name,
        decreases items.len() - i,
    {
        let ghost before = names@;
        let item = &items[i];
        proof {
            assert(base@[i as int] == item@);
            surface::lemma_by_id(head@, item@.id);
            assert(top_level(base@[i as int]) == (item@.parent is None));
        }
        if item.parent.is_none() && head.by_id(&item.id).is_none() {
            names.insert(item.id.name.clone());
        }
        proof {
            assert forall|name: Seq<char>| #[trigger]
                names@.contains(name) <==> exists|j: int|
                    0 <= j < i + 1 && #[trigger] top_level(base@[j]) && removed(base@, head@, j)
                        && base@[j].id.name == name by {
                if names@.contains(name) && !before.contains(name) {
                    assert(top_level(base@[i as int]));
                }
                if before.contains(name) {
                    let j = choose|j: int|
                        0 <= j < i && #[trigger] top_level(base@[j]) && removed(base@, head@, j)
                            && base@[j].id.name == name;
                    assert(top_level(base@[j]));
                }
            }
        }
        i = i + 1;
    }
    names
}

/// The changes that turn `base` into `head`, grouped into blocks.
pub fn diff(base: &Surface, head: &Surface) -> (changes: ChangeSet)
    ensures
        changes@ == diff_blocks(base@, head@),
{
    let (mut blocks, by_name) = group_head(base, head);
    let gone = removed_names(base, head);
    let mut tail: Vec<ItemView> = Vec::new();
    let items = base.iter();
    let ghost n = head@.len() as int;
    let ghost starts = headers(head@, n);
    let mut i: usize = 0;
    assert(item::views(tail@) =~= removals(base@, head@, Place::Tail, 0));
    while i < items.len()
        invariant
            i <= items@.len(),
            item::views(items@) == base@,
            n == head@.len(),
            starts == headers(head@, n),
            leads(by_name@, head@, n),
            forall|name: Seq<char>| #[trigger]
                gone@.contains(name) == removed_composite(base@, head@, name),
            item::views(blocks@) == partial_blocks(base@, head@, n, i as int),
            item::views(tail@) == removals(base@, head@, Place::Tail, i as int),
        decreases items.len() - i,
    {
        let item = &items[i];
        let ghost before = partial_blocks(base@, head@, n, i as int);
        let ghost after = partial_blocks(base@, head@, n, i + 1);
        proof {
            assert(base@[i as int] == item@);
            surface::lemma_by_id(head@, item@.id);
            lemma_headers(head@, n);
            assert(item::views(blocks@).len() == starts.len());
        }
        if head.by_id(&item.id).is_none() {
            let view = ItemView::leaf(ItemStatus::Removed, item.clone());
            let mut at: Option<usize> = None;
            let mut folds = false;
            if let Some(parent) = &item.parent {
                if gone.contains(parent.as_str()) {
                    folds = true;
                } else {
                    at = match by_name.get(parent.as_str()) {
                        None => None,
                        Some(b) => Some(*b),
                    };
                    assert(last_top(head@, parent@, n) is Some <==> by_name@.contains_key(parent@));
                }
            }
            if !folds {
                match at {
                    Some(b) => {
                        assert(place(base@, head@, i as int) == Place::Member(starts[b as int]));
                        push_member(&mut blocks, b, view);
                        proof {
                            assert forall|c: int| 0 <= c < after.len() implies item::views(
                                blocks@,
                            )[c] == #[trigger] after[c] by {
                                if c == b {
                                    assert(after[c].members =~= before[c].members.push(view@));
                                } else {
                                    assert(starts[c] != starts[b as int]);
                                    assert(after[c] == before[c]);
                                }
                            }
                            assert(item::views(blocks@) =~= after);
                        }
                    },
                    None => {
                        assert(place(base@, head@, i as int) == Place::Tail);
                        proof {
                            item::lemma_views_push(tail@, view);
                        }
                        tail.push(view);
                        assert(before =~= after);
                    },
                }
            } else {
                assert(place(base@, head@, i as int) == Place::Folded);
                assert(before =~= after);
            }
        } else {
            assert(before =~= after);
        }
        i = i + 1;
    }
    let ghost heads = item::views(blocks@);
    let ghost tails = item::views(tail@);
    blocks.append(&mut tail);
    assert(item::views(blocks@) =~= heads + tails);
    assert(item::views(blocks@) =~= all_blocks(base@, head@));
    ChangeSet { blocks: keep_changed(blocks) }
}

/// Drops the blocks in which nothing changed.
fn keep_changed(blocks: Vec<ItemView>) -> (kept: Vec<ItemView>)
    ensures
        item::views(kept@) == item::views(blocks@).filter(|view: ViewModel| view_changed(view)),
{
    let ghost all = item::views(blocks@);
    let ghost changed = |view: ViewModel| view_changed(view);
    let mut kept: Vec<ItemView> = Vec::new();
    let mut i: usize = 0;
    proof {
        reveal(Seq::filter);
        assert(item::views(kept@) =~= all.take(0).filter(changed));
    }
    while i < blocks.len()
        invariant
            i <= blocks@.len(),
            all == item::views(blocks@),
            changed == (|view: ViewModel| view_changed(view)),
            item::views(kept@) == all.take(i as int).filter(changed),
        decreases blocks.len() - i,
    {
        proof {
            reveal(Seq::filter);
            assert(all.take(i + 1).drop_last() =~= all.take(i as int));
            assert(all.take(i + 1).last() == blocks@[i as int]@);
        }
        if blocks[i].is_changed() {
            let copied = blocks[i].clone();
            proof {
                item::lemma_views_push(kept@, copied);
            }
            kept.push(copied);
        }
        i = i + 1;
    }
    assert(all.take(all.len() as int) =~= all);
    kept
}

} // verus!
