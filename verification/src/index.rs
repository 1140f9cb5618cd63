//! A head-wide index of item definitions by name, for resolving type
//! references, and of the items that use each type.
//!
//! Resolution is by name: an exact match, with a fallback to the final
//! segment of a qualified name (`pkg.Client` → `Client`). Members attach to
//! their parent's entry across files, so an `impl` in another file lands on
//! the type it extends. Every definition of a colliding name is kept;
//! resolution prefers one in the referencing item's own file, then falls back
//! to the first seen.

use vstd::hash_map::StringHashMap;
use vstd::prelude::*;

use crate::changes::{self, ItemStatus, ItemView, StatusModel, ViewModel};
use crate::item::{self, Item};
use crate::surface::Surface;
use crate::text;

verus! {

/// Views grouped under names.
struct Table {
    slots: StringHashMap<usize>,
    groups: Vec<Vec<ItemView>>,
}

impl Table {
    /// Each name has a group of its own.
    spec fn wf(self) -> bool {
        &&& forall|name: Seq<char>| #[trigger]
            self.slots@.contains_key(name) ==> self.slots@[name] < self.groups@.len()
        &&& forall|a: Seq<char>, b: Seq<char>|
            self.slots@.contains_key(a) && self.slots@.contains_key(b)
                && #[trigger] self.slots@[a] == #[trigger] self.slots@[b] ==> a == b
    }

    spec fn view(self) -> Map<Seq<char>, Seq<ViewModel>> {
        Map::new(
            |name: Seq<char>| self.slots@.contains_key(name),
            |name: Seq<char>| item::views(self.groups@[self.slots@[name] as int]@),
        )
    }

    fn new() -> (table: Self)
        ensures
            table.wf(),
            table@ == Map::<Seq<char>, Seq<ViewModel>>::empty(),
    {
        let table = Table { slots: StringHashMap::new(), groups: Vec::new() };
        assert(table@ =~= Map::<Seq<char>, Seq<ViewModel>>::empty());
        table
    }

    /// The views under `name`.
    fn get(&self, name: &str) -> (group: Option<&Vec<ItemView>>)
        requires
            self.wf(),
        ensures
            match group {
                Some(views) => self@.contains_key(name@) && item::views(views@) == self@[name@],
                None => !self@.contains_key(name@),
            },
    {
        match self.slots.get(name) {
            Some(slot) => Some(&self.groups[*slot]),
            None => None,
        }
    }

    /// Adds a view under `name`.
    fn push(&mut self, name: &str, view: ItemView)
        requires
            old(self).wf(),
        ensures
            final(self).wf(),
            final(self)@ == old(self)@.insert(name@, grouped(old(self)@, name@).push(view@)),
    {
        let ghost before = self@;
        let slot: usize = match self.slots.get(name) {
            Some(slot) => *slot,
            None => {
                let slot: usize = self.groups.len();
                self.groups.push(Vec::new());
                self.slots.insert(name.to_owned(), slot);
                slot
            },
        };
        let ghost group = self.groups@[slot as int]@;
        proof {
            item::lemma_views_push(group, view);
            assert(item::views(group) =~= grouped(before, name@));
        }
        self.groups[slot].push(view);
        assert(self@ =~= before.insert(name@, grouped(before, name@).push(view@)));
    }

    /// Adds a member to the view at `at` under `name`.
    fn push_member(&mut self, name: &str, at: usize, member: ItemView)
        requires
            old(self).wf(),
            old(self)@.contains_key(name@),
            at < old(self)@[name@].len(),
        ensures
            final(self).wf(),
            final(self)@ == old(self)@.insert(
                name@,
                old(self)@[name@].update(
                    at as int,
                    (ViewModel {
                        members: old(self)@[name@][at as int].members.push(member@),
                        ..old(self)@[name@][at as int]
                    }),
                ),
            ),
    {
        let ghost before = *self;
        if let Some(found) = self.slots.get(name) {
            let slot: usize = *found;
            changes::push_member(&mut self.groups[slot], at, member);
        }
        assert(self@ =~= before@.insert(
            name@,
            before@[name@].update(
                at as int,
                (ViewModel {
                    members: before@[name@][at as int].members.push(member@),
                    ..before@[name@][at as int]
                }),
            ),
        ));
    }
}

/// The views under `name`, none if the name is not there.
pub open spec fn grouped(
    table: Map<Seq<char>, Seq<ViewModel>>,
    name: Seq<char>,
) -> Seq<ViewModel> {
    if table.contains_key(name) {
        table[name]
    } else {
        seq![]
    }
}

/// Whether `c` separates the segments of a qualified name.
pub open spec fn segment_mark(c: char) -> bool {
    c == '.' || c == ':'
}

/// The part of a qualified name after its last separator; a bare name
/// unchanged.
pub open spec fn last_segment(name: Seq<char>) -> Seq<char>
    decreases name.len(),
{
    if name.len() == 0 || segment_mark(name.last()) {
        seq![]
    } else {
        last_segment(name.drop_last()).push(name.last())
    }
}

/// `pkg.Client` → `Client`, `Foo::Bar` → `Bar`; a bare name unchanged.
pub fn final_segment(name: &str) -> (segment: String)
    ensures
        segment@ == last_segment(name@),
{
    let mut segment = String::new();
    for c in it: name.chars()
        invariant
            it.seq() == name@,
            segment@ == last_segment(name@.take(it.index() as int)),
    {
        proof {
            assert(name@.take(it.index() + 1).drop_last() =~= name@.take(it.index() as int));
            assert(name@.take(it.index() + 1).last() == c);
        }
        if c == '.' || c == ':' {
            segment = String::new();
            assert(segment@ =~= seq![]);
        } else {
            segment.push(c);
        }
    }
    assert(name@.take(name@.len() as int) =~= name@);
    segment
}

/// The items of all surfaces, surface after surface.
pub open spec fn all_items(surfaces: Seq<Seq<item::ItemModel>>) -> Seq<item::ItemModel>
    decreases surfaces.len(),
{
    if surfaces.len() == 0 {
        seq![]
    } else {
        all_items(surfaces.drop_last()) + surfaces.last()
    }
}

/// The row of an item in the index.
pub open spec fn entry(item: item::ItemModel) -> ViewModel {
    changes::leaf(StatusModel::Unchanged, item)
}

/// The rows of those of the first `n` items that are top-level and called
/// `name`.
pub open spec fn tops(all: Seq<item::ItemModel>, name: Seq<char>, n: int) -> Seq<ViewModel>
    decreases n,
{
    if n <= 0 {
        seq![]
    } else if changes::top_level(all[n - 1]) && all[n - 1].id.name == name {
        tops(all, name, n - 1).push(entry(all[n - 1]))
    } else {
        tops(all, name, n - 1)
    }
}

/// The first definition from `from` on that stands in the file `path`.
pub open spec fn local_at(defs: Seq<ViewModel>, path: Seq<char>, from: int) -> Option<int>
    decreases defs.len() - from,
{
    if from >= defs.len() {
        None
    } else if defs[from].item.id.path == path {
        Some(from)
    } else {
        local_at(defs, path, from + 1)
    }
}

/// The definition that the file `path` means: the first of its own, or the
/// first of all.
pub open spec fn preferred(defs: Seq<ViewModel>, path: Seq<char>) -> int {
    match local_at(defs, path, 0) {
        Some(at) => at,
        None => 0,
    }
}

/// The members that the first `n` items bring to definition `d` of `name`.
pub open spec fn attached(
    all: Seq<item::ItemModel>,
    name: Seq<char>,
    d: int,
    n: int,
) -> Seq<ViewModel>
    decreases n,
{
    if n <= 0 {
        seq![]
    } else if all[n - 1].parent == Some(name) && preferred(
        tops(all, name, all.len() as int),
        all[n - 1].id.path,
    ) == d {
        attached(all, name, d, n - 1).push(entry(all[n - 1]))
    } else {
        attached(all, name, d, n - 1)
    }
}

/// The definitions of `name`, each with the members that the first `n` items
/// bring to it.
pub open spec fn definitions_after(
    all: Seq<item::ItemModel>,
    name: Seq<char>,
    n: int,
) -> Seq<ViewModel> {
    let heads = tops(all, name, all.len() as int);
    Seq::new(
        heads.len(),
        |d: int| ViewModel { members: attached(all, name, d, n), ..heads[d] },
    )
}

/// The definitions of `name` with all their members.
pub open spec fn definitions(all: Seq<item::ItemModel>, name: Seq<char>) -> Seq<ViewModel> {
    definitions_after(all, name, all.len() as int)
}

/// One row per reference to `name` among the first `n` references of `item`.
pub open spec fn uses(item: item::ItemModel, name: Seq<char>, n: int) -> Seq<ViewModel>
    decreases n,
{
    if n <= 0 {
        seq![]
    } else if last_segment(item.refs[n - 1]) == name {
        uses(item, name, n - 1).push(entry(item))
    } else {
        uses(item, name, n - 1)
    }
}

/// The rows of those of the first `n` items that reference `name`.
pub open spec fn users_after(
    all: Seq<item::ItemModel>,
    name: Seq<char>,
    n: int,
) -> Seq<ViewModel>
    decreases n,
{
    if n <= 0 {
        seq![]
    } else {
        users_after(all, name, n - 1) + uses(all[n - 1], name, all[n - 1].refs.len() as int)
    }
}

/// The rows of every item that references `name`.
pub open spec fn users(all: Seq<item::ItemModel>, name: Seq<char>) -> Seq<ViewModel> {
    users_after(all, name, all.len() as int)
}

/// The mathematical model of a `TypeIndex`.
#[verifier::ext_equal]
pub struct IndexModel {
    pub definitions: Map<Seq<char>, Seq<ViewModel>>,
    pub users: Map<Seq<char>, Seq<ViewModel>>,
}

/// The index of a sequence of items.
pub open spec fn index_of(all: Seq<item::ItemModel>) -> IndexModel {
    IndexModel {
        definitions: Map::new(
            |name: Seq<char>| definitions(all, name).len() > 0,
            |name: Seq<char>| definitions(all, name),
        ),
        users: Map::new(
            |name: Seq<char>| users(all, name).len() > 0,
            |name: Seq<char>| users(all, name),
        ),
    }
}

/// The definitions a name may mean: those of the name itself, or else those
/// of its last segment.
pub open spec fn contenders(index: IndexModel, name: Seq<char>) -> Option<Seq<ViewModel>> {
    if index.definitions.contains_key(name) {
        Some(index.definitions[name])
    } else if last_segment(name) != name && index.definitions.contains_key(last_segment(name)) {
        Some(index.definitions[last_segment(name)])
    } else {
        None
    }
}

/// The mathematical model of a `Resolved`.
#[verifier::ext_equal]
pub struct ResolvedModel {
    pub def: ViewModel,
    pub candidates: nat,
}

/// What `name` means in the file `from`.
pub open spec fn resolve(
    index: IndexModel,
    name: Seq<char>,
    from: Seq<char>,
) -> Option<ResolvedModel> {
    match contenders(index, name) {
        Some(defs) => if defs.len() > 0 {
            Some(ResolvedModel { def: defs[preferred(defs, from)], candidates: defs.len() })
        } else {
            None
        },
        None => None,
    }
}

/// A resolved type reference: the definition chosen, and how contested its
/// name is. `candidates` of one means the name is unambiguous; anything
/// higher means resolution had to guess and frontends should say so.
#[derive(Debug)]
pub struct Resolved<'a> {
    pub def: &'a ItemView,
    pub candidates: usize,
}

impl<'a> View for Resolved<'a> {
    type V = ResolvedModel;

    open spec fn view(&self) -> ResolvedModel {
        ResolvedModel { def: self.def@, candidates: self.candidates as nat }
    }
}

/// The definitions of every name, and the items that use it.
pub struct TypeIndex {
    by_name: Table,
    /// The inverse edge: type name → every item whose signature references
    /// it. Keyed by the final segment of the reference as written, matching
    /// how `lookup` normalizes.
    by_use: Table,
}

impl View for TypeIndex {
    type V = IndexModel;

    closed spec fn view(&self) -> IndexModel {
        IndexModel { definitions: self.by_name@, users: self.by_use@ }
    }
}

/// The definition that a file means: its own if it has one, else the first.
fn local(defs: &Vec<ItemView>, path: &str) -> (at: usize)
    requires
        defs@.len() > 0,
    ensures
        at < defs@.len(),
        at == preferred(item::views(defs@), path@),
{
    let mut i: usize = 0;
    while i < defs.len()
        invariant
            i <= defs@.len(),
            local_at(item::views(defs@), path@, 0) == local_at(item::views(defs@), path@, i as int),
        decreases defs.len() - i,
    {
        proof {
            changes::lemma_model(defs@[i as int]);
            assert(item::views(defs@)[i as int] == defs@[i as int]@);
        }
        if text::same_text(defs[i].item.id.path.as_str(), path) {
            return i;
        }
        i = i + 1;
    }
    0
}

/// The preference depends on nothing but the files the definitions stand in.
pub proof fn lemma_local_at(a: Seq<ViewModel>, b: Seq<ViewModel>, path: Seq<char>, from: int)
    requires
        a.len() == b.len(),
        forall|d: int| 0 <= d < a.len() ==> (#[trigger] a[d]).item == b[d].item,
        0 <= from,
    ensures
        local_at(a, path, from) == local_at(b, path, from),
        local_at(a, path, from) is Some ==> from <= local_at(a, path, from)->0 < a.len(),
    decreases a.len() - from,
{
    if from < a.len() {
        lemma_local_at(a, b, path, from + 1);
    }
}

/// The items of all surfaces, in order.
fn gather<'a>(surfaces: &'a [Surface]) -> (all: Vec<&'a Item>)
    ensures
        item::views(all@) == all_items(item::views(surfaces@)),
{
    let mut all: Vec<&'a Item> = Vec::new();
    let mut s: usize = 0;
    assert(item::views(all@) =~= seq![]);
    while s < surfaces.len()
        invariant
            s <= surfaces@.len(),
            item::views(all@) == all_items(item::views(surfaces@).take(s as int)),
        decreases surfaces.len() - s,
    {
        let ghost before = all_items(item::views(surfaces@).take(s as int));
        let items = surfaces[s].iter();
        let mut i: usize = 0;
        assert(surfaces@[s as int]@.take(0) =~= seq![]);
        assert(before + surfaces@[s as int]@.take(0) =~= before);
        while i < items.len()
            invariant
                i <= items@.len(),
                s < surfaces@.len(),
                item::views(items@) == surfaces@[s as int]@,
                item::views(all@) == before + surfaces@[s as int]@.take(i as int),
            decreases items.len() - i,
        {
            let ghost had = all@;
            all.push(&items[i]);
            proof {
                item::lemma_views_push(had, &items@[i as int]);
                assert(item::views(all@) =~= before + surfaces@[s as int]@.take(i + 1));
            }
            i = i + 1;
        }
        s = s + 1;
        proof {
            let upto = item::views(surfaces@).take(s as int);
            assert(upto.drop_last() =~= item::views(surfaces@).take(s - 1));
            assert(surfaces@[s - 1]@.take(i as int) =~= surfaces@[s - 1]@);
        }
    }
    assert(item::views(surfaces@).take(s as int) =~= item::views(surfaces@));
    all
}

/// Lists each top-level item under its name.
fn list_definitions(all: &Vec<&Item>) -> (table: Table)
    ensures
        table.wf(),
        table@ == Map::new(
            |name: Seq<char>| tops(item::views(all@), name, all@.len() as int).len() > 0,
            |name: Seq<char>| tops(item::views(all@), name, all@.len() as int),
        ),
{
    let ghost items = item::views(all@);
    let mut table = Table::new();
    let mut i: usize = 0;
    assert(table@ =~= Map::new(
        |name: Seq<char>| tops(items, name, 0).len() > 0,
        |name: Seq<char>| tops(items, name, 0),
    ));
    while i < all.len()
        invariant
            i <= all@.len(),
            items == item::views(all@),
            table.wf(),
            table@ == Map::new(
                |name: Seq<char>| tops(items, name, i as int).len() > 0,
                |name: Seq<char>| tops(items, name, i as int),
            ),
        decreases all.len() - i,
    {
        let ghost before = table@;
        let item = all[i];
        assert(items[i as int] == item@);
        if item.parent.is_none() {
            table.push(
                item.id.name.as_str(),
                ItemView::leaf(ItemStatus::Unchanged, item.clone()),
            );
            proof {
                let own = item@.id.name;
                if !before.contains_key(own) {
                    assert(tops(items, own, i as int) =~= seq![]);
                }
                assert(grouped(before, own) == tops(items, own, i as int));
            }
        }
        i = i + 1;
        assert(table@ =~= Map::new(
            |name: Seq<char>| tops(items, name, i as int).len() > 0,
            |name: Seq<char>| tops(items, name, i as int),
        ));
    }
    table
}

/// Attaches each member to the definition of its parent that its file means.
fn attach_members(all: &Vec<&Item>, listed: Table) -> (table: Table)
    requires
        listed.wf(),
        listed@ == Map::new(
            |name: Seq<char>| tops(item::views(all@), name, all@.len() as int).len() > 0,
            |name: Seq<char>| tops(item::views(all@), name, all@.len() as int),
        ),
    ensures
        table.wf(),
        table@ == index_of(item::views(all@)).definitions,
{
    let ghost items = item::views(all@);
    let mut table = listed;
    let mut i: usize = 0;
    proof {
        assert forall|name: Seq<char>| #[trigger]
            definitions_after(items, name, 0) == tops(items, name, items.len() as int) by {
            lemma_tops_bare(items, name, items.len() as int);
            assert(definitions_after(items, name, 0) =~= tops(items, name, items.len() as int));
        }
        assert(table@ =~= Map::new(
            |name: Seq<char>| definitions_after(items, name, 0).len() > 0,
            |name: Seq<char>| definitions_after(items, name, 0),
        ));
    }
    while i < all.len()
        invariant
            i <= all@.len(),
            items == item::views(all@),
            table.wf(),
            table@ == Map::new(
                |name: Seq<char>| definitions_after(items, name, i as int).len() > 0,
                |name: Seq<char>| definitions_after(items, name, i as int),
            ),
        decreases all.len() - i,
    {
        let item = all[i];
        assert(items[i as int] == item@);
        proof {
            assert forall|name: Seq<char>| item@.parent != Some(name) implies #[trigger]
            definitions_after(items, name, i + 1) == definitions_after(items, name, i as int) by {
                assert(definitions_after(items, name, i + 1) =~= definitions_after(
                    items,
                    name,
                    i as int,
                ));
            }
        }
        if let Some(parent) = &item.parent {
            let ghost heads = tops(items, parent@, items.len() as int);
            let ghost now = definitions_after(items, parent@, i as int);
            let ghost after = definitions_after(items, parent@, i + 1);
            let at: Option<usize> = match table.get(parent.as_str()) {
                None => None,
                Some(defs) => Some(local(defs, item.id.path.as_str())),
            };
            match at {
                Some(d) => {
                    proof {
                        lemma_local_at(now, heads, item@.id.path, 0);
                    }
                    let member = ItemView::leaf(ItemStatus::Unchanged, item.clone());
                    table.push_member(parent.as_str(), d, member);
                    assert(table@[parent@] =~= after);
                },
                None => {
                    assert(now =~= after);
                },
            }
        }
        i = i + 1;
        assert(table@ =~= Map::new(
            |name: Seq<char>| definitions_after(items, name, i as int).len() > 0,
            |name: Seq<char>| definitions_after(items, name, i as int),
        ));
    }
    assert(table@ =~= index_of(items).definitions);
    table
}

/// Definitions start out without members.
proof fn lemma_tops_bare(all: Seq<item::ItemModel>, name: Seq<char>, n: int)
    ensures
        forall|d: int|
            0 <= d < tops(all, name, n).len() ==> (#[trigger] tops(all, name, n)[d]).members
                == Seq::<ViewModel>::empty(),
    decreases n,
{
    if n > 0 {
        lemma_tops_bare(all, name, n - 1);
        let before = tops(all, name, n - 1);
        assert forall|d: int| 0 <= d < tops(all, name, n).len() implies (
        #[trigger] tops(all, name, n)[d]).members == Seq::<ViewModel>::empty() by {
            if d < before.len() {
                assert(tops(all, name, n)[d] == before[d]);
            }
        }
    }
}

/// Lists each item under the names it references.
fn list_users(all: &Vec<&Item>) -> (table: Table)
    ensures
        table.wf(),
        table@ == index_of(item::views(all@)).users,
{
    let ghost items = item::views(all@);
    let mut table = Table::new();
    let mut i: usize = 0;
    assert(table@ =~= Map::new(
        |name: Seq<char>| users_after(items, name, 0).len() > 0,
        |name: Seq<char>| users_after(items, name, 0),
    ));
    while i < all.len()
        invariant
            i <= all@.len(),
            items == item::views(all@),
            table.wf(),
            table@ == Map::new(
                |name: Seq<char>| users_after(items, name, i as int).len() > 0,
                |name: Seq<char>| users_after(items, name, i as int),
            ),
        decreases all.len() - i,
    {
        let item = all[i];
        assert(items[i as int] == item@);
        let mut r: usize = 0;
        proof {
            assert forall|name: Seq<char>| #[trigger]
                users_after(items, name, i as int) == users_after(items, name, i as int) + uses(
                    item@,
                    name,
                    0,
                ) by {
                assert(users_after(items, name, i as int) =~= users_after(items, name, i as int)
                    + uses(item@, name, 0));
            }
            assert(table@ =~= Map::new(
                |name: Seq<char>|
                    (users_after(items, name, i as int) + uses(item@, name, 0)).len() > 0,
                |name: Seq<char>| users_after(items, name, i as int) + uses(item@, name, 0),
            ));
        }
        while r < item.refs.len()
            invariant
                r <= item.refs@.len(),
                table.wf(),
                table@ == Map::new(
                    |name: Seq<char>|
                        (users_after(items, name, i as int) + uses(item@, name, r as int)).len()
                            > 0,
                    |name: Seq<char>|
                        users_after(items, name, i as int) + uses(item@, name, r as int),
                ),
            decreases item.refs.len() - r,
        {
            let ghost before = table@;
            let name = final_segment(item.refs[r].0.as_str());
            assert(item@.refs[r as int] == item.refs@[r as int]@);
            let view = ItemView::leaf(ItemStatus::Unchanged, item.clone());
            table.push(name.as_str(), view);
            proof {
                let had = users_after(items, name@, i as int) + uses(item@, name@, r as int);
                if !before.contains_key(name@) {
                    assert(had =~= seq![]);
                }
                assert(grouped(before, name@) == had);
                assert(had.push(view@) =~= users_after(items, name@, i as int) + uses(
                    item@,
                    name@,
                    r + 1,
                ));
                assert(table@ =~= Map::new(
                    |name: Seq<char>|
                        (users_after(items, name, i as int) + uses(item@, name, r + 1)).len() > 0,
                    |name: Seq<char>| users_after(items, name, i as int) + uses(item@, name, r + 1),
                ));
            }
            r = r + 1;
        }
        i = i + 1;
        proof {
            assert(item@.refs.len() == r);
            assert(table@ =~= Map::new(
                |name: Seq<char>| users_after(items, name, i as int).len() > 0,
                |name: Seq<char>| users_after(items, name, i as int),
            ));
        }
    }
    assert(table@ =~= index_of(items).users);
    table
}

impl TypeIndex {
    #[verifier::type_invariant]
    spec fn wf(self) -> bool {
        self.by_name.wf() && self.by_use.wf()
    }

    /// Indexes the items of all surfaces.
    pub fn build(surfaces: &[Surface]) -> (index: Self)
        ensures
            index@ == index_of(all_items(item::views(surfaces@))),
    {
        let all = gather(surfaces);
        let by_name = attach_members(&all, list_definitions(&all));
        let by_use = list_users(&all);
        TypeIndex { by_name, by_use }
    }

    /// Every item whose signature references `name` — the reverse of
    /// `lookup`. Name-based, like everything at this tier: two types sharing
    /// a name share a user list.
    pub fn users_of(&self, name: &str) -> (rows: &[ItemView])
        ensures
            item::views(rows@) == grouped(self@.users, name@),
    {
        proof {
            use_type_invariant(self);
        }
        match self.by_use.get(name) {
            Some(rows) => rows.as_slice(),
            None => {
                let none: &[ItemView] = &[];
                assert(item::views(none@) =~= seq![]);
                none
            },
        }
    }

    /// Resolves `name` as seen from `from` (the referencing item's file): a
    /// definition in the same file wins over one elsewhere.
    pub fn lookup(&self, name: &str, from: &str) -> (resolved: Option<Resolved<'_>>)
        ensures
            match resolved {
                Some(found) => resolve(self@, name@, from@) == Some(found@),
                None => resolve(self@, name@, from@) is None,
            },
    {
        match self.candidates(name) {
            Some(defs) => if defs.len() > 0 {
                let at = local(defs, from);
                Some(Resolved { def: &defs[at], candidates: defs.len() })
            } else {
                None
            },
            None => None,
        }
    }

    /// The definitions `name` may mean.
    pub fn candidates(&self, name: &str) -> (defs: Option<&Vec<ItemView>>)
        ensures
            match defs {
                Some(found) => contenders(self@, name@) == Some(item::views(found@)),
                None => contenders(self@, name@) is None,
            },
    {
        proof {
            use_type_invariant(self);
        }
        match self.by_name.get(name) {
            Some(defs) => Some(defs),
            None => {
                let last = final_segment(name);
                if text::same_text(last.as_str(), name) {
                    None
                } else {
                    self.by_name.get(last.as_str())
                }
            },
        }
    }
}

impl Default for TypeIndex {
    fn default() -> (index: Self)
        ensures
            index@ == index_of(seq![]),
    {
        TypeIndex::build(&[])
    }
}

} // verus!
