//! What the type index promises: definitions are found by name, the
//! referencing file's own definition wins, members land on a definition of
//! their parent, and usage inverts reference.

use vstd::prelude::*;

use crate::changes::{self, ViewModel};
use crate::index::{self, IndexModel};
use crate::item;

verus! {

/// Whether `item` references `name` by the last segment of one of its
/// references.
pub open spec fn references(item: item::ItemModel, name: Seq<char>) -> bool {
    exists|r: int|
        0 <= r < item.refs.len() && index::last_segment(#[trigger] item.refs[r]) == name
}

/// An item uses a name as soon as one of its references does.
proof fn lemma_uses(item: item::ItemModel, name: Seq<char>, n: int)
    requires
        0 <= n <= item.refs.len(),
    ensures
        index::uses(item, name, n).len() > 0 <==> exists|r: int|
            0 <= r < n && index::last_segment(#[trigger] item.refs[r]) == name,
        forall|u: int|
            0 <= u < index::uses(item, name, n).len() ==> #[trigger] index::uses(item, name, n)[u]
                == index::entry(item),
    decreases n,
{
    if n > 0 {
        lemma_uses(item, name, n - 1);
        let before = index::uses(item, name, n - 1);
        if index::last_segment(item.refs[n - 1]) == name {
            assert(index::last_segment(item.refs[n - 1]) == name);
        }
        assert forall|u: int| 0 <= u < index::uses(item, name, n).len() implies #[trigger]
        index::uses(item, name, n)[u] == index::entry(item) by {
            if u < before.len() {
                assert(index::uses(item, name, n)[u] == before[u]);
            }
        }
    }
}

/// Usage among the first `n` items inverts reference.
proof fn lemma_users(all: Seq<item::ItemModel>, name: Seq<char>, n: int, row: ViewModel)
    requires
        0 <= n <= all.len(),
    ensures
        index::users_after(all, name, n).contains(row) <==> exists|i: int|
            0 <= i < n && references(#[trigger] all[i], name) && row == index::entry(all[i]),
    decreases n,
{
    if n > 0 {
        lemma_users(all, name, n - 1, row);
        let item = all[n - 1];
        let before = index::users_after(all, name, n - 1);
        let here = index::uses(item, name, item.refs.len() as int);
        let now = index::users_after(all, name, n);
        lemma_uses(item, name, item.refs.len() as int);
        if now.contains(row) {
            let k = choose|k: int| 0 <= k < now.len() && now[k] == row;
            if k < before.len() {
                assert(before[k] == row);
                assert(before.contains(row));
            } else {
                assert(here[k - before.len()] == row);
                assert(references(all[n - 1], name));
            }
        }
        if exists|i: int|
            0 <= i < n && references(#[trigger] all[i], name) && row == index::entry(all[i]) {
            let i = choose|i: int|
                0 <= i < n && references(#[trigger] all[i], name) && row == index::entry(all[i]);
            if i < n - 1 {
                assert(before.contains(row));
                let k = choose|k: int| 0 <= k < before.len() && before[k] == row;
                assert(now[k] == row);
            } else {
                assert(now[before.len() as int] == here[0]);
            }
        }
    }
}

/// The users of a name are exactly the items that reference it.
pub proof fn law_users_invert_references(
    all: Seq<item::ItemModel>,
    name: Seq<char>,
    row: ViewModel,
)
    ensures
        index::grouped(index::index_of(all).users, name).contains(row) <==> exists|i: int|
            0 <= i < all.len() && references(#[trigger] all[i], name) && row == index::entry(
                all[i],
            ),
{
    lemma_users(all, name, all.len() as int, row);
}

/// A local definition found lies among the definitions and in the file.
proof fn lemma_local(defs: Seq<ViewModel>, path: Seq<char>, from: int)
    requires
        0 <= from,
    ensures
        match index::local_at(defs, path, from) {
            Some(at) => from <= at < defs.len() && defs[at].item.id.path == path,
            None => forall|d: int|
                from <= d < defs.len() ==> (#[trigger] defs[d]).item.id.path != path,
        },
    decreases defs.len() - from,
{
    if from < defs.len() {
        lemma_local(defs, path, from + 1);
    }
}

/// A reference that may mean a definition of its own file means one of those;
/// `candidates` counts all that it may mean.
pub proof fn law_own_file_wins(types: IndexModel, name: Seq<char>, from: Seq<char>, d: int)
    requires
        index::contenders(types, name) is Some,
        0 <= d < index::contenders(types, name)->0.len(),
        index::contenders(types, name)->0[d].item.id.path == from,
    ensures
        index::resolve(types, name, from) matches Some(found) && found.def.item.id.path == from
            && found.candidates == index::contenders(types, name)->0.len()
            && index::contenders(types, name)->0.contains(found.def),
{
    lemma_local(index::contenders(types, name)->0, from, 0);
}

/// A top-level item is listed under its name.
proof fn lemma_listed(all: Seq<item::ItemModel>, i: int, n: int)
    requires
        0 <= i < n <= all.len(),
        changes::top_level(all[i]),
    ensures
        exists|d: int|
            0 <= d < index::tops(all, all[i].id.name, n).len() && (#[trigger] index::tops(
                all,
                all[i].id.name,
                n,
            )[d]).item == all[i],
    decreases n,
{
    let name = all[i].id.name;
    let before = index::tops(all, name, n - 1);
    if i < n - 1 {
        lemma_listed(all, i, n - 1);
        let d = choose|d: int| 0 <= d < before.len() && (#[trigger] before[d]).item == all[i];
        assert(index::tops(all, name, n)[d].item == all[i]);
    } else {
        assert(index::tops(all, name, n)[before.len() as int].item == all[i]);
    }
}

/// Every top-level item is among the definitions of its name, and a reference
/// to that name resolves, from anywhere.
pub proof fn law_definitions_are_found(all: Seq<item::ItemModel>, i: int, from: Seq<char>)
    requires
        0 <= i < all.len(),
        changes::top_level(all[i]),
    ensures
        exists|d: int|
            0 <= d < index::definitions(all, all[i].id.name).len() && (
            #[trigger] index::definitions(all, all[i].id.name)[d]).item == all[i],
        index::resolve(index::index_of(all), all[i].id.name, from) is Some,
{
    let name = all[i].id.name;
    lemma_listed(all, i, all.len() as int);
    let heads = index::tops(all, name, all.len() as int);
    let d = choose|d: int| 0 <= d < heads.len() && (#[trigger] heads[d]).item == all[i];
    assert(index::definitions(all, name)[d].item == all[i]);
}

/// A member among the first `n` items is attached to the definition that its
/// file means.
proof fn lemma_attached(all: Seq<item::ItemModel>, name: Seq<char>, d: int, i: int, n: int)
    requires
        0 <= i < n <= all.len(),
        all[i].parent == Some(name),
        d == index::preferred(index::tops(all, name, all.len() as int), all[i].id.path),
    ensures
        index::attached(all, name, d, n).contains(index::entry(all[i])),
    decreases n,
{
    let before = index::attached(all, name, d, n - 1);
    let now = index::attached(all, name, d, n);
    if i < n - 1 {
        lemma_attached(all, name, d, i, n - 1);
        let k = choose|k: int| 0 <= k < before.len() && before[k] == index::entry(all[i]);
        assert(now[k] == index::entry(all[i]));
    } else {
        assert(now[before.len() as int] == index::entry(all[i]));
    }
}

/// A member whose parent is defined anywhere is attached to a definition of
/// its parent: the one in its own file if there is one.
pub proof fn law_members_attach(all: Seq<item::ItemModel>, i: int)
    requires
        0 <= i < all.len(),
        all[i].parent is Some,
        index::definitions(all, all[i].parent->0).len() > 0,
    ensures
        ({
            let defs = index::definitions(all, all[i].parent->0);
            let at = index::preferred(defs, all[i].id.path);
            0 <= at < defs.len() && defs[at].members.contains(index::entry(all[i]))
        }),
{
    let name = all[i].parent->0;
    let defs = index::definitions(all, name);
    let heads = index::tops(all, name, all.len() as int);
    index::lemma_local_at(defs, heads, all[i].id.path, 0);
    lemma_attached(all, name, index::preferred(heads, all[i].id.path), i, all.len() as int);
}

/// The last segment of a name is a bare name.
pub proof fn law_last_segment_is_bare(name: Seq<char>)
    ensures
        index::last_segment(index::last_segment(name)) == index::last_segment(name),
        forall|i: int|
            0 <= i < index::last_segment(name).len() ==> !index::segment_mark(
                #[trigger] index::last_segment(name)[i],
            ),
    decreases name.len(),
{
    if name.len() > 0 && !index::segment_mark(name.last()) {
        law_last_segment_is_bare(name.drop_last());
        let rest = index::last_segment(name.drop_last());
        let segment = index::last_segment(name);
        assert(segment.drop_last() =~= rest);
        assert forall|i: int| 0 <= i < segment.len() implies !index::segment_mark(
            #[trigger] segment[i],
        ) by {
            if i < rest.len() {
                assert(segment[i] == rest[i]);
            }
        }
    }
}

/// A qualified name whose full form is not defined means what its last
/// segment means.
pub proof fn law_qualified_names_fall_back(types: IndexModel, name: Seq<char>, from: Seq<char>)
    requires
        !types.definitions.contains_key(name),
    ensures
        index::resolve(types, name, from) == index::resolve(
            types,
            index::last_segment(name),
            from,
        ),
{
    law_last_segment_is_bare(name);
}

} // verus!
