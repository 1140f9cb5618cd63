//! What the index holds and what a name means: every definition with its
//! members, every use, and which definition a file means.

use vstd::prelude::*;

use crate::change_laws::row;
use crate::changes::{StatusModel, ViewModel};
use crate::index::{self, IndexModel};
use crate::item::ItemModel;
use crate::layout;

verus! {

/// The last segment of a name is what follows its last `.` or `:`, and the whole
/// name if it has none.
pub proof fn law_last_segments_follow_the_last_mark(name: Seq<char>) -> (qualifier: Seq<char>)
    ensures
        name == qualifier + index::last_segment(name),
        qualifier.len() == 0 || qualifier.last() == '.' || qualifier.last() == ':',
        forall|i: int|
            0 <= i < index::last_segment(name).len() ==> (#[trigger] index::last_segment(name)[i])
                != '.' && index::last_segment(name)[i] != ':',
    decreases name.len(),
{
    if name.len() == 0 {
        assert(name =~= Seq::<char>::empty() + index::last_segment(name));
        seq![]
    } else if index::segment_mark(name.last()) {
        assert(name =~= name + index::last_segment(name));
        name
    } else {
        let qualifier = law_last_segments_follow_the_last_mark(name.drop_last());
        let rest = index::last_segment(name.drop_last());
        assert(name =~= name.drop_last().push(name.last()));
        assert(name =~= qualifier + rest.push(name.last()));
        qualifier
    }
}

/// The index covers the items of all surfaces, one surface after the other.
pub proof fn law_all_surfaces_are_indexed(surfaces: Seq<Seq<ItemModel>>, n: int)
    requires
        0 <= n <= surfaces.len(),
    ensures
        layout::in_turn(index::all_items(surfaces.take(n)), |s: int| surfaces[s], n),
    decreases n,
{
    let piece = |s: int| surfaces[s];
    if n == 0 {
        layout::lemma_no_pieces(piece);
        assert(index::all_items(surfaces.take(0)) =~= seq![]);
    } else {
        law_all_surfaces_are_indexed(surfaces, n - 1);
        layout::lemma_one_more(index::all_items(surfaces.take(n - 1)), piece, n - 1);
        assert(surfaces.take(n).drop_last() =~= surfaces.take(n - 1));
        assert(surfaces.take(n).last() == surfaces[n - 1]);
    }
}

/// The definitions of a name are the items that stand on their own and are called
/// so, in order, each without regard to any change; each has as its members the
/// items that name it as their parent and whose file means it, in order.
pub proof fn law_definitions_are_those_of_the_name(all: Seq<ItemModel>, name: Seq<char>)
    ensures
        ({
            let heads = index::tops(all, name, all.len() as int);
            let defs = index::definitions(all, name);
            &&& layout::in_turn(
                heads,
                |i: int|
                    if all[i].parent is None && all[i].id.name == name {
                        row(StatusModel::Unchanged, all[i])
                    } else {
                        seq![]
                    },
                all.len() as int,
            )
            &&& defs.len() == heads.len()
            &&& forall|d: int|
                0 <= d < defs.len() ==> (#[trigger] defs[d]).item == heads[d].item && defs[d].status
                    == StatusModel::Unchanged
            &&& forall|d: int|
                0 <= d < defs.len() ==> layout::in_turn(
                    (#[trigger] defs[d]).members,
                    |i: int|
                        if all[i].parent == Some(name) && index::preferred(defs, all[i].id.path)
                            == d {
                            row(StatusModel::Unchanged, all[i])
                        } else {
                            seq![]
                        },
                    all.len() as int,
                )
        }),
{
    let n = all.len() as int;
    let heads = index::tops(all, name, n);
    let defs = index::definitions(all, name);
    lemma_tops(all, name, n);
    lemma_same_files(heads, defs, 0);
    assert forall|d: int| 0 <= d < defs.len() implies layout::in_turn(
        (#[trigger] defs[d]).members,
        |i: int|
            if all[i].parent == Some(name) && index::preferred(defs, all[i].id.path) == d {
                row(StatusModel::Unchanged, all[i])
            } else {
                seq![]
            },
        n,
    ) by {
        lemma_attached(all, name, d, defs, n);
    }
}

/// The first `n` items that are called so.
proof fn lemma_tops(all: Seq<ItemModel>, name: Seq<char>, n: int)
    requires
        0 <= n <= all.len(),
    ensures
        layout::in_turn(
            index::tops(all, name, n),
            |i: int|
                if all[i].parent is None && all[i].id.name == name {
                    row(StatusModel::Unchanged, all[i])
                } else {
                    seq![]
                },
            n,
        ),
        forall|d: int|
            0 <= d < index::tops(all, name, n).len() ==> (#[trigger] index::tops(all, name, n)[d])
                .status == StatusModel::Unchanged,
    decreases n,
{
    let piece = |i: int|
        if all[i].parent is None && all[i].id.name == name {
            row(StatusModel::Unchanged, all[i])
        } else {
            seq![]
        };
    if n == 0 {
        layout::lemma_no_pieces(piece);
    } else {
        lemma_tops(all, name, n - 1);
        let before = index::tops(all, name, n - 1);
        layout::lemma_one_more(before, piece, n - 1);
        assert(index::tops(all, name, n) =~= before + piece(n - 1));
    }
}

/// Definitions mean the same in a file, whatever members they have.
proof fn lemma_same_files(one: Seq<ViewModel>, other: Seq<ViewModel>, from: int)
    requires
        one.len() == other.len(),
        forall|d: int| 0 <= d < one.len() ==> (#[trigger] one[d]).item == other[d].item,
        0 <= from <= one.len(),
    ensures
        forall|path: Seq<char>| #[trigger]
            index::local_at(one, path, from) == index::local_at(other, path, from),
    decreases one.len() - from,
{
    if from < one.len() {
        lemma_same_files(one, other, from + 1);
        assert(one[from].item == other[from].item);
        assert forall|path: Seq<char>| #[trigger]
            index::local_at(one, path, from) == index::local_at(other, path, from) by {
            assert(index::local_at(one, path, from + 1) == index::local_at(other, path, from + 1));
        }
    }
}

/// The members that the first `n` items bring.
proof fn lemma_attached(
    all: Seq<ItemModel>,
    name: Seq<char>,
    d: int,
    defs: Seq<ViewModel>,
    n: int,
)
    requires
        0 <= n <= all.len(),
        forall|path: Seq<char>| #[trigger]
            index::local_at(index::tops(all, name, all.len() as int), path, 0) == index::local_at(
                defs,
                path,
                0,
            ),
    ensures
        layout::in_turn(
            index::attached(all, name, d, n),
            |i: int|
                if all[i].parent == Some(name) && index::preferred(defs, all[i].id.path) == d {
                    row(StatusModel::Unchanged, all[i])
                } else {
                    seq![]
                },
            n,
        ),
    decreases n,
{
    let piece = |i: int|
        if all[i].parent == Some(name) && index::preferred(defs, all[i].id.path) == d {
            row(StatusModel::Unchanged, all[i])
        } else {
            seq![]
        };
    if n == 0 {
        layout::lemma_no_pieces(piece);
    } else {
        lemma_attached(all, name, d, defs, n - 1);
        let before = index::attached(all, name, d, n - 1);
        layout::lemma_one_more(before, piece, n - 1);
        let path = all[n - 1].id.path;
        assert(index::local_at(index::tops(all, name, all.len() as int), path, 0)
            == index::local_at(defs, path, 0));
        assert(index::attached(all, name, d, n) =~= before + piece(n - 1));
    }
}

/// Of several definitions a file means the first that stands in it, and the first
/// of all if none does.
pub proof fn law_files_mean_their_own_first(defs: Seq<ViewModel>, path: Seq<char>, d: int)
    requires
        0 <= d < defs.len(),
    ensures
        defs[d].item.id.path == path && (forall|k: int|
            0 <= k < d ==> (#[trigger] defs[k]).item.id.path != path) ==> index::preferred(
            defs,
            path,
        ) == d,
        (forall|k: int| 0 <= k < defs.len() ==> (#[trigger] defs[k]).item.id.path != path)
            ==> index::preferred(defs, path) == 0,
{
    lemma_local(defs, path, 0);
    if let Some(at) = index::local_at(defs, path, 0) {
        assert(defs[at].item.id.path == path);
    } else {
        assert(defs[d].item.id.path != path);
    }
}

/// The first definition from `from` on that stands in a file.
proof fn lemma_local(defs: Seq<ViewModel>, path: Seq<char>, from: int)
    requires
        0 <= from <= defs.len(),
    ensures
        match index::local_at(defs, path, from) {
            Some(at) => from <= at < defs.len() && defs[at].item.id.path == path && forall|k: int|
                from <= k < at ==> (#[trigger] defs[k]).item.id.path != path,
            None => forall|k: int|
                from <= k < defs.len() ==> (#[trigger] defs[k]).item.id.path != path,
        },
    decreases defs.len() - from,
{
    if from < defs.len() {
        lemma_local(defs, path, from + 1);
    }
}

/// The users of a name are the items that reference it, in order, once per
/// reference whose last segment it is.
pub proof fn law_users_come_in_order(all: Seq<ItemModel>, name: Seq<char>)
    ensures
        layout::in_turn(
            index::users(all, name),
            |i: int| index::uses(all[i], name, all[i].refs.len() as int),
            all.len() as int,
        ),
        forall|i: int|
            0 <= i < all.len() ==> layout::in_turn(
                index::uses(#[trigger] all[i], name, all[i].refs.len() as int),
                |r: int|
                    if index::last_segment(all[i].refs[r]) == name {
                        row(StatusModel::Unchanged, all[i])
                    } else {
                        seq![]
                    },
                all[i].refs.len() as int,
            ),
{
    lemma_users(all, name, all.len() as int);
    assert forall|i: int| 0 <= i < all.len() implies layout::in_turn(
        index::uses(#[trigger] all[i], name, all[i].refs.len() as int),
        |r: int|
            if index::last_segment(all[i].refs[r]) == name {
                row(StatusModel::Unchanged, all[i])
            } else {
                seq![]
            },
        all[i].refs.len() as int,
    ) by {
        lemma_uses(all[i], name, all[i].refs.len() as int);
    }
}

/// The users among the first `n` items.
proof fn lemma_users(all: Seq<ItemModel>, name: Seq<char>, n: int)
    requires
        0 <= n <= all.len(),
    ensures
        layout::in_turn(
            index::users_after(all, name, n),
            |i: int| index::uses(all[i], name, all[i].refs.len() as int),
            n,
        ),
    decreases n,
{
    let piece = |i: int| index::uses(all[i], name, all[i].refs.len() as int);
    if n == 0 {
        layout::lemma_no_pieces(piece);
    } else {
        lemma_users(all, name, n - 1);
        layout::lemma_one_more(index::users_after(all, name, n - 1), piece, n - 1);
    }
}

/// The uses among the first `n` references of an item.
proof fn lemma_uses(item: ItemModel, name: Seq<char>, n: int)
    requires
        0 <= n <= item.refs.len(),
    ensures
        layout::in_turn(
            index::uses(item, name, n),
            |r: int|
                if index::last_segment(item.refs[r]) == name {
                    row(StatusModel::Unchanged, item)
                } else {
                    seq![]
                },
            n,
        ),
    decreases n,
{
    let piece = |r: int|
        if index::last_segment(item.refs[r]) == name {
            row(StatusModel::Unchanged, item)
        } else {
            seq![]
        };
    if n == 0 {
        layout::lemma_no_pieces(piece);
    } else {
        lemma_uses(item, name, n - 1);
        let before = index::uses(item, name, n - 1);
        layout::lemma_one_more(before, piece, n - 1);
        assert(index::uses(item, name, n) =~= before + piece(n - 1));
    }
}

/// The index lists each name's definitions and users under it, and nothing under
/// a name that has none.
pub proof fn law_names_lead_to_their_definitions(all: Seq<ItemModel>, name: Seq<char>)
    ensures
        ({
            let types = index::index_of(all);
            &&& index::grouped(types.definitions, name) == index::definitions(all, name)
            &&& index::grouped(types.users, name) == index::users(all, name)
            &&& types.definitions.contains_key(name) <==> index::definitions(all, name).len() > 0
            &&& types.users.contains_key(name) <==> index::users(all, name).len() > 0
        }),
{
    let types = index::index_of(all);
    if index::definitions(all, name).len() == 0 {
        assert(index::grouped(types.definitions, name) =~= index::definitions(all, name));
    }
    if index::users(all, name).len() == 0 {
        assert(index::grouped(types.users, name) =~= index::users(all, name));
    }
}

/// A name means one of its definitions, or of those of its last segment if it has
/// none of its own: the one that the file means. It tells how many there are.
/// Without a definition of either it means nothing.
pub proof fn law_names_mean_a_definition(types: IndexModel, name: Seq<char>, from: Seq<char>)
    requires
        forall|key: Seq<char>| #[trigger]
            types.definitions.contains_key(key) ==> types.definitions[key].len() > 0,
    ensures
        ({
            let last = index::last_segment(name);
            if types.definitions.contains_key(name) {
                chosen(types, name, from, types.definitions[name])
            } else if types.definitions.contains_key(last) {
                chosen(types, name, from, types.definitions[last])
            } else {
                index::resolve(types, name, from) is None
            }
        }),
{
}

/// Whether a name means one of the definitions, the one that the file means, and
/// tells how many there are.
pub open spec fn chosen(
    types: IndexModel,
    name: Seq<char>,
    from: Seq<char>,
    defs: Seq<ViewModel>,
) -> bool {
    index::resolve(types, name, from) matches Some(found) && found.candidates == defs.len()
        && found.def == defs[index::preferred(defs, from)]
}

} // verus!
