//! The structural API of one source file at one git ref.
//!
//! Insertion order is preserved so renderers can present items in source
//! order without re-sorting.

use vstd::prelude::*;

use crate::item::{self, Item, ItemId};

verus! {

/// The items of one file, in source order.
#[derive(Debug, PartialEq, Eq)]
pub struct Surface {
    items: Vec<Item>,
}

/// Whether `items[at]` is the last item of `items` identified by `id`.
pub open spec fn last_with_id(
    items: Seq<item::ItemModel>,
    id: item::IdModel,
    at: int,
) -> bool {
    &&& 0 <= at < items.len()
    &&& items[at].id == id
    &&& forall|later: int| at < later < items.len() ==> (#[trigger] items[later]).id != id
}

/// Whether some item of `items` is identified by `id`.
pub open spec fn has_id(items: Seq<item::ItemModel>, id: item::IdModel) -> bool {
    exists|at: int| 0 <= at < items.len() && (#[trigger] items[at]).id == id
}

/// The item identified by `id`: the last one, should several share the id.
pub open spec fn by_id(items: Seq<item::ItemModel>, id: item::IdModel) -> Option<item::ItemModel>
    decreases items.len(),
{
    if items.len() == 0 {
        None
    } else if items.last().id == id {
        Some(items.last())
    } else {
        by_id(items.drop_last(), id)
    }
}

impl View for Surface {
    type V = Seq<item::ItemModel>;

    closed spec fn view(&self) -> Seq<item::ItemModel> {
        item::views(self.items@)
    }
}

impl Surface {
    /// A surface without items.
    pub fn new() -> (surface: Self)
        ensures
            surface@ == Seq::<item::ItemModel>::empty(),
    {
        let surface = Surface { items: Vec::new() };
        assert(surface@ =~= Seq::<item::ItemModel>::empty());
        surface
    }

    /// Appends an item.
    pub fn push(&mut self, item: Item)
        ensures
            final(self)@ == old(self)@.push(item@),
    {
        proof {
            item::lemma_views_push(self.items@, item);
        }
        self.items.push(item);
    }

    /// The items in source order.
    pub fn iter(&self) -> (items: &Vec<Item>)
        ensures
            item::views(items@) == self@,
    {
        &self.items
    }

    /// The item identified by `id`; the last one, should several share it.
    pub fn by_id(&self, id: &ItemId) -> (found: Option<&Item>)
        ensures
            match found {
                Some(item) => by_id(self@, id@) == Some(item@),
                None => by_id(self@, id@) is None,
            },
    {
        let mut i: usize = self.items.len();
        assert(self@.take(i as int) =~= self@);
        while i > 0
            invariant
                i <= self.items@.len(),
                by_id(self@, id@) == by_id(self@.take(i as int), id@),
            decreases i,
        {
            let ghost prefix = self@.take(i as int);
            proof {
                assert(prefix.drop_last() =~= self@.take(i - 1));
                assert(prefix.last() == self.items@[i - 1]@);
            }
            if self.items[i - 1].id.same(id) {
                return Some(&self.items[i - 1]);
            }
            i = i - 1;
        }
        None
    }
}

impl Clone for Surface {
    fn clone(&self) -> (copy: Self)
        ensures
            copy@ == self@,
    {
        let mut out = Surface::new();
        let mut i: usize = 0;
        while i < self.items.len()
            invariant
                i <= self.items@.len(),
                out@ == self@.take(i as int),
            decreases self.items.len() - i,
        {
            out.push(self.items[i].clone());
            i = i + 1;
            assert(out@ =~= self@.take(i as int));
        }
        assert(self@.take(self.items@.len() as int) =~= self@);
        out
    }
}

impl Default for Surface {
    fn default() -> (surface: Self)
        ensures
            surface@ == Seq::<item::ItemModel>::empty(),
    {
        Surface::new()
    }
}

/// An item is found under an id exactly when one carries that id.
pub proof fn lemma_by_id(items: Seq<item::ItemModel>, id: item::IdModel)
    ensures
        by_id(items, id) is Some <==> has_id(items, id),
        by_id(items, id) is Some ==> exists|at: int|
            #[trigger] last_with_id(items, id, at) && by_id(items, id) == Some(items[at]),
    decreases items.len(),
{
    if items.len() > 0 {
        let rest = items.drop_last();
        if items.last().id == id {
            assert(items[items.len() - 1].id == id);
            assert(last_with_id(items, id, items.len() - 1));
        } else {
            lemma_by_id(rest, id);
            if by_id(rest, id) is Some {
                let at = choose|at: int|
                    #[trigger] last_with_id(rest, id, at) && by_id(rest, id) == Some(rest[at]);
                assert(items[at] == rest[at]);
                assert forall|later: int| at < later < items.len() implies (
                #[trigger] items[later]).id != id by {
                    if later < rest.len() {
                        assert(rest[later] == items[later]);
                    }
                }
                assert(last_with_id(items, id, at));
            } else {
                assert forall|at: int| 0 <= at < items.len() implies (#[trigger] items[at]).id
                    != id by {
                    if at < rest.len() {
                        assert(rest[at] == items[at]);
                    }
                }
            }
        }
    }
}

} // verus!
