//! Tuple fields are keyed by their position among the fields.

use vstd::prelude::*;

use crate::item::Kind;
use crate::producer::rust;
use crate::producer::syntax::ChildModel;
use crate::text;

verus! {

/// How many of the first `n` children of a list are fields.
pub open spec fn field_count(children: Seq<ChildModel>, n: int) -> nat
    decreases n,
{
    if n <= 0 {
        0
    } else if rust::is_tuple_field(children[n - 1]) {
        field_count(children, n - 1) + 1
    } else {
        field_count(children, n - 1)
    }
}

/// A tuple struct gives one item per field and no other, whatever attributes,
/// visibilities and comments stand among them, each keyed by its position:
/// `Struct::0`, `Struct::1`, …
pub proof fn law_tuple_fields_key_positionally(
    children: Seq<ChildModel>,
    source: Seq<char>,
    path: Seq<char>,
    parent: Seq<char>,
    n: int,
)
    ensures
        ({
            let items = rust::tuple_upto(children, source, path, parent, n);
            &&& items.len() == field_count(children, n)
            &&& forall|k: int|
                0 <= k < items.len() ==> (#[trigger] items[k]).id.kind == Kind::Field
                    && items[k].id.name == rust::scoped(parent, text::decimal(k as nat))
                    && items[k].parent == Some(parent)
        }),
    decreases n,
{
    if n > 0 {
        law_tuple_fields_key_positionally(children, source, path, parent, n - 1);
        let before = rust::tuple_upto(children, source, path, parent, n - 1);
        let items = rust::tuple_upto(children, source, path, parent, n);
        assert forall|k: int| 0 <= k < items.len() implies (#[trigger] items[k]).id.kind
            == Kind::Field && items[k].id.name == rust::scoped(parent, text::decimal(k as nat))
            && items[k].parent == Some(parent) by {
            if k < before.len() {
                assert(items[k] == before[k]);
            }
        }
    }
}

} // verus!
