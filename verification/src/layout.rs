//! Sequences made of pieces that stand one after the other.

use vstd::prelude::*;

verus! {

/// Whether piece `i` stands between marks `i` and `i + 1`.
pub open spec fn stands<T>(
    whole: Seq<T>,
    piece: spec_fn(int) -> Seq<T>,
    marks: Seq<int>,
    i: int,
) -> bool {
    &&& 0 <= marks[i] <= marks[i + 1] <= whole.len()
    &&& whole.subrange(marks[i], marks[i + 1]) == piece(i)
}

/// Whether `marks` cut a sequence into its first `n` pieces: the first starts
/// where the sequence does, each of the others where the one before it ends,
/// and the last ends where the sequence does.
pub open spec fn cuts<T>(
    whole: Seq<T>,
    piece: spec_fn(int) -> Seq<T>,
    n: int,
    marks: Seq<int>,
) -> bool {
    &&& marks.len() == n + 1
    &&& marks[0] == 0
    &&& marks[n] == whole.len()
    &&& forall|i: int| 0 <= i < n ==> #[trigger] stands(whole, piece, marks, i)
}

/// Whether a sequence is `n` pieces, one after the other and nothing else.
pub open spec fn in_turn<T>(whole: Seq<T>, piece: spec_fn(int) -> Seq<T>, n: int) -> bool {
    exists|marks: Seq<int>| cuts(whole, piece, n, marks)
}

/// No pieces make up the empty sequence.
pub proof fn lemma_no_pieces<T>(piece: spec_fn(int) -> Seq<T>)
    ensures
        in_turn(Seq::<T>::empty(), piece, 0),
{
    assert(cuts(Seq::<T>::empty(), piece, 0, seq![0int]));
}

/// One more piece comes after the others.
pub proof fn lemma_one_more<T>(whole: Seq<T>, piece: spec_fn(int) -> Seq<T>, n: int)
    requires
        0 <= n,
        in_turn(whole, piece, n),
    ensures
        in_turn(whole + piece(n), piece, n + 1),
{
    let marks = choose|marks: Seq<int>| cuts(whole, piece, n, marks);
    let longer = whole + piece(n);
    let more = marks.push(longer.len() as int);
    assert forall|i: int| 0 <= i < n + 1 implies #[trigger] stands(longer, piece, more, i) by {
        if i < n {
            assert(stands(whole, piece, marks, i));
            assert(longer.subrange(more[i], more[i + 1]) =~= whole.subrange(
                marks[i],
                marks[i + 1],
            ));
        } else {
            assert(longer.subrange(more[i], more[i + 1]) =~= piece(n));
        }
    }
    assert(more[0] == marks[0]);
    assert(more[n + 1] == longer.len());
    assert(cuts(longer, piece, n + 1, more));
}

} // verus!
