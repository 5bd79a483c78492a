//! Mathematical model of a span of bucket slots.
//!
//! A span is a sequence of slots, each either occupied (`Some`) or empty
//! (`None`). The spec functions here extract, in address order, the elements a
//! span holds and the addresses of its occupied slots; the lemmas relate those
//! views across concatenation and stepwise traversal, which is how the
//! producers walk and split their spans.

use vstd::prelude::*;

verus! {

/// The elements held by a span of bucket slots, in address order.
pub open spec fn occupied<T>(slots: Seq<Option<T>>) -> Seq<T>
    decreases slots.len(),
{
    if slots.len() == 0 {
        Seq::empty()
    } else {
        match slots[0] {
            Some(v) => seq![v] + occupied(slots.skip(1)),
            None => occupied(slots.skip(1)),
        }
    }
}

/// The addresses of the occupied slots at or after position `i`, ascending.
pub open spec fn occupied_indices_from<T>(slots: Seq<Option<T>>, i: int) -> Seq<usize>
    decreases slots.len() - i,
    when 0 <= i
{
    if i >= slots.len() {
        Seq::empty()
    } else if slots[i] is Some {
        seq![i as usize] + occupied_indices_from(slots, i + 1)
    } else {
        occupied_indices_from(slots, i + 1)
    }
}

/// The addresses of all occupied slots of a span, ascending.
pub open spec fn occupied_indices<T>(slots: Seq<Option<T>>) -> Seq<usize> {
    occupied_indices_from(slots, 0)
}

/// Splitting a span splits its contents: the elements of a concatenation are
/// the elements of the left part followed by the elements of the right part.
pub proof fn lemma_occupied_concat<T>(a: Seq<Option<T>>, b: Seq<Option<T>>)
    ensures
        occupied(a + b) == occupied(a) + occupied(b),
    decreases a.len(),
{
    if a.len() == 0 {
        assert(a + b =~= b);
        assert(occupied(a) + occupied(b) =~= occupied(b));
    } else {
        lemma_occupied_concat(a.skip(1), b);
        assert((a + b).skip(1) =~= a.skip(1) + b);
        match a[0] {
            Some(v) => {
                assert((a + b)[0] == a[0]);
                assert(seq![v] + (occupied(a.skip(1)) + occupied(b)) =~= (seq![v] + occupied(
                    a.skip(1),
                )) + occupied(b));
            },
            None => {
                assert((a + b)[0] == a[0]);
            },
        }
    }
}

/// A span of one slot holds its element, or nothing.
pub proof fn lemma_occupied_single<T>(s: Option<T>)
    ensures
        occupied(seq![s]) == match s {
            Some(v) => seq![v],
            None => Seq::<T>::empty(),
        },
{
    assert(occupied(Seq::<Option<T>>::empty()) == Seq::<T>::empty());
    assert(seq![s].skip(1) =~= Seq::<Option<T>>::empty());
    assert(seq![s][0] == s);
    match s {
        Some(v) => {
            assert(occupied(seq![s]) =~= seq![v]);
        },
        None => {
        },
    }
}

/// Walking one slot forward: the elements of the first `i + 1` slots are those
/// of the first `i`, extended by the element of slot `i` when it is occupied.
pub proof fn lemma_occupied_step<T>(slots: Seq<Option<T>>, i: int)
    requires
        0 <= i < slots.len(),
    ensures
        occupied(slots.take(i + 1)) == match slots[i] {
            Some(v) => occupied(slots.take(i)).push(v),
            None => occupied(slots.take(i)),
        },
{
    assert(slots.take(i + 1) =~= slots.take(i) + seq![slots[i]]);
    lemma_occupied_concat(slots.take(i), seq![slots[i]]);
    lemma_occupied_single(slots[i]);
    match slots[i] {
        Some(v) => {
            assert(occupied(slots.take(i)) + seq![v] =~= occupied(slots.take(i)).push(v));
        },
        None => {
            assert(occupied(slots.take(i)) + Seq::<T>::empty() =~= occupied(slots.take(i)));
        },
    }
}

/// A span whose slots are all empty holds no elements.
pub proof fn lemma_occupied_all_none<T>(slots: Seq<Option<T>>)
    requires
        forall|k: int| 0 <= k < slots.len() ==> slots[k] is None,
    ensures
        occupied(slots) == Seq::<T>::empty(),
    decreases slots.len(),
{
    if slots.len() > 0 {
        lemma_occupied_all_none(slots.skip(1));
    }
}

/// The occupied addresses from position `i` are ascending, lie within the
/// span, point at occupied slots, and line up one for one with the elements of
/// the tail of the span: address number `j` holds element number `j`.
pub proof fn lemma_occupied_indices_from_props<T>(slots: Seq<Option<T>>, i: int)
    requires
        0 <= i <= slots.len(),
        slots.len() <= usize::MAX,
    ensures
        occupied_indices_from(slots, i).len() == occupied(slots.skip(i)).len(),
        forall|j: int|
            0 <= j < occupied_indices_from(slots, i).len() ==> i <= (
            #[trigger] occupied_indices_from(slots, i)[j]) < slots.len() && slots[occupied_indices_from(
                slots,
                i,
            )[j] as int] == Some(occupied(slots.skip(i))[j]),
        forall|j1: int, j2: int|
            0 <= j1 < j2 < occupied_indices_from(slots, i).len()
                ==> #[trigger] occupied_indices_from(slots, i)[j1]
                < #[trigger] occupied_indices_from(slots, i)[j2],
    decreases slots.len() - i,
{
    let r = occupied_indices_from(slots, i);
    let tail = occupied(slots.skip(i));
    if i < slots.len() {
        lemma_occupied_indices_from_props(slots, i + 1);
        assert(slots.skip(i)[0] == slots[i]);
        assert(slots.skip(i).skip(1) =~= slots.skip(i + 1));
        assert(slots.skip(i).len() == slots.len() - i);
        let rest = occupied_indices_from(slots, i + 1);
        let resttail = occupied(slots.skip(i + 1));
        match slots[i] {
            Some(v) => {
                assert(r == seq![i as usize] + rest);
                assert(tail == seq![v] + resttail);
                assert forall|j: int|
                    0 <= j < r.len() implies i <= (#[trigger] r[j]) < slots.len() && slots[r[j] as int]
                    == Some(tail[j]) by {
                    if j == 0 {
                        assert(r[0] == i as usize);
                        assert(tail[0] == v);
                    } else {
                        assert(r[j] == rest[j - 1]);
                        assert(tail[j] == resttail[j - 1]);
                    }
                }
                assert forall|j1: int, j2: int|
                    0 <= j1 < j2 < r.len() implies #[trigger] r[j1] < #[trigger] r[j2] by {
                    if j1 == 0 {
                        assert(r[j2] == rest[j2 - 1]);
                        assert(i + 1 <= rest[j2 - 1]);
                    } else {
                        assert(r[j1] == rest[j1 - 1]);
                        assert(r[j2] == rest[j2 - 1]);
                    }
                }
            },
            None => {
                assert(r == rest);
                assert(tail == resttail);
            },
        }
    } else {
        assert(slots.skip(i) =~= Seq::<Option<T>>::empty());
        assert(occupied(Seq::<Option<T>>::empty()) == Seq::<T>::empty());
    }
}

/// The full address list of a span: ascending, within bounds, and lined up
/// one for one with the span's elements — address number `j` holds element
/// number `j`. This is what makes the borrowing producer's addresses a
/// faithful view of the occupied buckets.
pub proof fn lemma_occupied_indices_props<T>(slots: Seq<Option<T>>)
    requires
        slots.len() <= usize::MAX,
    ensures
        occupied_indices(slots).len() == occupied(slots).len(),
        forall|j: int|
            0 <= j < occupied_indices(slots).len() ==> 0 <= (
            #[trigger] occupied_indices(slots)[j]) < slots.len() && slots[occupied_indices(
                slots,
            )[j] as int] == Some(occupied(slots)[j]),
        forall|j1: int, j2: int|
            0 <= j1 < j2 < occupied_indices(slots).len() ==> #[trigger] occupied_indices(
                slots,
            )[j1] < #[trigger] occupied_indices(slots)[j2],
{
    lemma_occupied_indices_from_props(slots, 0);
    assert(slots.skip(0) =~= slots);
}

} // verus!
