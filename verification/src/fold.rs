//! The consumer side of the fork-join contract.
//!
//! A [`Folder`] is a consumer's accumulator: a producer leaf pushes elements
//! into it one at a time and stops the moment it reports saturation. Its
//! saturation rule is a function of the items consumed so far and does not
//! change as items are consumed, so [`yielded_count`] pins down exactly how
//! many elements of a run a folder accepts before it saturates, whatever the
//! folder is.

use vstd::prelude::*;

verus! {

/// A consumer's accumulator, filled one element at a time until it saturates.
///
/// `full_of` is the folder's saturation rule; it is required to be stable
/// under `consume`, so that how many elements a folder accepts depends only on
/// what it has already consumed.
pub trait Folder<T>: Sized {
    /// The items consumed so far, in the order they were consumed.
    spec fn acc(&self) -> Seq<T>;

    /// The saturation rule: whether the folder would be full once it holds
    /// `items`.
    spec fn full_of(&self, items: Seq<T>) -> bool;

    /// Consume one item.
    fn consume(self, item: T) -> (r: Self)
        ensures
            r.acc() == self.acc().push(item),
            forall|s: Seq<T>| r.full_of(s) == self.full_of(s),
    ;

    /// Report whether the folder is saturated.
    fn full(&self) -> (r: bool)
        ensures
            r == self.full_of(self.acc()),
    ;
}

/// How many of `elems`, fed in order to a folder with rule `f` that already
/// holds `acc`, are consumed before the folder saturates or the run is
/// exhausted. Saturation is checked before every element, so a folder that is
/// already full accepts nothing.
pub open spec fn yielded_count<T, F: Folder<T>>(f: F, acc: Seq<T>, elems: Seq<T>) -> nat
    decreases elems.len(),
{
    if f.full_of(acc) {
        0
    } else if elems.len() == 0 {
        0
    } else {
        1 + yielded_count(f, acc.push(elems[0]), elems.skip(1))
    }
}

/// A folder never accepts more elements than the run offers.
pub proof fn lemma_yielded_count_le<T, F: Folder<T>>(f: F, acc: Seq<T>, elems: Seq<T>)
    ensures
        yielded_count(f, acc, elems) <= elems.len(),
    decreases elems.len(),
{
    if !f.full_of(acc) && elems.len() > 0 {
        lemma_yielded_count_le(f, acc.push(elems[0]), elems.skip(1));
    }
}

/// When a folder stops short of the run's end, it stops because it is full:
/// the saturation rule holds of what it has consumed by then.
pub proof fn lemma_yielded_count_stops_full<T, F: Folder<T>>(f: F, acc: Seq<T>, elems: Seq<T>)
    requires
        yielded_count(f, acc, elems) < elems.len(),
    ensures
        f.full_of(acc + elems.take(yielded_count(f, acc, elems) as int)),
    decreases elems.len(),
{
    if f.full_of(acc) {
        assert(acc + elems.take(0) =~= acc);
    } else {
        let k1 = yielded_count(f, acc.push(elems[0]), elems.skip(1));
        lemma_yielded_count_stops_full(f, acc.push(elems[0]), elems.skip(1));
        assert(acc + elems.take(1 + k1 as int) =~= acc.push(elems[0]) + elems.skip(1).take(k1 as int));
    }
}

/// Feeding a concatenation equals feeding the left run, then feeding the
/// right run to the folder as the left run left it. This is what makes a
/// recursive split equivalent to one sequential pass.
pub proof fn lemma_yielded_count_concat<T, F: Folder<T>>(f: F, acc: Seq<T>, a: Seq<T>, b: Seq<T>)
    ensures
        yielded_count(f, acc, a + b) == yielded_count(f, acc, a) + yielded_count(
            f,
            acc + a.take(yielded_count(f, acc, a) as int),
            b,
        ),
    decreases a.len(),
{
    if f.full_of(acc) {
        assert(acc + a.take(0) =~= acc);
    } else if a.len() == 0 {
        assert(a + b =~= b);
        assert(acc + a.take(0) =~= acc);
    } else {
        let acc1 = acc.push(a[0]);
        assert((a + b)[0] == a[0]);
        assert((a + b).skip(1) =~= a.skip(1) + b);
        lemma_yielded_count_concat(f, acc1, a.skip(1), b);
        let k1 = yielded_count(f, acc1, a.skip(1));
        lemma_yielded_count_le(f, acc1, a.skip(1));
        assert(acc + a.take(1 + k1 as int) =~= acc1 + a.skip(1).take(k1 as int));
    }
}

/// Two folders with the same saturation rule accept the same number of
/// elements from the same state.
pub proof fn lemma_yielded_count_same_rule<T, F: Folder<T>>(
    f1: F,
    f2: F,
    acc: Seq<T>,
    elems: Seq<T>,
)
    requires
        forall|s: Seq<T>| f1.full_of(s) == f2.full_of(s),
    ensures
        yielded_count(f1, acc, elems) == yielded_count(f2, acc, elems),
    decreases elems.len(),
{
    if !f1.full_of(acc) && elems.len() > 0 {
        lemma_yielded_count_same_rule(f1, f2, acc.push(elems[0]), elems.skip(1));
    }
}

/// A folder that never saturates accepts the whole run.
pub proof fn lemma_yielded_count_unsaturated<T, F: Folder<T>>(f: F, acc: Seq<T>, elems: Seq<T>)
    requires
        forall|s: Seq<T>| !f.full_of(s),
    ensures
        yielded_count(f, acc, elems) == elems.len(),
    decreases elems.len(),
{
    if elems.len() > 0 {
        lemma_yielded_count_unsaturated(f, acc.push(elems[0]), elems.skip(1));
    }
}

/// A folder that collects the elements it consumes into a vector and
/// saturates once it holds `capacity` of them.
pub struct CollectFolder<T> {
    /// The elements collected so far.
    pub items: Vec<T>,
    /// The number of items at which the folder reports saturation.
    pub capacity: usize,
}

impl<T> CollectFolder<T> {
    /// An empty collector that saturates at `capacity` items.
    pub fn new(capacity: usize) -> (r: Self)
        ensures
            r.items@ == Seq::<T>::empty(),
            r.capacity == capacity,
    {
        CollectFolder { items: Vec::new(), capacity }
    }
}

impl<T> Folder<T> for CollectFolder<T> {
    open spec fn acc(&self) -> Seq<T> {
        self.items@
    }

    open spec fn full_of(&self, items: Seq<T>) -> bool {
        items.len() >= self.capacity
    }

    fn consume(self, item: T) -> (r: Self) {
        let mut r = self;
        r.items.push(item);
        r
    }

    fn full(&self) -> (r: bool) {
        self.items.len() >= self.capacity
    }
}

/// Law: early saturation is exact. A collector with `room` capacity left
/// accepts exactly `room` elements of a longer run, and a whole shorter run:
/// of `n` elements offered to a fresh collector saturating at `k`, exactly
/// `min(k, n)` are consumed.
pub proof fn lemma_collect_yielded_count<T>(f: CollectFolder<T>, acc: Seq<T>, elems: Seq<T>)
    ensures
        yielded_count(f, acc, elems) == ({
            let room = f.capacity - acc.len();
            if room <= 0 {
                0int
            } else if elems.len() <= room {
                elems.len() as int
            } else {
                room
            }
        }),
    decreases elems.len(),
{
    if !f.full_of(acc) && elems.len() > 0 {
        lemma_collect_yielded_count(f, acc.push(elems[0]), elems.skip(1));
    }
}

} // verus!
