//! The table handle and its parallel-iterator family.
//!
//! [`RawTable`] models an open-addressing table's bucket storage: a span of
//! bucket slots, each either empty or holding one element, owning both the
//! allocation (the span and its length) and the occupancy metadata. How keys
//! are hashed or probed into slots is the table implementation's own affair
//! and out of scope here; this module covers what iteration needs — reading
//! occupancy, clearing, and handing the storage to a producer.
//!
//! Three entry points mirror the three ways of walking the table in parallel:
//! [`RawTable::par_iter`] borrows (yields slot addresses), [`RawTable::into_par_iter`]
//! consumes the table storage with the iteration, and [`RawTable::par_drain`]
//! takes every element out while the table keeps its buckets for reuse.

use vstd::prelude::*;

use crate::buckets::lemma_occupied_all_none;
use crate::buckets::lemma_occupied_step;
use crate::buckets::occupied;
use crate::buckets::occupied_indices;
use crate::buckets::occupied_indices_from;
use crate::fold::Folder;
use crate::fold::yielded_count;
use crate::producer::ParDrainProducer;
use crate::producer::ParIterProducer;

verus! {

/// Bucket storage of an open-addressing table: a fixed span of slots, each
/// empty or occupied, owning its elements and its allocation.
pub struct RawTable<T> {
    /// The bucket slots, in address order.
    pub slots: Vec<Option<T>>,
}

impl<T> RawTable<T> {
    /// The elements the table holds, in address order.
    pub open spec fn elems(&self) -> Seq<T> {
        occupied(self.slots@)
    }

    /// The size of the allocation: how many bucket slots the table has.
    pub open spec fn num_buckets(&self) -> nat {
        self.slots@.len()
    }

    /// An empty table with `buckets` slots.
    #[verifier::loop_isolation(false)]
    pub fn new(buckets: usize) -> (r: Self)
        ensures
            r.num_buckets() == buckets,
            r.elems() == Seq::<T>::empty(),
            forall|k: int| 0 <= k < buckets ==> r.slots@[k] is None,
    {
        let mut slots: Vec<Option<T>> = Vec::new();
        let mut i: usize = 0;
        while i < buckets
            invariant
                i <= buckets,
                slots@.len() == i,
                forall|k: int| 0 <= k < i ==> slots@[k] is None,
            decreases buckets - i,
        {
            slots.push(None);
            i += 1;
        }
        proof {
            lemma_occupied_all_none(slots@);
        }
        RawTable { slots }
    }

    /// Store `value` in bucket `index`, displacing whatever the slot held.
    /// Which bucket a key probes to is the table implementation's policy, not
    /// modelled here; this records its outcome.
    pub fn put(&mut self, index: usize, value: T)
        requires
            index < old(self).num_buckets(),
        ensures
            final(self).slots@ == old(self).slots@.update(index as int, Some(value)),
    {
        self.slots[index] = Some(value);
    }

    /// How many slots are occupied.
    #[verifier::loop_isolation(false)]
    pub fn len(&self) -> (r: usize)
        ensures
            r == self.elems().len(),
    {
        let mut count: usize = 0;
        let mut i: usize = 0;
        while i < self.slots.len()
            invariant
                i <= self.slots@.len(),
                count == occupied(self.slots@.take(i as int)).len(),
                count <= i,
            decreases self.slots@.len() - i,
        {
            if self.slots[i].is_some() {
                count += 1;
            }
            i += 1;
            proof {
                lemma_occupied_step(self.slots@, i - 1);
            }
        }
        proof {
            assert(self.slots@.take(self.slots@.len() as int) =~= self.slots@);
        }
        count
    }

    /// Whether the table holds no element.
    pub fn is_empty(&self) -> (r: bool)
        ensures
            r == (self.elems().len() == 0),
    {
        self.len() == 0
    }

    /// Drop every element and mark every slot empty; the allocation is
    /// retained for reuse.
    #[verifier::loop_isolation(false)]
    pub fn clear(&mut self)
        ensures
            final(self).num_buckets() == old(self).num_buckets(),
            final(self).elems() == Seq::<T>::empty(),
            forall|k: int| 0 <= k < final(self).num_buckets() ==> final(self).slots@[k] is None,
    {
        let n: usize = self.slots.len();
        let mut i: usize = 0;
        while i < n
            invariant
                i <= n,
                self.slots@.len() == n,
                forall|k: int| 0 <= k < i ==> self.slots@[k] is None,
            decreases n - i,
        {
            self.slots[i] = None;
            i += 1;
        }
        proof {
            lemma_occupied_all_none(self.slots@);
        }
    }

    /// A borrowing parallel iterator: the addresses of every occupied bucket,
    /// in ascending order. The table keeps all its elements.
    #[verifier::loop_isolation(false)]
    pub fn par_iter(&self) -> (r: RawParIter)
        ensures
            r.addrs() == occupied_indices(self.slots@),
    {
        let ghost slots = self.slots@;
        let mut indices: Vec<usize> = Vec::new();
        let mut i: usize = 0;
        while i < self.slots.len()
            invariant
                i <= slots.len(),
                indices@ + occupied_indices_from(slots, i as int) == occupied_indices(slots),
            decreases slots.len() - i,
        {
            let ghost prefix = indices@;
            if self.slots[i].is_some() {
                indices.push(i);
                proof {
                    assert(occupied_indices_from(slots, i as int) == seq![i]
                        + occupied_indices_from(slots, i + 1));
                    assert(prefix.push(i) + occupied_indices_from(slots, i + 1) =~= prefix + (
                    seq![i] + occupied_indices_from(slots, i + 1)));
                }
            } else {
                proof {
                    assert(occupied_indices_from(slots, i as int) == occupied_indices_from(
                        slots,
                        i + 1,
                    ));
                }
            }
            i += 1;
        }
        proof {
            assert(occupied_indices_from(slots, slots.len() as int)
                =~= Seq::<usize>::empty());
            assert(indices@ + Seq::<usize>::empty() =~= indices@);
        }
        RawParIter { indices }
    }

    /// A consuming parallel iterator: takes the table — elements and
    /// allocation — with it. When the iteration and its producers are done,
    /// whatever was not yielded is dropped and the storage is released.
    pub fn into_par_iter(self) -> (r: RawIntoParIter<T>)
        ensures
            r.table == self,
    {
        RawIntoParIter { table: self }
    }

    /// A draining parallel iterator: takes every element out of the table at
    /// once, leaving the table empty with its allocation intact for reuse.
    /// The producer now owns the elements, so they are yielded or dropped
    /// exactly once even if it is never driven, or abandoned partway.
    #[verifier::loop_isolation(false)]
    pub fn par_drain(&mut self) -> (r: RawParDrain<T>)
        ensures
            r.elems() == old(self).elems(),
            final(self).num_buckets() == old(self).num_buckets(),
            final(self).elems() == Seq::<T>::empty(),
            forall|k: int| 0 <= k < final(self).num_buckets() ==> final(self).slots@[k] is None,
    {
        let mut taken: Vec<Option<T>> = Vec::new();
        core::mem::swap(&mut taken, &mut self.slots);
        let n: usize = taken.len();
        let mut i: usize = 0;
        while i < n
            invariant
                i <= n,
                self.slots@.len() == i,
                forall|k: int| 0 <= k < i ==> self.slots@[k] is None,
            decreases n - i,
        {
            self.slots.push(None);
            i += 1;
        }
        proof {
            lemma_occupied_all_none(self.slots@);
        }
        RawParDrain { slots: taken }
    }
}

/// Borrowing parallel iterator over a table: yields the address of every
/// occupied bucket in ascending order.
pub struct RawParIter {
    /// The addresses of the occupied buckets, ascending.
    pub indices: Vec<usize>,
}

impl RawParIter {
    /// The addresses this iterator will yield, in order.
    pub open spec fn addrs(&self) -> Seq<usize> {
        self.indices@
    }

    /// The producer handed to the scheduler; it yields the same addresses.
    pub fn into_producer(self) -> (r: ParIterProducer)
        ensures
            r.addrs() == self.addrs(),
    {
        ParIterProducer { indices: self.indices }
    }

    /// Drive the whole iterator as a single leaf (zero splits), folding every
    /// address into `folder` until it saturates.
    pub fn drive<F: Folder<usize>>(self, folder: F) -> (r: F)
        ensures
            r.acc() == folder.acc() + self.addrs().take(
                yielded_count(folder, folder.acc(), self.addrs()) as int,
            ),
            forall|s: Seq<usize>| r.full_of(s) == folder.full_of(s),
    {
        self.into_producer().fold_with(folder)
    }
}

/// Consuming parallel iterator: owns the table outright; its elements are
/// yielded or dropped exactly once and the storage is released when the last
/// producer made from it is done.
pub struct RawIntoParIter<T> {
    /// The owned table.
    pub table: RawTable<T>,
}

impl<T> RawIntoParIter<T> {
    /// The elements the iteration will yield, in address order.
    pub open spec fn elems(&self) -> Seq<T> {
        self.table.elems()
    }

    /// The producer handed to the scheduler: it takes the bucket storage with
    /// it, and releases it when dropped.
    pub fn into_producer(self) -> (r: ParDrainProducer<T>)
        ensures
            r.elems() == self.elems(),
    {
        ParDrainProducer { slots: self.table.slots }
    }

    /// Drive the whole iteration as a single leaf (zero splits), folding
    /// elements into `folder` until it saturates; the rest are dropped and
    /// the storage is released.
    pub fn drive<F: Folder<T>>(self, folder: F) -> (r: F)
        ensures
            r.acc() == folder.acc() + self.elems().take(
                yielded_count(folder, folder.acc(), self.elems()) as int,
            ),
            forall|s: Seq<T>| r.full_of(s) == folder.full_of(s),
    {
        self.into_producer().fold_with(folder)
    }
}

/// Draining parallel iterator: owns the elements taken out of a table whose
/// allocation stays behind. Dropping it without driving it drops every
/// element — the zero-use path still cleans up.
pub struct RawParDrain<T> {
    /// The slots taken out of the table, with their elements.
    pub slots: Vec<Option<T>>,
}

impl<T> RawParDrain<T> {
    /// The elements the drain will yield, in address order.
    pub open spec fn elems(&self) -> Seq<T> {
        occupied(self.slots@)
    }

    /// The producer handed to the scheduler.
    pub fn into_producer(self) -> (r: ParDrainProducer<T>)
        ensures
            r.elems() == self.elems(),
    {
        ParDrainProducer { slots: self.slots }
    }

    /// Drive the whole drain as a single leaf (zero splits), folding elements
    /// into `folder` until it saturates; the rest are dropped.
    pub fn drive<F: Folder<T>>(self, folder: F) -> (r: F)
        ensures
            r.acc() == folder.acc() + self.elems().take(
                yielded_count(folder, folder.acc(), self.elems()) as int,
            ),
            forall|s: Seq<T>| r.full_of(s) == folder.full_of(s),
    {
        self.into_producer().fold_with(folder)
    }
}

} // verus!
