//! The splittable producers of the fork-join model.
//!
//! A producer is a unit of work over a span of bucket slots. A work-stealing
//! scheduler may split it recursively into producers over disjoint halves of
//! the span, and folds each leaf into a consumer's accumulator until the
//! consumer saturates. [`ParDrainProducer`] owns its span outright, so
//! whatever it has not yielded when it is dropped — because the consumer
//! saturated early, or a branch was abandoned — is dropped with it: every
//! element is yielded or destroyed exactly once, however the run ends.

use vstd::prelude::*;

use crate::buckets::lemma_occupied_concat;
use crate::buckets::occupied;
use crate::fold::Folder;
use crate::fold::lemma_yielded_count_concat;
use crate::fold::lemma_yielded_count_le;
use crate::fold::lemma_yielded_count_same_rule;
use crate::fold::lemma_yielded_count_stops_full;
use crate::fold::yielded_count;

verus! {

/// A producer that owns a span of slots and yields, by value, the elements of
/// its occupied slots in address order.
pub struct ParDrainProducer<T> {
    /// The span of slots this producer owns; it still owns every element
    /// behind an occupied slot.
    pub slots: Vec<Option<T>>,
}

impl<T> ParDrainProducer<T> {
    /// The elements this producer has yet to yield, in address order.
    pub open spec fn elems(&self) -> Seq<T> {
        occupied(self.slots@)
    }

    /// Divide the span in two. The halves are disjoint and cover the span
    /// exactly: read left then right, they yield precisely what the whole
    /// would have yielded. A span of at most one slot is returned whole, with
    /// no right half.
    pub fn split(self) -> (r: (Self, Option<Self>))
        ensures
            r.1 matches Some(right) ==> {
                &&& r.0.elems() + right.elems() == self.elems()
                &&& r.0.slots@.len() < self.slots@.len()
                &&& right.slots@.len() < self.slots@.len()
            },
            r.1 is None ==> r.0 == self && self.slots@.len() <= 1,
    {
        if self.slots.len() <= 1 {
            (self, None)
        } else {
            let ParDrainProducer { slots: mut left } = self;
            let ghost orig = left@;
            let mid: usize = left.len() / 2;
            let right = left.split_off(mid);
            proof {
                assert(orig =~= left@ + right@);
                lemma_occupied_concat(left@, right@);
            }
            (ParDrainProducer { slots: left }, Some(ParDrainProducer { slots: right }))
        }
    }

    /// Take the next element out of the span: the first occupied slot is
    /// emptied and its element returned, or `None` if no occupied slot is
    /// left. The slots walked over are discarded, so the span shrinks.
    #[verifier::loop_isolation(false)]
    pub fn next_item(&mut self) -> (r: Option<T>)
        ensures
            r matches Some(v) ==> {
                &&& old(self).elems().len() > 0
                &&& v == old(self).elems()[0]
                &&& final(self).elems() == old(self).elems().skip(1)
                &&& final(self).slots@.len() < old(self).slots@.len()
            },
            r is None ==> {
                &&& old(self).elems().len() == 0
                &&& final(self).elems() == old(self).elems()
                &&& final(self).slots@.len() == 0
            },
    {
        let ghost orig = self.slots@;
        loop
            invariant
                occupied(self.slots@) == occupied(orig),
                self.slots@.len() <= orig.len(),
            decreases self.slots@.len(),
        {
            if self.slots.len() == 0 {
                proof {
                    assert(occupied(self.slots@) =~= Seq::<T>::empty());
                }
                return None;
            }
            let ghost before = self.slots@;
            let s = self.slots.remove(0);
            proof {
                assert(before[0] == s);
                assert(before.remove(0) =~= before.skip(1));
            }
            match s {
                Some(v) => {
                    proof {
                        assert(occupied(before) == seq![v] + occupied(self.slots@));
                        assert(occupied(before)[0] == v);
                        assert((seq![v] + occupied(self.slots@)).skip(1) =~= occupied(
                            self.slots@,
                        ));
                    }
                    return Some(v);
                },
                None => {
                    proof {
                        assert(occupied(before) == occupied(self.slots@));
                    }
                },
            }
        }
    }

    /// Fold this producer's elements into `folder`, in address order, checking
    /// for saturation before each element and stopping the moment the folder
    /// reports it is full. Exactly the first `yielded_count` elements are
    /// consumed; the rest stay owned by the producer, which is dropped here
    /// together with them.
    #[verifier::loop_isolation(false)]
    pub fn fold_with<F: Folder<T>>(self, folder: F) -> (r: F)
        ensures
            r.acc() == folder.acc() + self.elems().take(
                yielded_count(folder, folder.acc(), self.elems()) as int,
            ),
            forall|s: Seq<T>| r.full_of(s) == folder.full_of(s),
    {
        let ghost orig = self.elems();
        let ghost f0 = folder;
        let ghost acc0 = folder.acc();
        let mut prod = self;
        let mut folder = folder;
        let ghost mut j: int = 0;
        loop
            invariant
                0 <= j <= orig.len(),
                prod.elems() == orig.skip(j),
                folder.acc() == acc0 + orig.take(j),
                forall|s: Seq<T>| folder.full_of(s) == f0.full_of(s),
                yielded_count(f0, acc0, orig) == j + yielded_count(f0, folder.acc(), prod.elems()),
            decreases prod.slots@.len(),
        {
            if folder.full() {
                proof {
                    assert(yielded_count(f0, folder.acc(), prod.elems()) == 0);
                    assert(yielded_count(f0, acc0, orig) == j);
                }
                return folder;
            }
            let ghost accj = folder.acc();
            match prod.next_item() {
                None => {
                    proof {
                        assert(yielded_count(f0, folder.acc(), prod.elems()) == 0);
                        assert(yielded_count(f0, acc0, orig) == j);
                    }
                    return folder;
                },
                Some(v) => {
                    proof {
                        assert(orig.skip(j)[0] == orig[j]);
                    }
                    folder = folder.consume(v);
                    proof {
                        assert(yielded_count(f0, accj, orig.skip(j)) == 1 + yielded_count(
                            f0,
                            accj.push(v),
                            orig.skip(j).skip(1),
                        ));
                        assert(orig.skip(j).skip(1) =~= orig.skip(j + 1));
                        assert(accj.push(v) =~= acc0 + orig.take(j + 1));
                        j = j + 1;
                    }
                },
            }
        }
    }

    /// Law: coverage is exact under every split-recursion strategy. Splitting
    /// by any plan and folding every leaf left to right into one folder gives
    /// precisely the accumulator of a single sequential fold of the whole
    /// span: the first `yielded_count` elements in address order, each exactly
    /// once — no element is duplicated or lost by splitting, and early
    /// saturation stops the whole tree just where it stops one pass.
    pub fn drive_plan<F: Folder<T>>(self, plan: &SplitPlan, folder: F) -> (r: F)
        ensures
            r.acc() == folder.acc() + self.elems().take(
                yielded_count(folder, folder.acc(), self.elems()) as int,
            ),
            forall|s: Seq<T>| r.full_of(s) == folder.full_of(s),
        decreases plan,
    {
        match plan {
            SplitPlan::Leaf => self.fold_with(folder),
            SplitPlan::Fork(left_plan, right_plan) => {
                let ghost f0 = folder;
                let ghost acc0 = folder.acc();
                let (left, right) = self.split();
                let ghost le = left.elems();
                let mid_folder = left.drive_plan(&**left_plan, folder);
                match right {
                    None => mid_folder,
                    Some(right_prod) => {
                        let ghost re = right_prod.elems();
                        let ghost k1 = yielded_count(f0, acc0, le);
                        let out = right_prod.drive_plan(&**right_plan, mid_folder);
                        proof {
                            let k2 = yielded_count(f0, mid_folder.acc(), re);
                            lemma_yielded_count_same_rule(mid_folder, f0, mid_folder.acc(), re);
                            lemma_yielded_count_concat(f0, acc0, le, re);
                            lemma_yielded_count_le(f0, acc0, le);
                            lemma_yielded_count_le(f0, mid_folder.acc(), re);
                            if k1 < le.len() {
                                lemma_yielded_count_stops_full(f0, acc0, le);
                                assert(k2 == 0);
                                assert((le + re).take(k1 as int) =~= le.take(k1 as int));
                                assert(acc0 + (le + re).take(k1 as int) =~= (acc0 + le.take(
                                    k1 as int,
                                )) + re.take(0));
                            } else {
                                assert(le.take(k1 as int) =~= le);
                                assert((le + re).take(k1 + k2 as int) =~= le + re.take(k2 as int));
                                assert(acc0 + (le + re).take(k1 + k2 as int) =~= (acc0 + le.take(
                                    k1 as int,
                                )) + re.take(k2 as int));
                            }
                        }
                        out
                    },
                }
            },
        }
    }
}

/// A producer that borrows nothing from the table but its shape: it yields
/// the addresses of the occupied slots of a span, in ascending address order.
/// The caller reads or keeps elements through those addresses, so no
/// ownership moves and nothing is dropped when the producer is abandoned.
pub struct ParIterProducer {
    /// The addresses this producer has yet to yield.
    pub indices: Vec<usize>,
}

impl ParIterProducer {
    /// The addresses this producer has yet to yield, in order.
    pub open spec fn addrs(&self) -> Seq<usize> {
        self.indices@
    }

    /// Divide the run of addresses in two; the halves are disjoint and cover
    /// the run exactly. A run of at most one address is returned whole, with
    /// no right half.
    pub fn split(self) -> (r: (Self, Option<Self>))
        ensures
            r.1 matches Some(right) ==> {
                &&& r.0.addrs() + right.addrs() == self.addrs()
                &&& r.0.addrs().len() < self.addrs().len()
                &&& right.addrs().len() < self.addrs().len()
            },
            r.1 is None ==> r.0 == self && self.addrs().len() <= 1,
    {
        if self.indices.len() <= 1 {
            (self, None)
        } else {
            let ParIterProducer { indices: mut left } = self;
            let ghost orig = left@;
            let mid: usize = left.len() / 2;
            let right = left.split_off(mid);
            proof {
                assert(orig =~= left@ + right@);
            }
            (ParIterProducer { indices: left }, Some(ParIterProducer { indices: right }))
        }
    }

    /// Take the next address, or `None` when the run is exhausted.
    pub fn next_index(&mut self) -> (r: Option<usize>)
        ensures
            r matches Some(a) ==> {
                &&& old(self).addrs().len() > 0
                &&& a == old(self).addrs()[0]
                &&& final(self).addrs() == old(self).addrs().skip(1)
            },
            r is None ==> old(self).addrs().len() == 0 && final(self).addrs() == old(
                self,
            ).addrs(),
    {
        if self.indices.len() == 0 {
            None
        } else {
            let ghost before = self.indices@;
            let a = self.indices.remove(0);
            proof {
                assert(before.remove(0) =~= before.skip(1));
            }
            Some(a)
        }
    }

    /// Fold this producer's addresses into `folder`, in ascending order,
    /// checking for saturation before each one and stopping the moment the
    /// folder reports it is full.
    #[verifier::loop_isolation(false)]
    pub fn fold_with<F: Folder<usize>>(self, folder: F) -> (r: F)
        ensures
            r.acc() == folder.acc() + self.addrs().take(
                yielded_count(folder, folder.acc(), self.addrs()) as int,
            ),
            forall|s: Seq<usize>| r.full_of(s) == folder.full_of(s),
    {
        let ghost orig = self.addrs();
        let ghost f0 = folder;
        let ghost acc0 = folder.acc();
        let mut prod = self;
        let mut folder = folder;
        let ghost mut j: int = 0;
        loop
            invariant
                0 <= j <= orig.len(),
                prod.addrs() == orig.skip(j),
                folder.acc() == acc0 + orig.take(j),
                forall|s: Seq<usize>| folder.full_of(s) == f0.full_of(s),
                yielded_count(f0, acc0, orig) == j + yielded_count(f0, folder.acc(), prod.addrs()),
            decreases prod.addrs().len(),
        {
            if folder.full() {
                proof {
                    assert(yielded_count(f0, acc0, orig) == j);
                }
                return folder;
            }
            let ghost accj = folder.acc();
            match prod.next_index() {
                None => {
                    proof {
                        assert(yielded_count(f0, acc0, orig) == j);
                    }
                    return folder;
                },
                Some(a) => {
                    proof {
                        assert(orig.skip(j)[0] == orig[j]);
                    }
                    folder = folder.consume(a);
                    proof {
                        assert(yielded_count(f0, accj, orig.skip(j)) == 1 + yielded_count(
                            f0,
                            accj.push(a),
                            orig.skip(j).skip(1),
                        ));
                        assert(orig.skip(j).skip(1) =~= orig.skip(j + 1));
                        assert(accj.push(a) =~= acc0 + orig.take(j + 1));
                        j = j + 1;
                    }
                },
            }
        }
    }
}

/// Law: splitting neither duplicates nor loses an element. When a split
/// leaves `parent == left + right` — as [`ParDrainProducer::split`] and
/// [`ParIterProducer::split`] ensure — the two halves together hold, as a
/// multiset, exactly what the parent held; applied at every fork of a split
/// tree, the leaves together hold exactly what was originally stored,
/// whatever order the scheduler runs them in.
pub proof fn lemma_split_partition<T>(parent: Seq<T>, left: Seq<T>, right: Seq<T>)
    requires
        parent == left + right,
    ensures
        parent.to_multiset() == left.to_multiset().add(right.to_multiset()),
{
    vstd::seq_lib::lemma_multiset_commutative(left, right);
}

/// A split-recursion strategy: the shape of the binary tree of splits a
/// scheduler performs before folding each leaf. The producers place no bound
/// on its depth.
pub enum SplitPlan {
    /// Fold here, without splitting further.
    Leaf,
    /// Split once, then run each half by its own plan; a half the producer
    /// declines to split (no right half) runs the left plan only.
    Fork(Box<SplitPlan>, Box<SplitPlan>),
}

} // verus!
