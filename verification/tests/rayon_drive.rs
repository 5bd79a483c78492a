//! Driving the producers through the real work-stealing scheduler: rayon
//! decides how often to split and on which worker each half runs, so these
//! tests exercise arbitrary split-recursion strategies end to end.

use rayon::iter::plumbing::bridge_unindexed;
use rayon::iter::plumbing::Folder;
use rayon::iter::plumbing::UnindexedConsumer;
use rayon::iter::plumbing::UnindexedProducer;
use rayon::iter::ParallelIterator;

use table_par_iter::ParDrainProducer;
use table_par_iter::ParIterProducer;
use table_par_iter::RawTable;

struct DrainProducerAdapter<T>(ParDrainProducer<T>);

impl<T: Send> UnindexedProducer for DrainProducerAdapter<T> {
    type Item = T;

    fn split(self) -> (Self, Option<Self>) {
        let (left, right) = self.0.split();
        (DrainProducerAdapter(left), right.map(DrainProducerAdapter))
    }

    fn fold_with<F>(self, mut folder: F) -> F
    where
        F: Folder<Self::Item>,
    {
        let mut producer = self.0;
        while !folder.full() {
            match producer.next_item() {
                Some(item) => folder = folder.consume(item),
                None => break,
            }
        }
        folder
    }
}

struct DrainIter<T>(ParDrainProducer<T>);

impl<T: Send> ParallelIterator for DrainIter<T> {
    type Item = T;

    fn drive_unindexed<C>(self, consumer: C) -> C::Result
    where
        C: UnindexedConsumer<Self::Item>,
    {
        bridge_unindexed(DrainProducerAdapter(self.0), consumer)
    }
}

struct AddrProducerAdapter(ParIterProducer);

impl UnindexedProducer for AddrProducerAdapter {
    type Item = usize;

    fn split(self) -> (Self, Option<Self>) {
        let (left, right) = self.0.split();
        (AddrProducerAdapter(left), right.map(AddrProducerAdapter))
    }

    fn fold_with<F>(self, mut folder: F) -> F
    where
        F: Folder<Self::Item>,
    {
        let mut producer = self.0;
        while !folder.full() {
            match producer.next_index() {
                Some(addr) => folder = folder.consume(addr),
                None => break,
            }
        }
        folder
    }
}

struct AddrIter(ParIterProducer);

impl ParallelIterator for AddrIter {
    type Item = usize;

    fn drive_unindexed<C>(self, consumer: C) -> C::Result
    where
        C: UnindexedConsumer<Self::Item>,
    {
        bridge_unindexed(AddrProducerAdapter(self.0), consumer)
    }
}

#[test]
fn rayon_drain_yields_every_element_exactly_once() {
    let n: u64 = 10_000;
    let mut t: RawTable<u64> = RawTable::new(2 * n as usize);
    for i in 0..n {
        t.put(2 * i as usize, i);
    }
    let mut got: Vec<u64> = DrainIter(t.par_drain().into_producer()).collect();
    got.sort_unstable();
    let expected: Vec<u64> = (0..n).collect();
    assert_eq!(got, expected);
    assert!(t.is_empty());
    assert_eq!(t.len(), 0);
}

#[test]
fn rayon_into_par_iter_yields_every_element_exactly_once() {
    let n: u64 = 5_000;
    let mut t: RawTable<u64> = RawTable::new(n as usize);
    for i in 0..n {
        t.put(i as usize, 3 * i);
    }
    let mut got: Vec<u64> = DrainIter(t.into_par_iter().into_producer()).collect();
    got.sort_unstable();
    let expected: Vec<u64> = (0..n).map(|i| 3 * i).collect();
    assert_eq!(got, expected);
}

#[test]
fn rayon_borrowing_iter_yields_every_address_exactly_once() {
    let mut t: RawTable<u64> = RawTable::new(9_999);
    let mut expected: Vec<usize> = Vec::new();
    for i in (0..9_999).step_by(3) {
        t.put(i, i as u64);
        expected.push(i);
    }
    let mut got: Vec<usize> = AddrIter(t.par_iter().into_producer()).collect();
    got.sort_unstable();
    assert_eq!(got, expected);
    // Borrowing only: the table still holds everything.
    assert_eq!(t.len(), expected.len());
}

#[test]
fn rayon_find_abandons_branches_without_losing_elements() {
    // find_any saturates consumers early on many branches at once; every
    // unvisited element must still be destroyed, never yielded twice.
    let n: u64 = 8_192;
    let mut t: RawTable<u64> = RawTable::new(n as usize);
    for i in 0..n {
        t.put(i as usize, i);
    }
    let found = DrainIter(t.par_drain().into_producer()).find_any(|&v| v == n / 2);
    assert_eq!(found, Some(n / 2));
    assert!(t.is_empty());
}
