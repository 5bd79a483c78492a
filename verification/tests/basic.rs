use std::cell::Cell;
use std::rc::Rc;

use table_par_iter::CollectFolder;
use table_par_iter::RawTable;
use table_par_iter::SplitPlan;

/// An element that counts how many times it is destroyed, to observe that
/// nothing is leaked and nothing is dropped twice.
struct Counted {
    id: usize,
    drops: Rc<Cell<usize>>,
}

impl Drop for Counted {
    fn drop(&mut self) {
        self.drops.set(self.drops.get() + 1);
    }
}

fn counted_table(ids: &[usize], buckets: usize, drops: &Rc<Cell<usize>>) -> RawTable<Counted> {
    let mut t = RawTable::new(buckets);
    for &id in ids {
        t.put(id, Counted { id, drops: Rc::clone(drops) });
    }
    t
}

#[test]
fn drain_single_leaf_yields_all_in_address_order() {
    let mut t: RawTable<u64> = RawTable::new(8);
    t.put(6, 60);
    t.put(1, 10);
    t.put(4, 40);
    t.put(3, 30);
    t.put(7, 70);
    assert_eq!(t.len(), 5);
    let out = t.par_drain().drive(CollectFolder::new(usize::MAX));
    assert_eq!(out.items, vec![10, 30, 40, 60, 70]);
    assert!(t.is_empty());
    assert_eq!(t.len(), 0);
}

#[test]
fn into_par_iter_single_leaf_yields_all_in_address_order() {
    let mut t: RawTable<u64> = RawTable::new(5);
    t.put(0, 5);
    t.put(2, 6);
    t.put(4, 7);
    let out = t.into_par_iter().drive(CollectFolder::new(usize::MAX));
    assert_eq!(out.items, vec![5, 6, 7]);
}

#[test]
fn split_empty_range_left_yields_nothing_no_right() {
    let mut t: RawTable<u32> = RawTable::new(0);
    let (left, right) = t.par_drain().into_producer().split();
    assert!(right.is_none());
    let out = left.fold_with(CollectFolder::new(usize::MAX));
    assert!(out.items.is_empty());
}

#[test]
fn split_empty_address_range_left_yields_nothing_no_right() {
    let t: RawTable<u32> = RawTable::new(3);
    let (left, right) = t.par_iter().into_producer().split();
    assert!(right.is_none());
    let out = left.fold_with(CollectFolder::new(usize::MAX));
    assert!(out.items.is_empty());
}

#[test]
fn saturation_yields_exactly_k_and_destroys_the_rest() {
    let ids = [0usize, 2, 3, 5, 8, 9];
    let n = ids.len();
    for k in 0..=n {
        let drops = Rc::new(Cell::new(0));
        let mut t = counted_table(&ids, 10, &drops);
        let yielded: Vec<usize> = {
            let out = t.par_drain().drive(CollectFolder::new(k));
            assert_eq!(out.items.len(), k);
            out.items.iter().map(|c| c.id).collect()
        };
        assert_eq!(yielded, ids[..k].to_vec());
        // The k yielded elements were destroyed when the folder was dropped;
        // the n - k others were destroyed by the abandoned producer: each
        // element exactly once, none leaked.
        assert_eq!(drops.get(), n);
        assert!(t.is_empty());
    }
}

#[test]
fn zero_capacity_folder_takes_nothing() {
    let mut t: RawTable<u64> = RawTable::new(2);
    t.put(0, 1);
    t.put(1, 2);
    let out = t.par_drain().drive(CollectFolder::new(0));
    assert!(out.items.is_empty());
    assert!(t.is_empty());
}

#[test]
fn drain_dropped_without_driving_destroys_everything() {
    let ids = [1usize, 2, 4];
    let drops = Rc::new(Cell::new(0));
    let mut t = counted_table(&ids, 6, &drops);
    assert_eq!(t.len(), 3);
    let drain = t.par_drain();
    // Never driven: dropping the drain must still destroy every element.
    drop(drain);
    assert_eq!(drops.get(), 3);
    assert!(t.is_empty());
}

#[test]
fn drain_leaves_allocation_valid_and_reusable() {
    let mut t: RawTable<u64> = RawTable::new(4);
    t.put(0, 1);
    t.put(3, 2);
    let out = t.par_drain().drive(CollectFolder::new(usize::MAX));
    assert_eq!(out.items, vec![1, 2]);
    assert!(t.is_empty());
    // The buckets are still there: the same addresses can be filled again.
    t.put(0, 9);
    t.put(3, 8);
    t.put(1, 7);
    let again = t.par_drain().drive(CollectFolder::new(usize::MAX));
    assert_eq!(again.items, vec![9, 7, 8]);
}

#[test]
fn clear_destroys_everything_and_keeps_buckets() {
    let ids = [0usize, 1, 2];
    let drops = Rc::new(Cell::new(0));
    let mut t = counted_table(&ids, 3, &drops);
    t.clear();
    assert_eq!(drops.get(), 3);
    assert!(t.is_empty());
    t.put(2, Counted { id: 2, drops: Rc::clone(&drops) });
    assert_eq!(t.len(), 1);
}

#[test]
fn split_halves_partition_the_elements() {
    let mut t: RawTable<u64> = RawTable::new(10);
    for i in 0..10 {
        t.put(i, 100 + i as u64);
    }
    let (left, right) = t.par_drain().into_producer().split();
    let right = right.expect("a ten-slot span must split");
    let left_out = left.fold_with(CollectFolder::new(usize::MAX));
    let right_out = right.fold_with(CollectFolder::new(usize::MAX));
    let mut all = left_out.items.clone();
    all.extend(right_out.items.iter().copied());
    let expected: Vec<u64> = (0..10).map(|i| 100 + i as u64).collect();
    assert_eq!(all, expected);
}

#[test]
fn every_split_plan_covers_exactly_once() {
    let fork = |a: SplitPlan, b: SplitPlan| SplitPlan::Fork(Box::new(a), Box::new(b));
    let plans = vec![
        SplitPlan::Leaf,
        fork(SplitPlan::Leaf, SplitPlan::Leaf),
        fork(fork(SplitPlan::Leaf, SplitPlan::Leaf), SplitPlan::Leaf),
        fork(
            SplitPlan::Leaf,
            fork(SplitPlan::Leaf, fork(SplitPlan::Leaf, SplitPlan::Leaf)),
        ),
        fork(
            fork(fork(SplitPlan::Leaf, SplitPlan::Leaf), fork(SplitPlan::Leaf, SplitPlan::Leaf)),
            fork(SplitPlan::Leaf, SplitPlan::Leaf),
        ),
    ];
    let expected: Vec<u64> = (0..7).map(|i| 1000 + i as u64).collect();
    for plan in &plans {
        let mut t: RawTable<u64> = RawTable::new(7);
        for i in 0..7 {
            t.put(i, 1000 + i as u64);
        }
        let out = t
            .par_drain()
            .into_producer()
            .drive_plan(plan, CollectFolder::new(usize::MAX));
        assert_eq!(out.items, expected);
    }
}

#[test]
fn split_plan_with_saturation_yields_first_k() {
    let fork = |a: SplitPlan, b: SplitPlan| SplitPlan::Fork(Box::new(a), Box::new(b));
    let plan = fork(fork(SplitPlan::Leaf, SplitPlan::Leaf), SplitPlan::Leaf);
    for k in 0..=5 {
        let mut t: RawTable<u64> = RawTable::new(5);
        for i in 0..5 {
            t.put(i, 10 + i as u64);
        }
        let out = t.par_drain().into_producer().drive_plan(&plan, CollectFolder::new(k));
        let expected: Vec<u64> = (0..k).map(|i| 10 + i as u64).collect();
        assert_eq!(out.items, expected);
    }
}

#[test]
fn par_iter_yields_occupied_addresses_ascending_and_borrows() {
    let mut t: RawTable<u64> = RawTable::new(9);
    t.put(8, 3);
    t.put(0, 1);
    t.put(5, 2);
    let addrs = t.par_iter().drive(CollectFolder::new(usize::MAX));
    assert_eq!(addrs.items, vec![0, 5, 8]);
    // Borrowing: the table still holds all its elements.
    assert_eq!(t.len(), 3);
    let out = t.par_drain().drive(CollectFolder::new(usize::MAX));
    assert_eq!(out.items, vec![1, 2, 3]);
}

#[test]
fn into_par_iter_saturation_destroys_remainder() {
    let ids = [0usize, 1, 2, 3];
    let drops = Rc::new(Cell::new(0));
    let t = counted_table(&ids, 4, &drops);
    {
        let out = t.into_par_iter().drive(CollectFolder::new(2));
        let yielded: Vec<usize> = out.items.iter().map(|c| c.id).collect();
        assert_eq!(yielded, vec![0, 1]);
    }
    assert_eq!(drops.get(), 4);
}

#[test]
fn put_displaces_the_previous_element() {
    let drops = Rc::new(Cell::new(0));
    let mut t: RawTable<Counted> = RawTable::new(1);
    t.put(0, Counted { id: 7, drops: Rc::clone(&drops) });
    t.put(0, Counted { id: 8, drops: Rc::clone(&drops) });
    assert_eq!(drops.get(), 1);
    let out = t.par_drain().drive(CollectFolder::new(usize::MAX));
    assert_eq!(out.items.len(), 1);
    assert_eq!(out.items[0].id, 8);
}
