use posix_flock::{
    Flock, FlockBuilder, FlockError, FlockList, FlockListCreater, FlockRange, FlockType,
    INodeLockSlot, ObjectId, SetLockOutcome, Waiter, RANGE_EOF,
};

const A: u64 = 1;
const B: u64 = 2;
const C: u64 = 3;
const RD: FlockType = FlockType::F_RDLCK;
const WR: FlockType = FlockType::F_WRLCK;
const UN: FlockType = FlockType::F_UNLCK;

fn span(start: u64, end: u64) -> FlockRange {
    let mut r = FlockRange::new(0, 0).unwrap();
    r.set_end(end).unwrap();
    r.set_start(start).unwrap();
    r
}

fn lock(owner: u64, type_: FlockType, start: u64, end: u64) -> Flock {
    FlockBuilder::new()
        .owner(ObjectId::new(owner))
        .type_(type_)
        .range(span(start, end))
        .pid(owner as u32 + 100)
        .build(1)
        .unwrap()
}

fn nonblocking(owner: u64, type_: FlockType, start: u64, end: u64) -> Flock {
    FlockBuilder::new()
        .owner(ObjectId::new(owner))
        .type_(type_)
        .range(span(start, end))
        .pid(owner as u32 + 100)
        .is_nonblocking(true)
        .build(1)
        .unwrap()
}

/// Sets a lock that must be granted, and returns the ids of the woken.
fn grant(list: &mut FlockList, owner: u64, type_: FlockType, start: u64, end: u64) -> Vec<u64> {
    match list.set_lock(&lock(owner, type_, start, end), &Waiter::new(0)) {
        Ok(SetLockOutcome::Granted { woken }) => woken.iter().map(|w| w.id()).collect(),
        other => panic!("not granted: {:?}", other),
    }
}

/// Sets a blocking lock that must be blocked, with the waiter `waiter`.
fn block(list: &mut FlockList, owner: u64, type_: FlockType, start: u64, end: u64, waiter: u64) {
    match list.set_lock(&lock(owner, type_, start, end), &Waiter::new(waiter)) {
        Ok(SetLockOutcome::Blocked) => {}
        other => panic!("not blocked: {:?}", other),
    }
}

fn release(list: &mut FlockList, owner: u64, start: u64, end: u64) -> Vec<u64> {
    list.unlock(&lock(owner, UN, start, end)).unwrap().iter().map(|w| w.id()).collect()
}

/// The records of the list as (owner, type, start, end).
fn records(list: &FlockList) -> Vec<(u64, FlockType, u64, u64)> {
    (0..list.len())
        .map(|i| {
            let r = list.get(i).unwrap();
            (r.owner().get(), r.type_(), r.range().start(), r.range().end())
        })
        .collect()
}

fn waiters_at(list: &FlockList, i: usize) -> Vec<u64> {
    list.get(i).unwrap().waiters().iter().map(|w| w.id()).collect()
}

/// Panics unless the list is as a list at rest must be.
fn check_at_rest(list: &FlockList) {
    let rs = records(list);
    for i in 0..rs.len() {
        assert_ne!(rs[i].1, UN, "unlock record at {}", i);
        assert!(rs[i].2 <= rs[i].3);
        for j in i + 1..rs.len() {
            if rs[i].0 == rs[j].0 {
                assert!(rs[i].2 < rs[j].2, "starts not ascending at {} and {}", i, j);
                for k in i + 1..j {
                    assert_eq!(rs[k].0, rs[i].0, "owner not contiguous at {}", k);
                }
            } else {
                let overlap = rs[i].2 <= rs[j].3 && rs[i].3 >= rs[j].2;
                assert!(
                    !(overlap && (rs[i].1 == WR || rs[j].1 == WR)),
                    "conflict of {} and {}",
                    i,
                    j
                );
            }
        }
        if i + 1 < rs.len() && rs[i].0 == rs[i + 1].0 {
            if rs[i].1 == rs[i + 1].1 {
                assert!(rs[i].3 + 1 < rs[i + 1].2, "merge candidates at {}", i);
            } else {
                assert!(rs[i].3 < rs[i + 1].2, "overlap within owner at {}", i);
            }
        }
    }
}

#[test]
fn new_list_is_empty() {
    let list = FlockList::new();
    assert_eq!(list.len(), 0);
    assert!(list.get(0).is_none());
    let list = FlockListCreater.new_empty_list();
    assert_eq!(list.len(), 0);
}

#[test]
fn same_type_merge() {
    let mut list = FlockList::new();
    assert!(grant(&mut list, A, RD, 0, 9).is_empty());
    assert!(grant(&mut list, A, RD, 10, 19).is_empty());
    assert_eq!(records(&list), vec![(A, RD, 0, 19)]);
}

#[test]
fn different_type_split_middle() {
    let mut list = FlockList::new();
    grant(&mut list, A, RD, 0, 99);
    grant(&mut list, A, WR, 40, 59);
    assert_eq!(records(&list), vec![(A, RD, 0, 39), (A, WR, 40, 59), (A, RD, 60, 99)]);
}

#[test]
fn different_owner_conflict_non_blocking() {
    let mut list = FlockList::new();
    grant(&mut list, A, WR, 0, 99);
    let res = list.set_lock(&nonblocking(B, WR, 50, 149), &Waiter::new(7));
    assert_eq!(res.err(), Some(FlockError::WouldBlock));
    assert_eq!(records(&list), vec![(A, WR, 0, 99)]);
    assert!(waiters_at(&list, 0).is_empty());
}

#[test]
fn blocking_then_release() {
    let mut list = FlockList::new();
    grant(&mut list, A, WR, 0, 99);
    // B is in A's way and suspends on its waiter
    block(&mut list, B, RD, 50, 149, 7);
    assert_eq!(records(&list), vec![(A, WR, 0, 99)]);
    assert_eq!(waiters_at(&list, 0), vec![7]);
    // A unlocks; B's waiter is due to be woken
    assert_eq!(release(&mut list, A, 0, 99), vec![7]);
    assert_eq!(records(&list), vec![]);
    // B wakes, retries, succeeds
    assert!(grant(&mut list, B, RD, 50, 149).is_empty());
    assert_eq!(records(&list), vec![(B, RD, 50, 149)]);
}

#[test]
fn test_probe() {
    let mut list = FlockList::new();
    grant(&mut list, A, WR, 100, 199);
    let mut probe = lock(B, WR, 150, 249);
    probe.enqueue_waiter(&Waiter::new(4));
    assert_eq!(list.test_lock(&mut probe), Ok(()));
    assert_eq!(probe.type_(), WR);
    assert_eq!(probe.owner(), ObjectId::new(A));
    assert_eq!(probe.range(), span(100, 199));
    assert_eq!(probe.pid(), 101);
    assert_eq!(probe.waiters().len(), 1);
    assert_eq!(records(&list), vec![(A, WR, 100, 199)]);
}

#[test]
fn test_probe_without_conflict_reads_unlock() {
    let mut list = FlockList::new();
    grant(&mut list, A, WR, 100, 199);
    grant(&mut list, B, RD, 300, 399);
    for mut probe in [
        lock(B, WR, 200, 249),
        lock(A, WR, 150, 249),
        lock(C, RD, 300, 399),
        lock(C, WR, 0, 99),
    ] {
        let before = (probe.owner(), probe.range(), probe.pid());
        assert_eq!(list.test_lock(&mut probe), Ok(()));
        assert_eq!(probe.type_(), UN);
        assert_eq!((probe.owner(), probe.range(), probe.pid()), before);
    }
    assert_eq!(records(&list), vec![(B, RD, 300, 399), (A, WR, 100, 199)]);
}

#[test]
fn test_probe_reports_the_first_record_in_the_way() {
    let mut list = FlockList::new();
    grant(&mut list, A, RD, 0, 99);
    grant(&mut list, B, RD, 50, 149);
    assert_eq!(records(&list), vec![(B, RD, 50, 149), (A, RD, 0, 99)]);
    let mut probe = lock(C, WR, 60, 70);
    list.test_lock(&mut probe).unwrap();
    assert_eq!(probe.owner(), ObjectId::new(B));
    assert_eq!(probe.type_(), RD);
    assert_eq!(probe.range(), span(50, 149));
    let mut probe = lock(C, WR, 0, 10);
    list.test_lock(&mut probe).unwrap();
    assert_eq!(probe.owner(), ObjectId::new(A));
    assert_eq!(probe.range(), span(0, 99));
}

#[test]
fn unlock_middle_split() {
    let mut list = FlockList::new();
    grant(&mut list, A, RD, 0, 999);
    assert!(release(&mut list, A, 400, 499).is_empty());
    assert_eq!(records(&list), vec![(A, RD, 0, 399), (A, RD, 500, 999)]);
}

#[test]
fn a_new_owner_goes_to_the_head_of_the_list() {
    let mut list = FlockList::new();
    grant(&mut list, A, RD, 0, 9);
    grant(&mut list, B, RD, 0, 9);
    grant(&mut list, C, RD, 0, 9);
    assert_eq!(records(&list), vec![(C, RD, 0, 9), (B, RD, 0, 9), (A, RD, 0, 9)]);
    grant(&mut list, B, RD, 20, 29);
    grant(&mut list, A, RD, 20, 29);
    assert_eq!(
        records(&list),
        vec![(C, RD, 0, 9), (B, RD, 0, 9), (B, RD, 20, 29), (A, RD, 0, 9), (A, RD, 20, 29)]
    );
}

#[test]
fn records_of_one_owner_are_kept_in_ascending_order() {
    let mut list = FlockList::new();
    grant(&mut list, A, RD, 50, 59);
    grant(&mut list, A, RD, 10, 19);
    grant(&mut list, A, WR, 30, 39);
    grant(&mut list, A, RD, 70, 79);
    grant(&mut list, A, WR, 0, 5);
    assert_eq!(
        records(&list),
        vec![(A, WR, 0, 5), (A, RD, 10, 19), (A, WR, 30, 39), (A, RD, 50, 59), (A, RD, 70, 79)]
    );
    check_at_rest(&list);
}

#[test]
fn a_lock_merges_with_all_it_touches() {
    let mut list = FlockList::new();
    grant(&mut list, A, RD, 0, 9);
    grant(&mut list, A, RD, 20, 29);
    grant(&mut list, A, RD, 40, 49);
    grant(&mut list, A, RD, 60, 69);
    grant(&mut list, A, RD, 10, 39);
    assert_eq!(records(&list), vec![(A, RD, 0, 49), (A, RD, 60, 69)]);
    grant(&mut list, A, RD, 45, 100);
    assert_eq!(records(&list), vec![(A, RD, 0, 100)]);
}

#[test]
fn locks_of_one_type_that_do_not_touch_stay_apart() {
    let mut list = FlockList::new();
    grant(&mut list, A, RD, 0, 9);
    grant(&mut list, A, RD, 11, 19);
    assert_eq!(records(&list), vec![(A, RD, 0, 9), (A, RD, 11, 19)]);
    grant(&mut list, A, RD, 10, 10);
    assert_eq!(records(&list), vec![(A, RD, 0, 19)]);
}

#[test]
fn a_lock_of_another_type_takes_the_bytes_it_covers() {
    // left overlap
    let mut list = FlockList::new();
    grant(&mut list, A, RD, 10, 29);
    grant(&mut list, A, WR, 0, 19);
    assert_eq!(records(&list), vec![(A, WR, 0, 19), (A, RD, 20, 29)]);
    // right overlap
    let mut list = FlockList::new();
    grant(&mut list, A, RD, 10, 29);
    grant(&mut list, A, WR, 20, 39);
    assert_eq!(records(&list), vec![(A, RD, 10, 19), (A, WR, 20, 39)]);
    // full cover
    let mut list = FlockList::new();
    grant(&mut list, A, RD, 10, 29);
    grant(&mut list, A, WR, 10, 29);
    assert_eq!(records(&list), vec![(A, WR, 10, 29)]);
    // several at once
    let mut list = FlockList::new();
    grant(&mut list, A, RD, 0, 9);
    grant(&mut list, A, RD, 20, 29);
    grant(&mut list, A, RD, 40, 49);
    grant(&mut list, A, WR, 5, 44);
    assert_eq!(records(&list), vec![(A, RD, 0, 4), (A, WR, 5, 44), (A, RD, 45, 49)]);
}

#[test]
fn locks_of_two_types_may_touch() {
    let mut list = FlockList::new();
    grant(&mut list, A, RD, 0, 9);
    grant(&mut list, A, WR, 10, 19);
    assert_eq!(records(&list), vec![(A, RD, 0, 9), (A, WR, 10, 19)]);
    grant(&mut list, A, RD, 20, 29);
    assert_eq!(records(&list), vec![(A, RD, 0, 9), (A, WR, 10, 19), (A, RD, 20, 29)]);
    // and merge through a lock that takes the place of the one between them
    grant(&mut list, A, RD, 10, 19);
    assert_eq!(records(&list), vec![(A, RD, 0, 29)]);
}

#[test]
fn read_locks_of_different_owners_share_bytes() {
    let mut list = FlockList::new();
    grant(&mut list, A, RD, 0, 99);
    grant(&mut list, B, RD, 50, 149);
    grant(&mut list, C, RD, 0, RANGE_EOF);
    assert_eq!(records(&list), vec![(C, RD, 0, RANGE_EOF), (B, RD, 50, 149), (A, RD, 0, 99)]);
    check_at_rest(&list);
}

#[test]
fn a_lock_to_the_end_of_the_file_merges_and_splits_like_any_other() {
    let mut list = FlockList::new();
    grant(&mut list, A, RD, 0, RANGE_EOF);
    grant(&mut list, A, WR, 100, 199);
    assert_eq!(
        records(&list),
        vec![(A, RD, 0, 99), (A, WR, 100, 199), (A, RD, 200, RANGE_EOF)]
    );
    grant(&mut list, A, RD, 100, 199);
    assert_eq!(records(&list), vec![(A, RD, 0, RANGE_EOF)]);
    assert!(release(&mut list, A, 10, RANGE_EOF).is_empty());
    assert_eq!(records(&list), vec![(A, RD, 0, 9)]);
}

#[test]
fn unlock_cuts_from_either_side_and_removes_what_it_covers() {
    let mut list = FlockList::new();
    grant(&mut list, A, RD, 0, 9);
    grant(&mut list, A, WR, 20, 29);
    grant(&mut list, A, RD, 40, 49);
    grant(&mut list, A, WR, 60, 69);
    release(&mut list, A, 5, 64);
    assert_eq!(records(&list), vec![(A, RD, 0, 4), (A, WR, 65, 69)]);
    release(&mut list, A, 0, 2);
    assert_eq!(records(&list), vec![(A, RD, 3, 4), (A, WR, 65, 69)]);
    release(&mut list, A, 69, 100);
    assert_eq!(records(&list), vec![(A, RD, 3, 4), (A, WR, 65, 68)]);
    release(&mut list, A, 0, RANGE_EOF);
    assert_eq!(records(&list), vec![]);
}

#[test]
fn unlock_leaves_other_owners_alone() {
    let mut list = FlockList::new();
    grant(&mut list, A, RD, 0, 99);
    grant(&mut list, B, RD, 0, 99);
    block(&mut list, C, WR, 10, 19, 5);
    assert_eq!(waiters_at(&list, 0), vec![5]);
    assert!(release(&mut list, A, 0, 99).is_empty());
    assert_eq!(records(&list), vec![(B, RD, 0, 99)]);
    assert_eq!(waiters_at(&list, 0), vec![5]);
    assert!(release(&mut list, C, 0, 99).is_empty());
    assert_eq!(records(&list), vec![(B, RD, 0, 99)]);
}

#[test]
fn unlock_ignores_the_type_of_the_probe() {
    let mut list = FlockList::new();
    grant(&mut list, A, RD, 0, 99);
    let woken = list.unlock(&lock(A, WR, 50, 99)).unwrap();
    assert!(woken.is_empty());
    assert_eq!(records(&list), vec![(A, RD, 0, 49)]);
}

#[test]
fn unlock_twice_is_unlock_once() {
    let mut list = FlockList::new();
    grant(&mut list, A, RD, 0, 99);
    grant(&mut list, A, WR, 200, 299);
    grant(&mut list, B, RD, 0, 99);
    block(&mut list, C, WR, 80, 250, 5);
    let mut woken = release(&mut list, A, 50, 249);
    woken.sort();
    assert_eq!(woken, Vec::<u64>::new());
    let once = records(&list);
    assert_eq!(once, vec![(B, RD, 0, 99), (A, RD, 0, 49), (A, WR, 250, 299)]);
    assert!(release(&mut list, A, 50, 249).is_empty());
    assert_eq!(records(&list), once);
    assert_eq!(waiters_at(&list, 0), vec![5]);
}

#[test]
fn self_merge_leaves_one_record_over_both_ranges() {
    for (first, second) in [
        ((10, 19), (20, 29)),
        ((20, 29), (10, 19)),
        ((10, 25), (20, 29)),
        ((10, 29), (15, 16)),
        ((15, 16), (10, 29)),
        ((10, 29), (10, 29)),
    ] {
        let mut list = FlockList::new();
        grant(&mut list, B, RD, 0, 99);
        grant(&mut list, A, RD, first.0, first.1);
        grant(&mut list, A, RD, second.0, second.1);
        assert_eq!(records(&list), vec![(A, RD, 10, 29), (B, RD, 0, 99)]);
    }
}

#[test]
fn waiters_wait_on_the_first_record_in_their_way() {
    let mut list = FlockList::new();
    grant(&mut list, A, RD, 0, 99);
    grant(&mut list, B, RD, 50, 149);
    block(&mut list, C, WR, 60, 70, 1);
    block(&mut list, C, WR, 0, 10, 2);
    block(&mut list, C, WR, 60, 70, 3);
    assert_eq!(waiters_at(&list, 0), vec![1, 3]);
    assert_eq!(waiters_at(&list, 1), vec![2]);
    assert_eq!(records(&list), vec![(B, RD, 50, 149), (A, RD, 0, 99)]);
}

#[test]
fn a_waiter_waits_in_one_place_only() {
    let mut list = FlockList::new();
    grant(&mut list, A, RD, 0, 99);
    grant(&mut list, B, RD, 50, 149);
    block(&mut list, C, WR, 0, 10, 1);
    block(&mut list, C, WR, 0, 10, 2);
    assert_eq!(waiters_at(&list, 1), vec![1, 2]);
    // the same waiter asks again, for other bytes
    block(&mut list, C, WR, 60, 70, 1);
    assert_eq!(waiters_at(&list, 0), vec![1]);
    assert_eq!(waiters_at(&list, 1), vec![2]);
    block(&mut list, C, WR, 0, 10, 2);
    assert_eq!(waiters_at(&list, 1), vec![2]);
    assert_eq!(release(&mut list, B, 0, 200), vec![1]);
    assert_eq!(release(&mut list, A, 0, 200), vec![2]);
}

#[test]
fn a_record_that_shrinks_or_goes_wakes_its_waiters() {
    let mut list = FlockList::new();
    grant(&mut list, A, WR, 0, 99);
    grant(&mut list, A, WR, 200, 299);
    block(&mut list, B, RD, 50, 60, 1);
    block(&mut list, B, RD, 250, 260, 2);
    block(&mut list, B, RD, 90, 99, 3);
    // cut the first record from the right, remove the second
    assert_eq!(release(&mut list, A, 95, 400), vec![1, 3, 2]);
    assert_eq!(records(&list), vec![(A, WR, 0, 94)]);
    assert!(waiters_at(&list, 0).is_empty());
}

#[test]
fn a_record_that_grows_keeps_its_waiters() {
    let mut list = FlockList::new();
    grant(&mut list, A, WR, 0, 99);
    block(&mut list, B, RD, 50, 60, 1);
    assert!(grant(&mut list, A, WR, 100, 199).is_empty());
    assert_eq!(records(&list), vec![(A, WR, 0, 199)]);
    assert_eq!(waiters_at(&list, 0), vec![1]);
}

#[test]
fn setting_a_lock_wakes_those_who_wait_on_what_it_replaces() {
    let mut list = FlockList::new();
    grant(&mut list, A, WR, 0, 99);
    block(&mut list, B, RD, 50, 60, 1);
    // A downgrades: the write record goes, its waiter is woken
    assert_eq!(grant(&mut list, A, RD, 0, 99), vec![1]);
    assert_eq!(records(&list), vec![(A, RD, 0, 99)]);
    assert!(grant(&mut list, B, RD, 50, 60).is_empty());
    assert_eq!(records(&list), vec![(B, RD, 50, 60), (A, RD, 0, 99)]);
}

#[test]
fn setting_a_lock_in_the_middle_wakes_those_who_wait_on_the_split_record() {
    let mut list = FlockList::new();
    grant(&mut list, A, WR, 0, 99);
    block(&mut list, B, RD, 50, 60, 1);
    assert_eq!(grant(&mut list, A, RD, 40, 69), vec![1]);
    assert_eq!(records(&list), vec![(A, WR, 0, 39), (A, RD, 40, 69), (A, WR, 70, 99)]);
    assert!(waiters_at(&list, 0).is_empty());
    assert!(waiters_at(&list, 2).is_empty());
}

#[test]
fn merged_records_wake_the_waiters_of_those_taken_up() {
    let mut list = FlockList::new();
    grant(&mut list, A, WR, 0, 9);
    grant(&mut list, A, WR, 20, 29);
    block(&mut list, B, RD, 5, 6, 1);
    block(&mut list, B, RD, 25, 26, 2);
    // the new lock is taken up by the first record, which is taken up by the second
    assert_eq!(grant(&mut list, A, WR, 10, 19), vec![1]);
    assert_eq!(records(&list), vec![(A, WR, 0, 29)]);
    assert_eq!(waiters_at(&list, 0), vec![2]);
}

#[test]
fn a_blocked_request_leaves_the_list_as_it_is_but_for_the_waiter() {
    let mut list = FlockList::new();
    grant(&mut list, A, RD, 0, 99);
    grant(&mut list, B, WR, 200, 299);
    let before = records(&list);
    block(&mut list, C, WR, 0, 299, 9);
    assert_eq!(records(&list), before);
    assert_eq!(waiters_at(&list, 0), vec![9]);
    assert!(waiters_at(&list, 1).is_empty());
}

#[test]
fn the_list_stays_at_rest_through_a_long_run() {
    let mut list = FlockList::new();
    let mut seed: u64 = 12345;
    let mut next = |n: u64| {
        seed = seed.wrapping_mul(6364136223846793005).wrapping_add(1442695040888963407);
        (seed >> 33) % n
    };
    for round in 0..2000u64 {
        let owner = 1 + next(3);
        let start = next(60);
        let end = start + next(20);
        let type_ = if next(2) == 0 { RD } else { WR };
        if next(3) == 0 {
            list.unlock(&lock(owner, UN, start, end)).unwrap();
        } else {
            let before = records(&list);
            match list.set_lock(&nonblocking(owner, type_, start, end), &Waiter::new(round)) {
                Ok(SetLockOutcome::Granted { .. }) => {
                    let rs = records(&list);
                    let holder: Vec<_> = rs
                        .iter()
                        .filter(|r| r.0 == owner && r.2 <= start && end <= r.3)
                        .collect();
                    assert_eq!(holder.len(), 1);
                    assert_eq!(holder[0].1, type_);
                }
                Ok(SetLockOutcome::Blocked) => panic!("a non-blocking request was blocked"),
                Err(e) => {
                    assert_eq!(e, FlockError::WouldBlock);
                    assert_eq!(records(&list), before);
                }
            }
        }
        check_at_rest(&list);
    }
}

#[test]
fn no_waiter_is_lost_or_woken_twice() {
    let mut list = FlockList::new();
    let mut seed: u64 = 99;
    let mut next = |n: u64| {
        seed = seed.wrapping_mul(6364136223846793005).wrapping_add(1442695040888963407);
        (seed >> 33) % n
    };
    let mut asleep: Vec<u64> = Vec::new();
    let mut wake = |asleep: &mut Vec<u64>, woken: Vec<u64>| {
        for id in woken {
            let at = asleep.iter().position(|w| *w == id).expect("woken without being asleep");
            asleep.remove(at);
        }
    };
    for round in 1..=2000u64 {
        let owner = 1 + next(3);
        let start = next(60);
        let end = start + next(20);
        let type_ = if next(2) == 0 { RD } else { WR };
        if next(3) == 0 {
            let woken = list.unlock(&lock(owner, UN, start, end)).unwrap();
            wake(&mut asleep, woken.iter().map(|w| w.id()).collect());
        } else {
            match list.set_lock(&lock(owner, type_, start, end), &Waiter::new(round)).unwrap() {
                SetLockOutcome::Granted { woken } => {
                    wake(&mut asleep, woken.iter().map(|w| w.id()).collect())
                }
                SetLockOutcome::Blocked => asleep.push(round),
            }
        }
        let mut queued: Vec<u64> =
            (0..list.len()).flat_map(|i| waiters_at(&list, i)).collect();
        queued.sort();
        let mut expected = asleep.clone();
        expected.sort();
        assert_eq!(queued, expected);
        check_at_rest(&list);
    }
    assert!(!asleep.is_empty());
    let mut rest: Vec<u64> = list.into_waiters().iter().map(|w| w.id()).collect();
    rest.sort();
    asleep.sort();
    assert_eq!(rest, asleep);
}

#[test]
fn giving_up_the_list_wakes_all_who_wait() {
    let mut list = FlockList::new();
    grant(&mut list, A, RD, 0, 99);
    grant(&mut list, B, RD, 50, 149);
    block(&mut list, C, WR, 60, 70, 1);
    block(&mut list, C, WR, 0, 10, 2);
    block(&mut list, C, WR, 60, 70, 3);
    let woken: Vec<u64> = list.into_waiters().iter().map(|w| w.id()).collect();
    assert_eq!(woken, vec![1, 3, 2]);
    assert!(FlockList::new().into_waiters().is_empty());
}

#[test]
fn the_inode_gets_its_list_on_first_use() {
    let mut slot = INodeLockSlot::new();
    assert!(!slot.is_allocated());
    {
        let list = slot.lock_list(&FlockListCreater);
        assert_eq!(list.len(), 0);
        grant(list, A, RD, 0, 9);
    }
    assert!(slot.is_allocated());
    {
        let list = slot.lock_list(&FlockListCreater);
        assert_eq!(records(list), vec![(A, RD, 0, 9)]);
    }
    let list = slot.take().unwrap();
    assert_eq!(records(&list), vec![(A, RD, 0, 9)]);
    assert!(!slot.is_allocated());
    assert!(slot.take().is_none());
    assert_eq!(slot.lock_list(&FlockListCreater).len(), 0);
}
