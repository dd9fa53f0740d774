use crate::error::FlockError;
use crate::flock::{Flock, FlockType, FlockView};
use crate::invariants::{
    lemma_first_conflict, lemma_granted_well_formed, lemma_queued_well_formed,
    lemma_unlocked_well_formed,
};
use crate::laws::{
    granted_as_asked, lemma_granted_as_asked, lemma_released_as_asked, lemma_well_formed_at_rest,
    released_as_asked,
};
use crate::model::{
    all_waiters, at_rest, first_conflict, first_of_owner, granted, queued, release, settle, settle_step,
    tested, unlocked, unqueued, well_formed, Step,
};
use crate::range::RangeView;
use crate::waiter::{lemma_without_again, Waiter};
use std::collections::VecDeque;
use vstd::prelude::*;

verus! {

/// The models of the records of a list, in their order.
pub open spec fn views(s: Seq<Flock>) -> Seq<FlockView> {
    s.map_values(|l: Flock| l@)
}

/// How a request to set a lock went on, short of being refused.
#[derive(Debug)]
pub enum SetLockOutcome {
    /// The lock is in the list. The waiters in `woken` are due to be woken:
    /// they waited on records of the requester that gave up bytes to the
    /// lock or were taken up by a neighbour.
    Granted { woken: Vec<Waiter> },
    /// A record of another owner is in the way, and the requester's waiter is
    /// queued on it. The request is to be made again once the waiter is woken.
    Blocked,
}

/// Takes the record at `i` out of the list.
fn take(list: &mut VecDeque<Flock>, i: usize) -> (lock: Flock)
    requires
        i < old(list)@.len(),
    ensures
        views(final(list)@) == views(old(list)@).remove(i as int),
        final(list)@.len() == old(list)@.len() - 1,
        lock@ == views(old(list)@)[i as int],
{
    let taken = list.remove(i);
    assert(views(list@) =~= views(old(list)@).remove(i as int));
    taken.unwrap()
}

/// Puts `lock` into the list at `i`.
fn put(list: &mut VecDeque<Flock>, i: usize, lock: Flock)
    requires
        i <= old(list)@.len(),
    ensures
        views(final(list)@) == views(old(list)@).insert(i as int, lock@),
        final(list)@.len() == old(list)@.len() + 1,
{
    list.insert(i, lock);
    assert(views(list@) =~= views(old(list)@).insert(i as int, lock@));
}

/// A copy of the record at `i`, which nobody waits on.
fn copy_of(list: &VecDeque<Flock>, i: usize) -> (lock: Flock)
    requires
        i < list@.len(),
    ensures
        lock@ == views(list@)[i as int].without_waiters(),
        lock@.range.valid(),
{
    list[i].clone()
}

/// Exchanges the records at `i` and `i + 1`.
fn swap_with_next(list: &mut VecDeque<Flock>, i: usize)
    requires
        i + 1 < old(list)@.len(),
    ensures
        views(final(list)@) == crate::model::swap_adjacent(views(old(list)@), i as int),
        final(list)@.len() == old(list)@.len(),
{
    let _ = list.len();
    let first = take(list, i);
    put(list, i + 1, first);
    assert(views(list@) =~= crate::model::swap_adjacent(views(old(list)@), i as int));
}

/// Index of the first record that conflicts with `lock`, or the length of
/// the list.
fn find_conflict(list: &VecDeque<Flock>, lock: &Flock) -> (at: usize)
    ensures
        at == first_conflict(views(list@), lock@, 0),
        at <= list@.len(),
{
    let mut i: usize = 0;
    while i < list.len()
        invariant
            i <= list@.len(),
            first_conflict(views(list@), lock@, 0) == first_conflict(views(list@), lock@, i as int),
        decreases list@.len() - i,
    {
        if list[i].conflict_with(lock) {
            return i;
        }
        i = i + 1;
    }
    i
}

/// Index of the first record of the owner of `lock`, or the length of the
/// list.
fn find_owner(list: &VecDeque<Flock>, lock: &Flock) -> (at: usize)
    ensures
        at == first_of_owner(views(list@), lock@.owner, 0),
        at <= list@.len(),
{
    let mut i: usize = 0;
    while i < list.len()
        invariant
            i <= list@.len(),
            first_of_owner(views(list@), lock@.owner, 0) == first_of_owner(
                views(list@),
                lock@.owner,
                i as int,
            ),
        decreases list@.len() - i,
    {
        if list[i].same_owner_with(lock) {
            return i;
        }
        i = i + 1;
    }
    i
}

/// Hands the waiters in `more` over to `woken`, behind those already there.
fn wake(woken: &mut Vec<Waiter>, more: Vec<Waiter>)
    ensures
        final(woken)@ == old(woken)@ + more@,
{
    let mut more = more;
    woken.append(&mut more);
}

/// What a move of settling leaves behind where it made the move `step`: the
/// list, the waiters handed to `woken`, and where the walk goes on.
pub open spec fn moved(
    step: Step,
    list: Seq<FlockView>,
    woken_before: Seq<Waiter>,
    woken: Seq<Waiter>,
    then: Option<usize>,
) -> bool {
    match step {
        Step::Done { list: l, woken: w } => {
            &&& then is None
            &&& list == l
            &&& woken == woken_before + w
        },
        Step::Next { list: l, at, woken: w } => {
            &&& then == Some(at as usize)
            &&& at == then->0
            &&& list == l
            &&& woken == woken_before + w
        },
    }
}

/// Settles the record at `pre_idx` against a neighbour of its own type.
fn settle_same_type(
    list: &mut VecDeque<Flock>,
    pre_idx: usize,
    pre_lock: &Flock,
    next_lock: &Flock,
    woken: &mut Vec<Waiter>,
) -> (then: Option<usize>)
    requires
        pre_idx + 1 < old(list)@.len(),
        pre_lock@ == views(old(list)@)[pre_idx as int].without_waiters(),
        next_lock@ == views(old(list)@)[pre_idx + 1].without_waiters(),
        pre_lock@.owner == next_lock@.owner,
        pre_lock@.type_ == next_lock@.type_,
    ensures
        moved(
            settle_step(views(old(list)@), pre_idx as int),
            views(final(list)@),
            old(woken)@,
            final(woken)@,
            then,
        ),
        then is Some ==> then->0 < final(list)@.len(),
{
    let ghost before = views(list@);
    let len = list.len();
    let next_idx = pre_idx + 1;
    if pre_lock.in_front_of(next_lock) {
        assert(woken@ + Seq::<Waiter>::empty() =~= woken@);
        None
    } else if next_lock.in_front_of(pre_lock) {
        swap_with_next(list, pre_idx);
        assert(woken@ + Seq::<Waiter>::empty() =~= woken@);
        Some(next_idx)
    } else {
        // Merge adjacent or overlapping locks
        let mut next = take(list, next_idx);
        next.merge_range(pre_lock);
        let mut pre = take(list, pre_idx);
        put(list, pre_idx, next);
        wake(woken, pre.dequeue_and_wake_all_waiters());
        assert(views(list@) =~= before.update(
            next_idx as int,
            before[next_idx as int].with_range(
                before[next_idx as int].range.hull(before[pre_idx as int].range),
            ),
        ).remove(pre_idx as int));
        Some(pre_idx)
    }
}

/// Settles the record at `pre_idx` against a neighbour of the other type.
fn settle_other_type(
    list: &mut VecDeque<Flock>,
    pre_idx: usize,
    pre_lock: &Flock,
    next_lock: &Flock,
    woken: &mut Vec<Waiter>,
) -> (then: Option<usize>)
    requires
        pre_idx + 1 < old(list)@.len(),
        pre_lock@ == views(old(list)@)[pre_idx as int].without_waiters(),
        next_lock@ == views(old(list)@)[pre_idx + 1].without_waiters(),
        pre_lock@.range.valid(),
        next_lock@.range.valid(),
        pre_lock@.owner == next_lock@.owner,
        pre_lock@.type_ != next_lock@.type_,
    ensures
        moved(
            settle_step(views(old(list)@), pre_idx as int),
            views(final(list)@),
            old(woken)@,
            final(woken)@,
            then,
        ),
        then is Some ==> then->0 < final(list)@.len(),
{
    let ghost before = views(list@);
    let len = list.len();
    let next_idx = pre_idx + 1;
    if pre_lock.in_front_of_or_adjacent_before(next_lock) {
        assert(woken@ + Seq::<Waiter>::empty() =~= woken@);
        None
    } else if next_lock.in_front_of_or_adjacent_before(pre_lock) {
        swap_with_next(list, pre_idx);
        assert(woken@ + Seq::<Waiter>::empty() =~= woken@);
        Some(next_idx)
    } else if pre_lock.left_overlap_with(next_lock) {
        // Split overlapping locks
        let mut next = take(list, next_idx);
        wake(woken, next.set_start(pre_lock.range().end() + 1));
        put(list, next_idx, next);
        assert(views(list@) =~= before.update(
            next_idx as int,
            before[next_idx as int].without_waiters().with_range(
                RangeView {
                    start: before[pre_idx as int].range.end + 1,
                    end: before[next_idx as int].range.end,
                },
            ),
        ));
        None
    } else if pre_lock.middle_overlap_with(next_lock) {
        let mut right_lk = next_lock.clone();
        let _ = right_lk.set_start(pre_lock.range().end() + 1);
        let mut next = take(list, next_idx);
        wake(woken, next.set_end(pre_lock.range().start() - 1));
        put(list, pre_idx, next);
        put(list, next_idx + 1, right_lk);
        assert(views(list@) =~= before.update(
            pre_idx as int,
            before[next_idx as int].without_waiters().with_range(
                RangeView {
                    start: before[next_idx as int].range.start,
                    end: before[pre_idx as int].range.start - 1,
                },
            ),
        ).update(next_idx as int, before[pre_idx as int]).insert(
            next_idx + 1,
            before[next_idx as int].without_waiters().with_range(
                RangeView {
                    start: before[pre_idx as int].range.end + 1,
                    end: before[next_idx as int].range.end,
                },
            ),
        ));
        None
    } else if pre_lock.right_overlap_with(next_lock) {
        let mut next = take(list, next_idx);
        wake(woken, next.set_end(pre_lock.range().start() - 1));
        put(list, pre_idx, next);
        assert(views(list@) =~= before.update(
            pre_idx as int,
            before[next_idx as int].without_waiters().with_range(
                RangeView {
                    start: before[next_idx as int].range.start,
                    end: before[pre_idx as int].range.start - 1,
                },
            ),
        ).update(next_idx as int, before[pre_idx as int]));
        Some(next_idx)
    } else {
        // New lock can replace the old lock
        let mut next = take(list, next_idx);
        wake(woken, next.dequeue_and_wake_all_waiters());
        Some(pre_idx)
    }
}

/// Makes one move of settling the record at `pre_idx`, and says where the
/// walk goes on, if it does.
fn settle_once(list: &mut VecDeque<Flock>, pre_idx: usize, woken: &mut Vec<Waiter>) -> (then:
    Option<usize>)
    requires
        pre_idx < old(list)@.len(),
    ensures
        moved(
            settle_step(views(old(list)@), pre_idx as int),
            views(final(list)@),
            old(woken)@,
            final(woken)@,
            then,
        ),
        then is Some ==> then->0 < final(list)@.len(),
{
    let len = list.len();
    let next_idx = pre_idx + 1;
    if next_idx >= len {
        assert(woken@ + Seq::<Waiter>::empty() =~= woken@);
        return None;
    }
    let pre_lock = copy_of(list, pre_idx);
    let next_lock = copy_of(list, next_idx);
    if !next_lock.same_owner_with(&pre_lock) {
        assert(woken@ + Seq::<Waiter>::empty() =~= woken@);
        return None;
    }
    if next_lock.same_type_with(&pre_lock) {
        settle_same_type(list, pre_idx, &pre_lock, &next_lock, woken)
    } else {
        settle_other_type(list, pre_idx, &pre_lock, &next_lock, woken)
    }
}

/// Puts a copy of `lock` into the list, which holds no record that conflicts
/// with it, and restores the order of its owner's records.
fn insert_lock_into_list(list: &mut VecDeque<Flock>, lock: &Flock) -> (woken: Vec<Waiter>)
    ensures
        (views(final(list)@), woken@) == granted(views(old(list)@), lock@),
{
    let ghost target = granted(views(list@), lock@);
    let mut woken: Vec<Waiter> = Vec::new();
    let first_same_owner_idx = find_owner(list, lock);
    if first_same_owner_idx >= list.len() {
        // Can't find the old lock with same owner, just insert it.
        put(list, 0, lock.clone());
        return woken;
    }
    // Insert the lock at the position with same owner, this may break the rules of the list,
    // we will handle the inserted lock with next one to make the list to satisfy the rules.
    put(list, first_same_owner_idx, lock.clone());
    let mut pre_idx = first_same_owner_idx;
    loop
        invariant_except_break
            settle(views(list@), pre_idx as int).0 == target.0,
            woken@ + settle(views(list@), pre_idx as int).1 == target.1,
            pre_idx < list@.len(),
        ensures
            views(list@) == target.0,
            woken@ == target.1,
        decreases list@.len() - pre_idx,
    {
        let ghost before = views(list@);
        let ghost woken_before = woken@;
        match settle_once(list, pre_idx, &mut woken) {
            None => {
                break;
            },
            Some(at) => {
                proof {
                    let step = settle_step(before, pre_idx as int);
                    assert(woken_before + (step->Next_woken + settle(views(list@), at as int).1)
                        =~= woken@ + settle(views(list@), at as int).1);
                }
                pre_idx = at;
            },
        }
    }
    woken
}

/// Takes the bytes of `lock` away from the records of its owner.
fn release_from_list(list: &mut VecDeque<Flock>, lock: &Flock) -> (woken: Vec<Waiter>)
    ensures
        (views(final(list)@), woken@) == unlocked(views(old(list)@), lock@),
{
    let ghost target = unlocked(views(list@), lock@);
    let mut woken: Vec<Waiter> = Vec::new();
    let mut idx: usize = 0;
    loop
        invariant_except_break
            release(views(list@), lock@, idx as int).0 == target.0,
            woken@ + release(views(list@), lock@, idx as int).1 == target.1,
        invariant
            idx <= list@.len(),
        ensures
            views(list@) == target.0,
            woken@ == target.1,
        decreases list@.len() - idx,
    {
        let ghost before = views(list@);
        let ghost woken_before = woken@;
        if idx >= list.len() {
            assert(woken@ + Seq::<Waiter>::empty() =~= woken@);
            break;
        }
        let existing_lock = copy_of(list, idx);
        if !(existing_lock.same_owner_with(lock) && existing_lock.overlap_with(lock)) {
            idx = idx + 1;
            assert(Seq::<Waiter>::empty() + release(views(list@), lock@, idx as int).1 =~= release(
                views(list@),
                lock@,
                idx as int,
            ).1);
        } else if lock.left_overlap_with(&existing_lock) {
            let mut existing = take(list, idx);
            wake(&mut woken, existing.set_start(lock.range().end() + 1));
            put(list, idx, existing);
            assert(views(list@) =~= before.update(
                idx as int,
                before[idx as int].without_waiters().with_range(
                    RangeView {
                        start: lock@.range.end + 1,
                        end: before[idx as int].range.end,
                    },
                ),
            ));
            break;
        } else if lock.middle_overlap_with(&existing_lock) {
            // Split the lock
            let mut right_lk = existing_lock.clone();
            let _ = right_lk.set_start(lock.range().end() + 1);
            let mut existing = take(list, idx);
            wake(&mut woken, existing.set_end(lock.range().start() - 1));
            put(list, idx, existing);
            put(list, idx + 1, right_lk);
            assert(views(list@) =~= before.update(
                idx as int,
                before[idx as int].without_waiters().with_range(
                    RangeView {
                        start: before[idx as int].range.start,
                        end: lock@.range.start - 1,
                    },
                ),
            ).insert(
                idx + 1,
                before[idx as int].without_waiters().with_range(
                    RangeView {
                        start: lock@.range.end + 1,
                        end: before[idx as int].range.end,
                    },
                ),
            ));
            break;
        } else if lock.right_overlap_with(&existing_lock) {
            let mut existing = take(list, idx);
            wake(&mut woken, existing.set_end(lock.range().start() - 1));
            put(list, idx, existing);
            idx = idx + 1;
            assert(views(list@) =~= before.update(
                idx - 1,
                before[idx - 1].without_waiters().with_range(
                    RangeView {
                        start: before[idx - 1].range.start,
                        end: lock@.range.start - 1,
                    },
                ),
            ));
            assert(woken_before + (before[idx - 1].waiters + release(
                views(list@),
                lock@,
                idx as int,
            ).1) =~= woken@ + release(views(list@), lock@, idx as int).1);
        } else {
            // The lock can be deleted from the list
            let mut existing = take(list, idx);
            wake(&mut woken, existing.dequeue_and_wake_all_waiters());
            assert(woken_before + (before[idx as int].waiters + release(
                views(list@),
                lock@,
                idx as int,
            ).1) =~= woken@ + release(views(list@), lock@, idx as int).1);
        }
    }
    woken
}

/// Takes `waiter` out of the queue of every record.
fn unqueue(list: &mut VecDeque<Flock>, waiter: &Waiter)
    ensures
        views(final(list)@) == unqueued(views(old(list)@), *waiter),
        final(list)@.len() == old(list)@.len(),
{
    let ghost before = views(list@);
    let n = list.len();
    let mut i: usize = 0;
    while i < n
        invariant
            i <= n,
            n == list@.len(),
            views(list@).len() == before.len(),
            n == before.len(),
            forall|j: int| 0 <= j < i ==> views(list@)[j] == unqueued(before, *waiter)[j],
            forall|j: int| i <= j < n ==> views(list@)[j] == before[j],
        decreases n - i,
    {
        let mut lock = take(list, i);
        lock.remove_waiter(waiter);
        put(list, i, lock);
        i = i + 1;
    }
    assert(views(list@) =~= unqueued(before, *waiter));
}

/// Queues `waiter` on the record at `at`, and nowhere else.
fn enqueue_at(list: &mut VecDeque<Flock>, at: usize, waiter: &Waiter)
    requires
        at < old(list)@.len(),
    ensures
        views(final(list)@) == queued(views(old(list)@), at as int, *waiter),
        final(list)@.len() == old(list)@.len(),
{
    unqueue(list, waiter);
    let mut conflict_lock = take(list, at);
    conflict_lock.enqueue_waiter(waiter);
    proof {
        lemma_without_again(views(old(list)@)[at as int].waiters, *waiter);
    }
    put(list, at, conflict_lock);
    assert(views(list@) =~= queued(views(old(list)@), at as int, *waiter));
}

/// Used to allocate the lock list for INode
#[derive(Debug, Clone, Copy)]
pub struct FlockListCreater;

impl FlockListCreater {
    /// A list without records, for an inode that has none yet.
    pub fn new_empty_list(&self) -> (list: FlockList)
        ensures
            list@ == Seq::<FlockView>::empty(),
    {
        FlockList::new()
    }
}

/// File POSIX lock list
/// Rule of ordering: Locks are sorted by owner process, then by starting offset.
/// Rule of mergeing: Adjacent & overlapping locks with same owner and type will be merged.
#[derive(Debug)]
pub struct FlockList {
    inner: VecDeque<Flock>,
}

impl View for FlockList {
    type V = Seq<FlockView>;

    closed spec fn view(&self) -> Seq<FlockView> {
        views(self.inner@)
    }
}

impl FlockList {
    #[verifier::type_invariant]
    spec fn inv(self) -> bool {
        well_formed(views(self.inner@))
    }

    pub fn new() -> (list: Self)
        ensures
            list@ == Seq::<FlockView>::empty(),
            well_formed(list@),
            at_rest(list@),
    {
        let inner: VecDeque<Flock> = VecDeque::new();
        assert(views(inner@) =~= Seq::<FlockView>::empty());
        Self { inner }
    }

    /// Number of records in the list.
    pub fn len(&self) -> (n: usize)
        ensures
            n == self@.len(),
            well_formed(self@),
            at_rest(self@),
    {
        proof {
            use_type_invariant(self);
            lemma_well_formed_at_rest(self@);
        }
        self.inner.len()
    }

    /// The record at `idx`, counted from the head of the list.
    pub fn get(&self, idx: usize) -> (lock: Option<&Flock>)
        ensures
            idx < self@.len() ==> lock is Some && lock->0@ == self@[idx as int],
            idx >= self@.len() ==> lock is None,
    {
        if idx < self.inner.len() {
            Some(&self.inner[idx])
        } else {
            None
        }
    }

    /// Gives up the list, as when the inode it belongs to goes away, and
    /// returns the waiters to wake: all who still wait on a record.
    pub fn into_waiters(self) -> (woken: Vec<Waiter>)
        ensures
            woken@ == all_waiters(self@),
    {
        let mut inner = self.inner;
        let ghost whole = views(inner@);
        let mut woken: Vec<Waiter> = Vec::new();
        let mut done: usize = 0;
        let n = inner.len();
        while done < n
            invariant
                n == whole.len(),
                done <= n,
                inner@.len() == n - done,
                views(inner@) == whole.subrange(done as int, n as int),
                woken@ == all_waiters(whole.subrange(0, done as int)),
            decreases n - done,
        {
            let mut lock = take(&mut inner, 0);
            wake(&mut woken, lock.dequeue_and_wake_all_waiters());
            done = done + 1;
            proof {
                assert(views(inner@) =~= whole.subrange(done as int, n as int));
                assert(whole.subrange(0, done as int).drop_last() =~= whole.subrange(
                    0,
                    done - 1,
                ));
            }
        }
        assert(whole.subrange(0, n as int) =~= whole);
        woken
    }

    /// Tells whether `lock` could be set: leaves in it the holder, type and
    /// range of the first record that conflicts with it, or type `F_UNLCK`
    /// where none does. The list stays as it is.
    pub fn test_lock(&self, lock: &mut Flock) -> (res: Result<(), FlockError>)
        ensures
            res is Ok,
            final(lock)@ == tested(self@, old(lock)@),
    {
        let at = find_conflict(&self.inner, lock);
        if at < self.inner.len() {
            // Return the details about the conflict lock
            lock.reset_by(&self.inner[at]);
            return Ok(());
        }
        // The lock could be placed at this time
        lock.set_type(FlockType::F_UNLCK);
        Ok(())
    }

    /// Sets `lock`, or says why not yet. Where a record of another owner
    /// conflicts with it, a non-blocking request is refused and a blocking
    /// one has `waiter` queued on the first such record, and on no other;
    /// the list is otherwise unchanged. Where nothing conflicts, the lock is
    /// granted.
    pub fn set_lock(&mut self, lock: &Flock, waiter: &Waiter) -> (res: Result<
        SetLockOutcome,
        FlockError,
    >)
        requires
            lock@.type_ != FlockType::F_UNLCK,
        ensures
            well_formed(final(self)@),
            at_rest(final(self)@),
            ({
                let at = first_conflict(old(self)@, lock@, 0);
                if at >= old(self)@.len() {
                    &&& res matches Ok(SetLockOutcome::Granted { woken })
                    &&& (final(self)@, woken@) == granted(old(self)@, lock@)
                    &&& granted_as_asked(old(self)@, lock@, final(self)@, woken@)
                } else if lock@.is_nonblocking {
                    &&& res == Err::<SetLockOutcome, FlockError>(FlockError::WouldBlock)
                    &&& final(self)@ == old(self)@
                } else {
                    &&& res matches Ok(SetLockOutcome::Blocked)
                    &&& final(self)@ == queued(old(self)@, at, *waiter)
                }
            }),
    {
        proof {
            use_type_invariant(&*self);
        }
        let mut inner: VecDeque<Flock> = VecDeque::new();
        assert(views(inner@) =~= Seq::<FlockView>::empty());
        core::mem::swap(&mut self.inner, &mut inner);
        let at = find_conflict(&inner, lock);
        let res = if at < inner.len() {
            if lock.is_nonblocking() {
                Err(FlockError::WouldBlock)
            } else {
                proof {
                    lemma_queued_well_formed(views(inner@), at as int, *waiter);
                }
                enqueue_at(&mut inner, at, waiter);
                Ok(SetLockOutcome::Blocked)
            }
        } else {
            // No conflict here, insert the lock
            let _ = lock.range();
            proof {
                lemma_first_conflict(views(inner@), lock@, 0);
                lemma_granted_well_formed(views(inner@), lock@);
                lemma_granted_as_asked(views(inner@), lock@);
            }
            let woken = insert_lock_into_list(&mut inner, lock);
            Ok(SetLockOutcome::Granted { woken })
        };
        proof {
            lemma_well_formed_at_rest(views(inner@));
        }
        self.inner = inner;
        res
    }

    /// Releases the bytes of `lock` that its owner holds, whatever the type
    /// of the records that hold them, and returns the waiters to wake: those
    /// of every record that gave up bytes.
    pub fn unlock(&mut self, lock: &Flock) -> (res: Result<Vec<Waiter>, FlockError>)
        ensures
            well_formed(final(self)@),
            at_rest(final(self)@),
            res matches Ok(woken) && (final(self)@, woken@) == unlocked(old(self)@, lock@)
                && released_as_asked(old(self)@, lock@, final(self)@, woken@),
    {
        let _ = lock.range();
        proof {
            use_type_invariant(&*self);
            lemma_unlocked_well_formed(views(self.inner@), lock@);
            lemma_released_as_asked(views(self.inner@), lock@);
        }
        let mut inner: VecDeque<Flock> = VecDeque::new();
        assert(views(inner@) =~= Seq::<FlockView>::empty());
        core::mem::swap(&mut self.inner, &mut inner);
        let woken = release_from_list(&mut inner, lock);
        proof {
            lemma_well_formed_at_rest(views(inner@));
        }
        self.inner = inner;
        Ok(woken)
    }
}

} // verus!
