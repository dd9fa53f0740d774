//! The lock list as a sequence of records, and what granting or releasing a
//! range does to it.

use crate::flock::{FlockType, FlockView};
use crate::object_id::ObjectId;
use crate::range::RangeView;
use crate::waiter::{without, Waiter};
use vstd::prelude::*;

verus! {

/// `a` lies wholly before `b`, and, where they are of one type, apart from
/// it: as two records of one owner must lie, the earlier in the list first.
pub open spec fn separated(a: FlockView, b: FlockView) -> bool {
    &&& a.range.end < b.range.start
    &&& a.type_ == b.type_ ==> a.range.end + 1 < b.range.start
}

/// Every record holds a proper range and is a read or a write lock.
pub open spec fn records_valid(l: Seq<FlockView>) -> bool {
    forall|i: int|
        0 <= i < l.len() ==> (#[trigger] l[i]).range.valid() && l[i].type_ != FlockType::F_UNLCK
}

/// The records of one owner stand together.
pub open spec fn owners_contiguous(l: Seq<FlockView>) -> bool {
    forall|i: int, j: int, k: int|
        #![trigger l[i], l[j], l[k]]
        0 <= i < j < k < l.len() && l[i].owner == l[k].owner ==> l[j].owner == l[i].owner
}

/// Any two records of one owner are `separated`, the earlier first.
pub open spec fn owners_sorted(l: Seq<FlockView>) -> bool {
    forall|i: int, j: int|
        #![trigger l[i], l[j]]
        0 <= i < j < l.len() && l[i].owner == l[j].owner ==> separated(l[i], l[j])
}

/// No two records conflict.
pub open spec fn conflict_free(l: Seq<FlockView>) -> bool {
    forall|i: int, j: int|
        #![trigger l[i], l[j]]
        0 <= i < l.len() && 0 <= j < l.len() ==> !l[i].conflict_with(l[j])
}

/// What holds of a lock list at rest.
pub open spec fn well_formed(l: Seq<FlockView>) -> bool {
    &&& records_valid(l)
    &&& owners_contiguous(l)
    &&& owners_sorted(l)
    &&& conflict_free(l)
}

/// No two neighbours of one owner and one type overlap or touch: nothing is
/// left to merge.
pub open spec fn no_merge_candidates(l: Seq<FlockView>) -> bool {
    forall|i: int, j: int|
        #![trigger l[i], l[j]]
        0 <= i && j == i + 1 && j < l.len() && l[i].owner == l[j].owner && l[i].type_
            == l[j].type_ ==> l[i].range.end + 1 < l[j].range.start
}

/// No two neighbours of one owner and two types overlap.
pub open spec fn no_overlap_within_owner(l: Seq<FlockView>) -> bool {
    forall|i: int, j: int|
        #![trigger l[i], l[j]]
        0 <= i && j == i + 1 && j < l.len() && l[i].owner == l[j].owner && l[i].type_
            != l[j].type_ ==> l[i].range.end < l[j].range.start
}

/// The records of one owner begin at ascending offsets.
pub open spec fn ascending_within_owner(l: Seq<FlockView>) -> bool {
    forall|i: int, j: int|
        #![trigger l[i], l[j]]
        0 <= i < j < l.len() && l[i].owner == l[j].owner ==> l[i].range.start < l[j].range.start
}

/// No record is of type `F_UNLCK`.
pub open spec fn no_unlock_records(l: Seq<FlockView>) -> bool {
    forall|i: int| 0 <= i < l.len() ==> (#[trigger] l[i]).type_ != FlockType::F_UNLCK
}

/// What can be seen of a lock list at rest: its owners' records stand
/// together, those of one owner in ascending order, merged where they are of
/// one type and apart where they are of two; no record is an unlock record,
/// and no two records conflict.
pub open spec fn at_rest(l: Seq<FlockView>) -> bool {
    &&& no_merge_candidates(l)
    &&& no_overlap_within_owner(l)
    &&& ascending_within_owner(l)
    &&& owners_contiguous(l)
    &&& no_unlock_records(l)
    &&& conflict_free(l)
}

/// The record `r` is one of `owner` that holds the byte at `offset` with a
/// lock of `type_`.
pub open spec fn hit(r: FlockView, owner: ObjectId, type_: FlockType, offset: int) -> bool {
    r.owner == owner && r.type_ == type_ && r.range.contains(offset)
}

/// Some record of `owner` holds the byte at `offset` with a lock of `type_`.
pub open spec fn holds(l: Seq<FlockView>, owner: ObjectId, type_: FlockType, offset: int) -> bool {
    exists|i: int| 0 <= i < l.len() && #[trigger] hit(l[i], owner, type_, offset)
}

/// The records that `owner` does not hold, in their order.
pub open spec fn others(l: Seq<FlockView>, owner: ObjectId) -> Seq<FlockView> {
    l.filter(|r: FlockView| r.owner != owner)
}

/// Index of the first record from `from` on that conflicts with `probe`; the
/// length of the list where there is none.
pub open spec fn first_conflict(l: Seq<FlockView>, probe: FlockView, from: int) -> int
    decreases l.len() - from,
{
    if from < 0 || from >= l.len() {
        l.len() as int
    } else if l[from].conflict_with(probe) {
        from
    } else {
        first_conflict(l, probe, from + 1)
    }
}

/// Index of the first record from `from` on that `owner` holds; the length of
/// the list where there is none.
pub open spec fn first_of_owner(l: Seq<FlockView>, owner: ObjectId, from: int) -> int
    decreases l.len() - from,
{
    if from < 0 || from >= l.len() {
        l.len() as int
    } else if l[from].owner == owner {
        from
    } else {
        first_of_owner(l, owner, from + 1)
    }
}

/// What a probe reads after it was tested against the list: the holder, type
/// and range of the first record in its way, or type `F_UNLCK` where nothing
/// is in its way.
pub open spec fn tested(l: Seq<FlockView>, probe: FlockView) -> FlockView {
    let i = first_conflict(l, probe, 0);
    if i < l.len() {
        probe.reset_by(l[i])
    } else {
        FlockView { type_: FlockType::F_UNLCK, ..probe }
    }
}

/// All who wait on the records of the list, record by record from its head,
/// each record's waiters first come first.
pub open spec fn all_waiters(l: Seq<FlockView>) -> Seq<Waiter>
    decreases l.len(),
{
    if l.len() == 0 {
        Seq::empty()
    } else {
        all_waiters(l.drop_last()) + l.last().waiters
    }
}

/// The list with its records at `i` and `i + 1` exchanged.
pub open spec fn swap_adjacent(l: Seq<FlockView>, i: int) -> Seq<FlockView> {
    l.update(i, l[i + 1]).update(i + 1, l[i])
}

/// One move of a walk through the list: either the walk is over, or it goes
/// on at `at`. Either way `woken` are the waiters that the move woke.
pub enum Step {
    Done { list: Seq<FlockView>, woken: Seq<Waiter> },
    Next { list: Seq<FlockView>, at: int, woken: Seq<Waiter> },
}

/// One move of settling the record at `pre`, which was put in front of its
/// owner's other records, against the record behind it.
///
/// Of one type: the record stays where it lies apart in front; goes behind a
/// neighbour that lies apart in front of it; and else is taken up by the
/// neighbour, which grows to hold both and takes its place in the walk.
///
/// Of two types: the record stays where it ends before the neighbour begins;
/// goes behind a neighbour that ends before it begins; and else takes from
/// the neighbour the bytes that both hold. The neighbour then keeps what is
/// left of it behind the record, or on both sides of it, or in front of it,
/// or is gone.
pub open spec fn settle_step(l: Seq<FlockView>, pre: int) -> Step {
    let next = pre + 1;
    if pre < 0 || next >= l.len() || l[next].owner != l[pre].owner {
        Step::Done { list: l, woken: Seq::empty() }
    } else {
        let p = l[pre];
        let n = l[next];
        if n.type_ == p.type_ {
            if p.range.in_front_of(n.range) {
                Step::Done { list: l, woken: Seq::empty() }
            } else if n.range.in_front_of(p.range) {
                Step::Next { list: swap_adjacent(l, pre), at: next, woken: Seq::empty() }
            } else {
                Step::Next {
                    list: l.update(next, n.with_range(n.range.hull(p.range))).remove(pre),
                    at: pre,
                    woken: p.waiters,
                }
            }
        } else {
            if p.range.in_front_of_or_adjacent_before(n.range) {
                Step::Done { list: l, woken: Seq::empty() }
            } else if n.range.in_front_of_or_adjacent_before(p.range) {
                Step::Next { list: swap_adjacent(l, pre), at: next, woken: Seq::empty() }
            } else if p.range.left_overlap_with(n.range) {
                let rest = RangeView { start: p.range.end + 1, end: n.range.end };
                Step::Done {
                    list: l.update(next, n.without_waiters().with_range(rest)),
                    woken: n.waiters,
                }
            } else if p.range.middle_overlap_with(n.range) {
                let left = RangeView { start: n.range.start, end: p.range.start - 1 };
                let right = RangeView { start: p.range.end + 1, end: n.range.end };
                Step::Done {
                    list: l.update(pre, n.without_waiters().with_range(left)).update(
                        next,
                        p,
                    ).insert(next + 1, n.without_waiters().with_range(right)),
                    woken: n.waiters,
                }
            } else if p.range.right_overlap_with(n.range) {
                let rest = RangeView { start: n.range.start, end: p.range.start - 1 };
                Step::Next {
                    list: l.update(pre, n.without_waiters().with_range(rest)).update(next, p),
                    at: next,
                    woken: n.waiters,
                }
            } else {
                Step::Next { list: l.remove(next), at: pre, woken: n.waiters }
            }
        }
    }
}

/// The list after the record at `pre` has settled, and the waiters woken on
/// the way, in the order of their waking.
pub open spec fn settle(l: Seq<FlockView>, pre: int) -> (Seq<FlockView>, Seq<Waiter>)
    decreases l.len() - pre,
{
    match settle_step(l, pre) {
        Step::Done { list, woken } => (list, woken),
        Step::Next { list, at, woken } => {
            let rest = settle(list, at);
            (rest.0, woken + rest.1)
        },
    }
}

/// The list after `lock` was granted, and the waiters that this woke. The
/// record is a copy of `lock` that nobody waits on. It goes to the head of
/// the list where its owner holds nothing yet, and else in front of the
/// owner's records, among which it then settles.
pub open spec fn granted(l: Seq<FlockView>, lock: FlockView) -> (Seq<FlockView>, Seq<Waiter>) {
    let at = first_of_owner(l, lock.owner, 0);
    if at >= l.len() {
        (l.insert(0, lock.without_waiters()), Seq::empty())
    } else {
        settle(l.insert(at, lock.without_waiters()), at)
    }
}

/// The list with `waiter` taken out of the queue of every record.
pub open spec fn unqueued(l: Seq<FlockView>, waiter: Waiter) -> Seq<FlockView> {
    l.map_values(|r: FlockView| r.with_waiters(without(r.waiters, waiter)))
}

/// The list after `waiter` was queued on the record at `at`: it waits there,
/// behind those who waited there before, and nowhere else.
pub open spec fn queued(l: Seq<FlockView>, at: int, waiter: Waiter) -> Seq<FlockView> {
    let rest = unqueued(l, waiter);
    rest.update(at, rest[at].with_waiters(rest[at].waiters.push(waiter)))
}

/// One move of releasing the bytes of `probe`: the record at `at` is passed
/// by where the owner of `probe` does not hold it or it holds none of those
/// bytes; else it gives them up, and keeps what is left of it behind them, or
/// on both sides of them, or in front of them, or is gone.
pub open spec fn release_step(l: Seq<FlockView>, probe: FlockView, at: int) -> Step {
    if at < 0 || at >= l.len() {
        Step::Done { list: l, woken: Seq::empty() }
    } else {
        let r = l[at];
        if r.owner != probe.owner || !r.range.overlap_with(probe.range) {
            Step::Next { list: l, at: at + 1, woken: Seq::empty() }
        } else if probe.range.left_overlap_with(r.range) {
            let rest = RangeView { start: probe.range.end + 1, end: r.range.end };
            Step::Done { list: l.update(at, r.without_waiters().with_range(rest)), woken: r.waiters }
        } else if probe.range.middle_overlap_with(r.range) {
            let left = RangeView { start: r.range.start, end: probe.range.start - 1 };
            let right = RangeView { start: probe.range.end + 1, end: r.range.end };
            Step::Done {
                list: l.update(at, r.without_waiters().with_range(left)).insert(
                    at + 1,
                    r.without_waiters().with_range(right),
                ),
                woken: r.waiters,
            }
        } else if probe.range.right_overlap_with(r.range) {
            let rest = RangeView { start: r.range.start, end: probe.range.start - 1 };
            Step::Next {
                list: l.update(at, r.without_waiters().with_range(rest)),
                at: at + 1,
                woken: r.waiters,
            }
        } else {
            Step::Next { list: l.remove(at), at, woken: r.waiters }
        }
    }
}

/// The list after the bytes of `probe` were released by its owner from the
/// record at `at` on, and the waiters woken on the way, in the order of their
/// waking.
pub open spec fn release(l: Seq<FlockView>, probe: FlockView, at: int) -> (
    Seq<FlockView>,
    Seq<Waiter>,
)
    decreases l.len() - at,
{
    match release_step(l, probe, at) {
        Step::Done { list, woken } => (list, woken),
        Step::Next { list, at: then, woken } => {
            let rest = release(list, probe, then);
            (rest.0, woken + rest.1)
        },
    }
}

/// The list after the owner of `probe` unlocked its bytes, and the waiters
/// that this woke.
pub open spec fn unlocked(l: Seq<FlockView>, probe: FlockView) -> (Seq<FlockView>, Seq<Waiter>) {
    release(l, probe, 0)
}

} // verus!
