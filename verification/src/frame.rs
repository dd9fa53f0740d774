//! Granting and releasing touch no record but of the requester.

use crate::flock::FlockView;
use crate::model::{
    first_of_owner, granted, others, release, release_step, settle, settle_step, unlocked, Step,
};
use crate::object_id::ObjectId;
use vstd::prelude::*;

verus! {

/// Every record of `s` is one of `owner`.
pub open spec fn all_of(s: Seq<FlockView>, owner: ObjectId) -> bool {
    forall|i: int| 0 <= i < s.len() ==> (#[trigger] s[i]).owner == owner
}

/// Among the records of other owners, none is of `owner`'s.
proof fn lemma_others_of_own(s: Seq<FlockView>, owner: ObjectId)
    requires
        all_of(s, owner),
    ensures
        others(s, owner) == Seq::<FlockView>::empty(),
{
    let pred = |r: FlockView| r.owner != owner;
    assert(s.all(|x: FlockView| !pred(x))) by {
        assert forall|i: int| 0 <= i < s.len() implies !pred(#[trigger] s[i]) by {}
    }
    s.lemma_all_neg_filter_empty(pred);
    assert(s.filter(pred) =~= Seq::<FlockView>::empty());
}

/// The records of other owners are those in front of and those behind a run
/// of records of `owner`, whatever the run holds.
proof fn lemma_others_around(
    a: Seq<FlockView>,
    mid: Seq<FlockView>,
    b: Seq<FlockView>,
    owner: ObjectId,
)
    requires
        all_of(mid, owner),
    ensures
        others(a + mid + b, owner) == others(a, owner) + others(b, owner),
{
    let pred = |r: FlockView| r.owner != owner;
    Seq::filter_distributes_over_add(a + mid, b, pred);
    Seq::filter_distributes_over_add(a, mid, pred);
    lemma_others_of_own(mid, owner);
    assert(others(a, owner) + Seq::<FlockView>::empty() =~= others(a, owner));
}

/// A list that differs from another only in a run of records of `owner`
/// holds the same records of other owners.
proof fn lemma_others_respliced(
    l: Seq<FlockView>,
    l2: Seq<FlockView>,
    from: int,
    to: int,
    to2: int,
    owner: ObjectId,
)
    requires
        0 <= from <= to <= l.len(),
        from <= to2 <= l2.len(),
        l.len() - to == l2.len() - to2,
        forall|i: int| 0 <= i < from ==> #[trigger] l2[i] == l[i],
        forall|i: int| to2 <= i < l2.len() ==> #[trigger] l2[i] == l[i - to2 + to],
        all_of(l.subrange(from, to), owner),
        all_of(l2.subrange(from, to2), owner),
    ensures
        others(l2, owner) == others(l, owner),
{
    let a = l.subrange(0, from);
    let b = l.subrange(to, l.len() as int);
    assert(l =~= a + l.subrange(from, to) + b);
    assert(l2.subrange(0, from) =~= a);
    assert(l2.subrange(to2, l2.len() as int) =~= b);
    assert(l2 =~= a + l2.subrange(from, to2) + b);
    lemma_others_around(a, l.subrange(from, to), b, owner);
    lemma_others_around(a, l2.subrange(from, to2), b, owner);
}

/// One move of settling leaves the records of other owners as they are, and
/// the next record to settle is again one of the same owner.
proof fn lemma_settle_step_spares_others(l: Seq<FlockView>, pre: int)
    requires
        0 <= pre < l.len(),
    ensures
        match settle_step(l, pre) {
            Step::Done { list, woken } => others(list, l[pre].owner) == others(l, l[pre].owner),
            Step::Next { list, at, woken } => others(list, l[pre].owner) == others(
                l,
                l[pre].owner,
            ) && 0 <= at < list.len() && list[at].owner == l[pre].owner && list.len() - at
                < l.len() - pre,
        },
{
    let next = pre + 1;
    let owner = l[pre].owner;
    if next >= l.len() || l[next].owner != l[pre].owner {
    } else {
        match settle_step(l, pre) {
            Step::Done { list, woken } => {
                let to2 = list.len() - (l.len() - (pre + 2));
                lemma_others_respliced(l, list, pre, pre + 2, to2, owner);
            },
            Step::Next { list, at, woken } => {
                let to2 = list.len() - (l.len() - (pre + 2));
                lemma_others_respliced(l, list, pre, pre + 2, to2, owner);
            },
        }
    }
}

/// Settling a record leaves the records of other owners as they are.
proof fn lemma_settle_spares_others(l: Seq<FlockView>, pre: int)
    requires
        0 <= pre < l.len(),
    ensures
        others(settle(l, pre).0, l[pre].owner) == others(l, l[pre].owner),
    decreases l.len() - pre,
{
    lemma_settle_step_spares_others(l, pre);
    match settle_step(l, pre) {
        Step::Done { list, woken } => {},
        Step::Next { list, at, woken } => {
            lemma_settle_spares_others(list, at);
        },
    }
}

/// Granting a lock leaves the records of every other owner as they are:
/// which they are, in which order, and who waits on them.
pub proof fn lemma_granted_spares_others(l: Seq<FlockView>, lock: FlockView)
    ensures
        others(granted(l, lock).0, lock.owner) == others(l, lock.owner),
{
    let at = first_of_owner(l, lock.owner, 0);
    let record = lock.without_waiters();
    crate::invariants::lemma_first_of_owner(l, lock.owner, 0);
    if at >= l.len() {
        lemma_others_respliced(l, l.insert(0, record), 0, 0, 1, lock.owner);
    } else {
        let l1 = l.insert(at, record);
        lemma_others_respliced(l, l1, at, at, at + 1, lock.owner);
        lemma_settle_spares_others(l1, at);
    }
}

/// One move of releasing leaves the records of other owners as they are.
proof fn lemma_release_step_spares_others(l: Seq<FlockView>, probe: FlockView, at: int)
    requires
        0 <= at,
    ensures
        match release_step(l, probe, at) {
            Step::Done { list, woken } => others(list, probe.owner) == others(l, probe.owner),
            Step::Next { list, at: then, woken } => others(list, probe.owner) == others(
                l,
                probe.owner,
            ) && 0 <= then && list.len() - then < l.len() - at,
        },
{
    if at < l.len() {
        let r = l[at];
        if r.owner != probe.owner || !r.range.overlap_with(probe.range) {
        } else {
            match release_step(l, probe, at) {
                Step::Done { list, woken } => {
                    let to2 = list.len() - (l.len() - (at + 1));
                    lemma_others_respliced(l, list, at, at + 1, to2, probe.owner);
                },
                Step::Next { list, at: then, woken } => {
                    let to2 = list.len() - (l.len() - (at + 1));
                    lemma_others_respliced(l, list, at, at + 1, to2, probe.owner);
                },
            }
        }
    }
}

/// Releasing from `at` on leaves the records of other owners as they are.
proof fn lemma_release_spares_others(l: Seq<FlockView>, probe: FlockView, at: int)
    requires
        0 <= at,
    ensures
        others(release(l, probe, at).0, probe.owner) == others(l, probe.owner),
    decreases l.len() - at,
{
    lemma_release_step_spares_others(l, probe, at);
    match release_step(l, probe, at) {
        Step::Done { list, woken } => {},
        Step::Next { list, at: then, woken } => {
            lemma_release_spares_others(list, probe, then);
        },
    }
}

/// Unlocking leaves the records of every other owner as they are: which they
/// are, in which order, and who waits on them.
pub proof fn lemma_unlocked_spares_others(l: Seq<FlockView>, probe: FlockView)
    ensures
        others(unlocked(l, probe).0, probe.owner) == others(l, probe.owner),
{
    lemma_release_spares_others(l, probe, 0);
}

} // verus!
