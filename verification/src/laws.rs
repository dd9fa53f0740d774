//! What follows from the contracts of the lock list and of the boundary
//! structure.

use crate::coverage::{lemma_granted_holds, lemma_unlocked_holds};
use crate::flock::{c_flock, copied_out, FlockType, FlockView};
use crate::frame::{lemma_granted_spares_others, lemma_unlocked_spares_others};
use crate::invariants::{lemma_granted_well_formed, lemma_unlocked_well_formed};
use crate::model::{
    at_rest, granted, hit, holds, others, release, separated, unlocked, well_formed,
};
use crate::object_id::ObjectId;
use crate::range::{off_t, resolve, RangeView, RANGE_EOF};
use crate::waiter::Waiter;
use crate::wakeups::{lemma_granted_waiting, lemma_unlocked_waiting, waiting};
use vstd::prelude::*;

verus! {

/// A well-formed list shows all that is to be seen of a list at rest.
pub proof fn lemma_well_formed_at_rest(l: Seq<FlockView>)
    requires
        well_formed(l),
    ensures
        at_rest(l),
{
    assert forall|i: int, j: int|
        #![trigger l[i], l[j]]
        0 <= i < j < l.len() && l[i].owner == l[j].owner implies l[i].range.start
        < l[j].range.start by {
        assert(separated(l[i], l[j]));
        assert(l[i].range.valid());
    }
}

/// A lock was granted as asked: its bytes are its owner's, held with its
/// type; every other byte is held by whom it was, as it was; the records of
/// other owners are untouched; and whoever waited on a record waits on one
/// still, or is among `woken`, and only so.
pub open spec fn granted_as_asked(
    before: Seq<FlockView>,
    lock: FlockView,
    after: Seq<FlockView>,
    woken: Seq<Waiter>,
) -> bool {
    &&& forall|o: ObjectId, t: FlockType, x: int|
        #[trigger] holds(after, o, t, x) == if o == lock.owner && lock.range.contains(x) {
            t == lock.type_
        } else {
            holds(before, o, t, x)
        }
    &&& others(after, lock.owner) == others(before, lock.owner)
    &&& waiting(before) == waiting(after).add(woken.to_multiset())
}

/// A range was released as asked: its bytes are no longer its owner's; every
/// other byte is held by whom it was, as it was; the records of other owners
/// are untouched; and whoever waited on a record waits on one still, or is
/// among `woken`, and only so.
pub open spec fn released_as_asked(
    before: Seq<FlockView>,
    probe: FlockView,
    after: Seq<FlockView>,
    woken: Seq<Waiter>,
) -> bool {
    &&& forall|o: ObjectId, t: FlockType, x: int|
        #[trigger] holds(after, o, t, x) == (holds(before, o, t, x) && !(o == probe.owner
            && probe.range.contains(x)))
    &&& others(after, probe.owner) == others(before, probe.owner)
    &&& waiting(before) == waiting(after).add(woken.to_multiset())
}

/// Granting a lock that conflicts with no record of a well-formed list
/// grants it as asked.
pub proof fn lemma_granted_as_asked(l: Seq<FlockView>, lock: FlockView)
    requires
        well_formed(l),
        lock.range.valid(),
        lock.type_ != FlockType::F_UNLCK,
        forall|i: int| 0 <= i < l.len() ==> !(#[trigger] l[i]).conflict_with(lock),
    ensures
        granted_as_asked(l, lock, granted(l, lock).0, granted(l, lock).1),
{
    let after = granted(l, lock).0;
    assert forall|o: ObjectId, t: FlockType, x: int|
        #[trigger] holds(after, o, t, x) == if o == lock.owner && lock.range.contains(x) {
            t == lock.type_
        } else {
            holds(l, o, t, x)
        } by {
        lemma_granted_holds(l, lock, o, t, x);
    }
    lemma_granted_spares_others(l, lock);
    lemma_granted_waiting(l, lock);
}

/// Unlocking a range in a well-formed list releases it as asked.
pub proof fn lemma_released_as_asked(l: Seq<FlockView>, probe: FlockView)
    requires
        well_formed(l),
        probe.range.valid(),
    ensures
        released_as_asked(l, probe, unlocked(l, probe).0, unlocked(l, probe).1),
{
    let after = unlocked(l, probe).0;
    assert forall|o: ObjectId, t: FlockType, x: int|
        #[trigger] holds(after, o, t, x) == (holds(l, o, t, x) && !(o == probe.owner
            && probe.range.contains(x))) by {
        lemma_unlocked_holds(l, probe, o, t, x);
    }
    lemma_unlocked_spares_others(l, probe);
    lemma_unlocked_waiting(l, probe);
}

/// A release that finds no record of the probe's owner with a byte of the
/// probe from `at` on leaves the list as it is and wakes nobody.
proof fn lemma_release_nothing(l: Seq<FlockView>, probe: FlockView, at: int)
    requires
        0 <= at,
        forall|i: int|
            at <= i < l.len() ==> !((#[trigger] l[i]).owner == probe.owner
                && l[i].range.overlap_with(probe.range)),
    ensures
        release(l, probe, at) == (l, Seq::<Waiter>::empty()),
    decreases l.len() - at,
{
    if at < l.len() {
        assert(!(l[at].owner == probe.owner && l[at].range.overlap_with(probe.range)));
        lemma_release_nothing(l, probe, at + 1);
        assert(Seq::<Waiter>::empty() + Seq::<Waiter>::empty() =~= Seq::<Waiter>::empty());
    }
}

/// After an unlock the owner of the probe holds no byte of it.
pub proof fn lemma_unlocked_clear(l: Seq<FlockView>, probe: FlockView)
    requires
        well_formed(l),
        probe.range.valid(),
    ensures
        forall|i: int|
            0 <= i < unlocked(l, probe).0.len() ==> !((#[trigger] unlocked(l, probe).0[i]).owner
                == probe.owner && unlocked(l, probe).0[i].range.overlap_with(probe.range)),
{
    let f = unlocked(l, probe).0;
    lemma_unlocked_well_formed(l, probe);
    assert forall|i: int| 0 <= i < f.len() implies !((#[trigger] f[i]).owner == probe.owner
        && f[i].range.overlap_with(probe.range)) by {
        if f[i].owner == probe.owner && f[i].range.overlap_with(probe.range) {
            assert(f[i].range.valid());
            let x = if f[i].range.start > probe.range.start {
                f[i].range.start
            } else {
                probe.range.start
            };
            assert(hit(f[i], probe.owner, f[i].type_, x));
            lemma_unlocked_holds(l, probe, probe.owner, f[i].type_, x);
        }
    }
}

/// Unlocking a range twice is the same as unlocking it once: the second
/// unlock leaves the list as the first left it, and wakes nobody.
pub proof fn lemma_unlock_twice(l: Seq<FlockView>, probe: FlockView)
    requires
        well_formed(l),
        probe.range.valid(),
    ensures
        unlocked(unlocked(l, probe).0, probe) == (unlocked(l, probe).0, Seq::<Waiter>::empty()),
{
    lemma_unlocked_clear(l, probe);
    lemma_release_nothing(unlocked(l, probe).0, probe, 0);
}

/// Where an owner holds every byte from `lo` to `hi` with locks of one type,
/// one record of a well-formed list holds them all.
pub proof fn lemma_one_record_spans(
    l: Seq<FlockView>,
    o: ObjectId,
    t: FlockType,
    lo: int,
    hi: int,
)
    requires
        well_formed(l),
        lo <= hi,
        forall|x: int| lo <= x <= hi ==> holds(l, o, t, x),
    ensures
        exists|i: int|
            0 <= i < l.len() && #[trigger] hit(l[i], o, t, lo) && l[i].range.cover(
                RangeView { start: lo, end: hi },
            ),
{
    assert(holds(l, o, t, lo));
    let i = choose|i: int| 0 <= i < l.len() && #[trigger] hit(l[i], o, t, lo);
    if l[i].range.end < hi {
        let y = l[i].range.end + 1;
        assert(holds(l, o, t, y));
        let j = choose|j: int| 0 <= j < l.len() && #[trigger] hit(l[j], o, t, y);
        if i < j {
            assert(separated(l[i], l[j]));
        } else if j < i {
            assert(separated(l[j], l[i]));
        }
    }
}

/// A lock that an owner sets on a range that overlaps or touches a range on
/// which the owner has just set a lock of the same type leaves one record
/// that holds both ranges, and no other record of the owner with a byte of
/// them.
pub proof fn lemma_self_merge(l: Seq<FlockView>, first: FlockView, second: FlockView)
    requires
        well_formed(l),
        first.range.valid(),
        second.range.valid(),
        first.owner == second.owner,
        first.type_ == second.type_,
        first.type_ != FlockType::F_UNLCK,
        second.range.adjacent_or_overlap_with(first.range),
        forall|i: int| 0 <= i < l.len() ==> !(#[trigger] l[i]).conflict_with(first),
        forall|i: int|
            0 <= i < granted(l, first).0.len() ==> !(#[trigger] granted(
                l,
                first,
            ).0[i]).conflict_with(second),
    ensures
        ({
            let after = granted(granted(l, first).0, second).0;
            let both = first.range.hull(second.range);
            exists|i: int|
                {
                    &&& 0 <= i < after.len()
                    &&& #[trigger] hit(after[i], first.owner, first.type_, both.start)
                    &&& after[i].range.cover(both)
                    &&& forall|j: int|
                        0 <= j < after.len() && j != i && (#[trigger] after[j]).owner
                            == first.owner ==> !after[j].range.overlap_with(both)
                }
        }),
{
    let mid = granted(l, first).0;
    let after = granted(mid, second).0;
    let both = first.range.hull(second.range);
    let o = first.owner;
    let t = first.type_;
    lemma_granted_well_formed(l, first);
    lemma_granted_well_formed(mid, second);
    assert forall|x: int| both.start <= x <= both.end implies holds(after, o, t, x) by {
        lemma_granted_holds(l, first, o, t, x);
        lemma_granted_holds(mid, second, o, t, x);
    }
    lemma_one_record_spans(after, o, t, both.start, both.end);
    let i = choose|i: int|
        0 <= i < after.len() && #[trigger] hit(after[i], o, t, both.start) && after[i].range.cover(
            both,
        );
    assert forall|j: int|
        0 <= j < after.len() && j != i && (#[trigger] after[j]).owner == o implies !after[j].range.overlap_with(
        both,
    ) by {
        if j < i {
            assert(separated(after[j], after[i]));
        } else {
            assert(separated(after[i], after[j]));
        }
    }
}

/// A range that a request resolved to, and that ends before the end of the
/// offset space, is read back from the structure it was copied out to, as a
/// range counted from the start of the file, wherever the file then stands.
pub proof fn lemma_copy_out_round_trip(
    request: c_flock,
    position: off_t,
    size: off_t,
    lock: FlockView,
    before: c_flock,
    position_then: off_t,
    size_then: off_t,
)
    requires
        resolve(
            request.l_whence,
            request.l_start as int,
            request.l_len as int,
            position as int,
            size as int,
        ) == Ok::<RangeView, crate::FlockError>(lock.range),
        lock.range.end < RANGE_EOF,
        lock.type_ != FlockType::F_UNLCK,
    ensures
        copied_out(before, lock).l_whence == 0,
        resolve(
            copied_out(before, lock).l_whence,
            copied_out(before, lock).l_start as int,
            copied_out(before, lock).l_len as int,
            position_then as int,
            size_then as int,
        ) == Ok::<RangeView, crate::FlockError>(lock.range),
{
    let r = lock.range;
    let out = copied_out(before, lock);
    assert(0 <= r.start <= r.end <= i64::MAX);
    assert(out.l_start == r.start);
    assert(out.l_len == r.end - r.start + 1);
}

} // verus!
