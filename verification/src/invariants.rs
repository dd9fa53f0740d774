//! Granting and releasing keep a lock list well formed.

use crate::flock::{FlockType, FlockView};
use crate::model::{
    conflict_free, first_conflict, first_of_owner, granted, owners_contiguous, queued,
    records_valid, release, release_step, separated, settle, settle_step, swap_adjacent, unlocked,
    well_formed, Step,
};
use crate::object_id::ObjectId;
use crate::range::RangeView;
use crate::waiter::Waiter;
use vstd::prelude::*;

verus! {

/// Any two records of one owner are `separated`, the earlier first, but for
/// the pairs whose earlier record stands at `pre`.
pub open spec fn sorted_except(l: Seq<FlockView>, pre: int) -> bool {
    forall|i: int, j: int|
        #![trigger l[i], l[j]]
        0 <= i < j < l.len() && i != pre && l[i].owner == l[j].owner ==> separated(l[i], l[j])
}

/// What holds of a lock list while the record at `pre` settles: all that
/// holds of a list at rest, but that the record at `pre` may still overlap or
/// touch records of its owner that stand behind it.
pub open spec fn orderly(l: Seq<FlockView>, pre: int) -> bool {
    &&& records_valid(l)
    &&& owners_contiguous(l)
    &&& conflict_free(l)
    &&& sorted_except(l, pre)
}

/// `x` is a record of the owner and type of `r` that holds no byte but of `r`.
pub open spec fn part_of(x: FlockView, r: FlockView) -> bool {
    &&& x.owner == r.owner
    &&& x.type_ == r.type_
    &&& x.range.valid()
    &&& r.range.cover(x.range)
}

/// The search for a conflict from `from` on ends at the first record that
/// conflicts with the probe, or at the end of the list.
pub proof fn lemma_first_conflict(l: Seq<FlockView>, probe: FlockView, from: int)
    requires
        0 <= from <= l.len(),
    ensures
        from <= first_conflict(l, probe, from) <= l.len(),
        first_conflict(l, probe, from) < l.len() ==> l[first_conflict(
            l,
            probe,
            from,
        )].conflict_with(probe),
        forall|i: int|
            from <= i < first_conflict(l, probe, from) ==> !(#[trigger] l[i]).conflict_with(probe),
    decreases l.len() - from,
{
    if from < l.len() && !l[from].conflict_with(probe) {
        lemma_first_conflict(l, probe, from + 1);
    }
}

/// The search for a record of `owner` from `from` on ends at the first such
/// record, or at the end of the list.
pub proof fn lemma_first_of_owner(l: Seq<FlockView>, owner: ObjectId, from: int)
    requires
        0 <= from <= l.len(),
    ensures
        from <= first_of_owner(l, owner, from) <= l.len(),
        first_of_owner(l, owner, from) < l.len() ==> l[first_of_owner(l, owner, from)].owner
            == owner,
        forall|i: int|
            from <= i < first_of_owner(l, owner, from) ==> (#[trigger] l[i]).owner != owner,
    decreases l.len() - from,
{
    if from < l.len() && l[from].owner != owner {
        lemma_first_of_owner(l, owner, from + 1);
    }
}

/// A list whose records differ from those of a well-formed list in who
/// waits on them only is well formed.
proof fn lemma_requeued(l: Seq<FlockView>, l2: Seq<FlockView>)
    requires
        well_formed(l),
        l2.len() == l.len(),
        forall|i: int| 0 <= i < l.len() ==> #[trigger] l2[i] == l[i].with_waiters(l2[i].waiters),
    ensures
        well_formed(l2),
{
    assert forall|i: int| 0 <= i < l2.len() implies (#[trigger] l2[i]).range.valid() && l2[i].type_
        != FlockType::F_UNLCK by {
        assert(l[i].range.valid());
    }
    assert forall|i: int, j: int, m: int|
        #![trigger l2[i], l2[j], l2[m]]
        0 <= i < j < m < l2.len() && l2[i].owner == l2[m].owner implies l2[j].owner
        == l2[i].owner by {
        assert(l[i].owner == l[m].owner ==> l[j].owner == l[i].owner);
    }
    assert forall|i: int, j: int|
        #![trigger l2[i], l2[j]]
        0 <= i < l2.len() && 0 <= j < l2.len() implies !l2[i].conflict_with(l2[j]) by {
        assert(!l[i].conflict_with(l[j]));
    }
    assert forall|i: int, j: int|
        #![trigger l2[i], l2[j]]
        0 <= i < j < l2.len() && l2[i].owner == l2[j].owner implies separated(l2[i], l2[j]) by {
        assert(separated(l[i], l[j]));
    }
}

/// Queueing a waiter on a record keeps the list well formed.
pub proof fn lemma_queued_well_formed(l: Seq<FlockView>, at: int, waiter: Waiter)
    requires
        well_formed(l),
        0 <= at < l.len(),
    ensures
        well_formed(queued(l, at, waiter)),
{
    lemma_requeued(l, queued(l, at, waiter));
}

/// A record may be replaced by a part of itself.
proof fn lemma_shrunk(l: Seq<FlockView>, pre: int, k: int, x: FlockView)
    requires
        orderly(l, pre),
        0 <= k < l.len(),
        part_of(x, l[k]),
    ensures
        orderly(l.update(k, x), pre),
{
    let l2 = l.update(k, x);
    assert forall|i: int| 0 <= i < l2.len() implies (#[trigger] l2[i]).range.valid() && l2[i].type_
        != FlockType::F_UNLCK by {
        assert(l[i].range.valid());
    }
    assert forall|i: int, j: int, m: int|
        #![trigger l2[i], l2[j], l2[m]]
        0 <= i < j < m < l2.len() && l2[i].owner == l2[m].owner implies l2[j].owner
        == l2[i].owner by {
        assert(l[i].owner == l[m].owner ==> l[j].owner == l[i].owner);
    }
    assert forall|i: int, j: int|
        #![trigger l2[i], l2[j]]
        0 <= i < l2.len() && 0 <= j < l2.len() implies !l2[i].conflict_with(l2[j]) by {
        assert(!l[i].conflict_with(l[j]));
    }
    assert forall|i: int, j: int|
        #![trigger l2[i], l2[j]]
        0 <= i < j < l2.len() && i != pre && l2[i].owner == l2[j].owner implies separated(
        l2[i],
        l2[j],
    ) by {
        assert(separated(l[i], l[j]));
        assert(l[i].range.valid() && l[j].range.valid());
    }
}

/// A record behind the settling one may be removed.
proof fn lemma_removed(l: Seq<FlockView>, pre: int, k: int)
    requires
        orderly(l, pre),
        pre < k < l.len(),
        0 <= k,
    ensures
        orderly(l.remove(k), pre),
{
    let l2 = l.remove(k);
    assert forall|i: int| 0 <= i < l2.len() implies (#[trigger] l2[i]).range.valid() && l2[i].type_
        != FlockType::F_UNLCK by {
        let a = if i < k { i } else { i + 1 };
        assert(l[a].range.valid());
    }
    assert forall|i: int, j: int, m: int|
        #![trigger l2[i], l2[j], l2[m]]
        0 <= i < j < m < l2.len() && l2[i].owner == l2[m].owner implies l2[j].owner
        == l2[i].owner by {
        let a = if i < k { i } else { i + 1 };
        let b = if j < k { j } else { j + 1 };
        let c = if m < k { m } else { m + 1 };
        assert(l[a].owner == l[c].owner ==> l[b].owner == l[a].owner);
    }
    assert forall|i: int, j: int|
        #![trigger l2[i], l2[j]]
        0 <= i < l2.len() && 0 <= j < l2.len() implies !l2[i].conflict_with(l2[j]) by {
        let a = if i < k { i } else { i + 1 };
        let b = if j < k { j } else { j + 1 };
        assert(!l[a].conflict_with(l[b]));
    }
    assert forall|i: int, j: int|
        #![trigger l2[i], l2[j]]
        0 <= i < j < l2.len() && i != pre && l2[i].owner == l2[j].owner implies separated(
        l2[i],
        l2[j],
    ) by {
        let a = if i < k { i } else { i + 1 };
        let b = if j < k { j } else { j + 1 };
        assert(separated(l[a], l[b]));
    }
}

/// The settling record may go behind a neighbour of its owner that lies
/// before it.
proof fn lemma_swapped(l: Seq<FlockView>, pre: int)
    requires
        orderly(l, pre),
        0 <= pre,
        pre + 1 < l.len(),
        l[pre + 1].owner == l[pre].owner,
        separated(l[pre + 1], l[pre]),
    ensures
        orderly(swap_adjacent(l, pre), pre + 1),
{
    let l2 = swap_adjacent(l, pre);
    let next = pre + 1;
    assert forall|i: int| 0 <= i < l2.len() implies (#[trigger] l2[i]).range.valid() && l2[i].type_
        != FlockType::F_UNLCK by {
        let a = if i == pre { next } else if i == next { pre } else { i };
        assert(l[a].range.valid());
    }
    assert forall|i: int, j: int, m: int|
        #![trigger l2[i], l2[j], l2[m]]
        0 <= i < j < m < l2.len() && l2[i].owner == l2[m].owner implies l2[j].owner
        == l2[i].owner by {
        assert(l2[i].owner == l[i].owner);
        assert(l2[j].owner == l[j].owner);
        assert(l2[m].owner == l[m].owner);
        assert(l[i].owner == l[m].owner ==> l[j].owner == l[i].owner);
    }
    assert forall|i: int, j: int|
        #![trigger l2[i], l2[j]]
        0 <= i < l2.len() && 0 <= j < l2.len() implies !l2[i].conflict_with(l2[j]) by {
        let a = if i == pre { next } else if i == next { pre } else { i };
        let b = if j == pre { next } else if j == next { pre } else { j };
        assert(!l[a].conflict_with(l[b]));
    }
    assert forall|i: int, j: int|
        #![trigger l2[i], l2[j]]
        0 <= i < j < l2.len() && i != next && l2[i].owner == l2[j].owner implies separated(
        l2[i],
        l2[j],
    ) by {
        if i == pre {
            if j == next {
            } else {
                assert(separated(l[next], l[j]));
            }
        } else {
            // i < pre
            if j == pre {
                assert(separated(l[i], l[next]));
            } else if j == next {
                assert(separated(l[i], l[pre]));
            } else {
                assert(separated(l[i], l[j]));
            }
        }
    }
}

/// The settling record may be taken up by a neighbour of its owner and type
/// that it overlaps or touches.
proof fn lemma_merged(l: Seq<FlockView>, pre: int)
    requires
        orderly(l, pre),
        0 <= pre,
        pre + 1 < l.len(),
        l[pre + 1].owner == l[pre].owner,
        l[pre + 1].type_ == l[pre].type_,
        l[pre].range.adjacent_or_overlap_with(l[pre + 1].range),
    ensures
        orderly(
            l.update(pre + 1, l[pre + 1].with_range(l[pre + 1].range.hull(l[pre].range))).remove(
                pre,
            ),
            pre,
        ),
{
    let next = pre + 1;
    let p = l[pre];
    let n = l[next];
    let merged = n.with_range(n.range.hull(p.range));
    let l2 = l.update(next, merged).remove(pre);
    assert(p.range.valid() && n.range.valid());
    assert forall|i: int| 0 <= i < l2.len() implies (#[trigger] l2[i]).range.valid() && l2[i].type_
        != FlockType::F_UNLCK by {
        let a = if i < pre { i } else { i + 1 };
        assert(l[a].range.valid());
    }
    assert forall|i: int, j: int, m: int|
        #![trigger l2[i], l2[j], l2[m]]
        0 <= i < j < m < l2.len() && l2[i].owner == l2[m].owner implies l2[j].owner
        == l2[i].owner by {
        let a = if i < pre { i } else { i + 1 };
        let b = if j < pre { j } else { j + 1 };
        let c = if m < pre { m } else { m + 1 };
        assert(l2[i].owner == l[a].owner);
        assert(l2[j].owner == l[b].owner);
        assert(l2[m].owner == l[c].owner);
        assert(l[a].owner == l[c].owner ==> l[b].owner == l[a].owner);
    }
    assert forall|i: int, j: int|
        #![trigger l2[i], l2[j]]
        0 <= i < l2.len() && 0 <= j < l2.len() implies !l2[i].conflict_with(l2[j]) by {
        let a = if i < pre { i } else { i + 1 };
        let b = if j < pre { j } else { j + 1 };
        assert(!l[a].conflict_with(l[b]));
        assert(!l[pre].conflict_with(l[b]));
        assert(!l[a].conflict_with(l[pre]));
    }
    assert forall|i: int, j: int|
        #![trigger l2[i], l2[j]]
        0 <= i < j < l2.len() && i != pre && l2[i].owner == l2[j].owner implies separated(
        l2[i],
        l2[j],
    ) by {
        let a = if i < pre { i } else { i + 1 };
        let b = if j < pre { j } else { j + 1 };
        assert(separated(l[a], l[b]));
        if j == pre {
            assert(separated(l[i], l[pre]));
        }
    }
}

/// A part of a record that was cut back may be put behind a record of its
/// owner, in front of the owner's records that lie behind it.
proof fn lemma_inserted_behind(l: Seq<FlockView>, k: int, x: FlockView, whole: FlockView)
    requires
        well_formed(l),
        0 < k <= l.len(),
        part_of(x, whole),
        x.type_ != FlockType::F_UNLCK,
        l[k - 1].owner == x.owner,
        separated(l[k - 1], x),
        forall|j: int| k <= j < l.len() && (#[trigger] l[j]).owner == x.owner ==> separated(x, l[j]),
        forall|j: int| 0 <= j < l.len() ==> !whole.conflict_with(#[trigger] l[j]),
    ensures
        well_formed(l.insert(k, x)),
{
    let l2 = l.insert(k, x);
    assert forall|i: int| 0 <= i < l2.len() implies (#[trigger] l2[i]).range.valid() && l2[i].type_
        != FlockType::F_UNLCK by {
        if i != k {
            let a = if i < k { i } else { i - 1 };
            assert(l[a].range.valid());
        }
    }
    assert forall|i: int, j: int, m: int|
        #![trigger l2[i], l2[j], l2[m]]
        0 <= i < j < m < l2.len() && l2[i].owner == l2[m].owner implies l2[j].owner
        == l2[i].owner by {
        let a = if i < k { i } else { i - 1 };
        let b = if j < k { j } else { j - 1 };
        let c = if m < k { m } else { m - 1 };
        assert(l2[i].owner == l[a].owner);
        assert(l2[j].owner == l[b].owner);
        assert(l2[m].owner == l[c].owner);
        if a < b && b < c {
            assert(l[a].owner == l[c].owner ==> l[b].owner == l[a].owner);
        }
    }
    assert forall|i: int, j: int|
        #![trigger l2[i], l2[j]]
        0 <= i < l2.len() && 0 <= j < l2.len() implies !l2[i].conflict_with(l2[j]) by {
        let a = if i < k { i } else { i - 1 };
        let b = if j < k { j } else { j - 1 };
        assert(!l[a].conflict_with(l[b]));
        assert(!whole.conflict_with(l[b]));
        assert(!whole.conflict_with(l[a]));
    }
    assert forall|i: int, j: int|
        #![trigger l2[i], l2[j]]
        0 <= i < j < l2.len() && l2[i].owner == l2[j].owner implies separated(l2[i], l2[j]) by {
        let a = if i < k { i } else { i - 1 };
        let b = if j < k { j } else { j - 1 };
        if i == k {
            assert(separated(x, l[b]));
        } else if j == k {
            if a < k - 1 {
                assert(separated(l[a], l[k - 1]));
                assert(l[k - 1].range.valid());
            }
        } else {
            assert(separated(l[a], l[b]));
        }
    }
}

/// A record that conflicts with none may be put in front of the first record
/// of its owner, where it is yet to settle.
pub proof fn lemma_inserted_front(l: Seq<FlockView>, at: int, x: FlockView)
    requires
        well_formed(l),
        0 <= at < l.len(),
        x.range.valid(),
        x.type_ != FlockType::F_UNLCK,
        l[at].owner == x.owner,
        forall|i: int| 0 <= i < at ==> (#[trigger] l[i]).owner != x.owner,
        forall|j: int| 0 <= j < l.len() ==> !x.conflict_with(#[trigger] l[j]),
    ensures
        orderly(l.insert(at, x), at),
{
    let l2 = l.insert(at, x);
    let k = at;
    assert forall|i: int| 0 <= i < l2.len() implies (#[trigger] l2[i]).range.valid() && l2[i].type_
        != FlockType::F_UNLCK by {
        if i != k {
            let a = if i < k { i } else { i - 1 };
            assert(l[a].range.valid());
        }
    }
    assert forall|i: int, j: int, m: int|
        #![trigger l2[i], l2[j], l2[m]]
        0 <= i < j < m < l2.len() && l2[i].owner == l2[m].owner implies l2[j].owner
        == l2[i].owner by {
        let a = if i < k { i } else if i == k { k } else { i - 1 };
        let b = if j < k { j } else if j == k { k } else { j - 1 };
        let c = if m < k { m } else if m == k { k } else { m - 1 };
        assert(l2[i].owner == l[a].owner);
        assert(l2[j].owner == l[b].owner);
        assert(l2[m].owner == l[c].owner);
        if a < b && b < c {
            assert(l[a].owner == l[c].owner ==> l[b].owner == l[a].owner);
        }
    }
    assert forall|i: int, j: int|
        #![trigger l2[i], l2[j]]
        0 <= i < l2.len() && 0 <= j < l2.len() implies !l2[i].conflict_with(l2[j]) by {
        let a = if i < k { i } else if i == k { k } else { i - 1 };
        let b = if j < k { j } else if j == k { k } else { j - 1 };
        assert(!l[a].conflict_with(l[b]));
        assert(!x.conflict_with(l[b]));
        assert(!x.conflict_with(l[a]));
    }
    assert forall|i: int, j: int|
        #![trigger l2[i], l2[j]]
        0 <= i < j < l2.len() && i != at && l2[i].owner == l2[j].owner implies separated(
        l2[i],
        l2[j],
    ) by {
        let a = if i < k { i } else { i - 1 };
        let b = if j < k { j } else { j - 1 };
        if j == k {
            assert(l[a].owner != x.owner);
        } else {
            assert(separated(l[a], l[b]));
        }
    }
}

/// A record that conflicts with none may be put at the head of a list in
/// which its owner holds nothing.
proof fn lemma_inserted_absent(l: Seq<FlockView>, x: FlockView)
    requires
        well_formed(l),
        x.range.valid(),
        x.type_ != FlockType::F_UNLCK,
        forall|i: int| 0 <= i < l.len() ==> (#[trigger] l[i]).owner != x.owner,
        forall|j: int| 0 <= j < l.len() ==> !x.conflict_with(#[trigger] l[j]),
    ensures
        well_formed(l.insert(0, x)),
{
    let l2 = l.insert(0, x);
    assert forall|i: int| 0 <= i < l2.len() implies (#[trigger] l2[i]).range.valid() && l2[i].type_
        != FlockType::F_UNLCK by {
        if i != 0 {
            assert(l[i - 1].range.valid());
        }
    }
    assert forall|i: int, j: int, m: int|
        #![trigger l2[i], l2[j], l2[m]]
        0 <= i < j < m < l2.len() && l2[i].owner == l2[m].owner implies l2[j].owner
        == l2[i].owner by {
        if i == 0 {
            assert(l[m - 1].owner != x.owner);
        } else {
            assert(l[i - 1].owner == l[m - 1].owner ==> l[j - 1].owner == l[i - 1].owner);
        }
    }
    assert forall|i: int, j: int|
        #![trigger l2[i], l2[j]]
        0 <= i < l2.len() && 0 <= j < l2.len() implies !l2[i].conflict_with(l2[j]) by {
        if i == 0 && j > 0 {
            assert(!x.conflict_with(l[j - 1]));
        } else if j == 0 && i > 0 {
            assert(!x.conflict_with(l[i - 1]));
        } else if i > 0 && j > 0 {
            assert(!l[i - 1].conflict_with(l[j - 1]));
        }
    }
    assert forall|i: int, j: int|
        #![trigger l2[i], l2[j]]
        0 <= i < j < l2.len() && l2[i].owner == l2[j].owner implies separated(l2[i], l2[j]) by {
        if i == 0 {
            assert(l[j - 1].owner != x.owner);
        } else {
            assert(separated(l[i - 1], l[j - 1]));
        }
    }
}

/// The settling record has settled once it is `separated` from the record
/// behind it, or no record of its owner stands behind it.
proof fn lemma_done(l: Seq<FlockView>, pre: int)
    requires
        orderly(l, pre),
        0 <= pre < l.len(),
        pre + 1 < l.len() && l[pre + 1].owner == l[pre].owner ==> separated(l[pre], l[pre + 1]),
    ensures
        well_formed(l),
{
    assert forall|i: int, j: int|
        #![trigger l[i], l[j]]
        0 <= i < j < l.len() && l[i].owner == l[j].owner implies separated(l[i], l[j]) by {
        if i == pre && j != pre + 1 {
            assert(l[pre].owner == l[j].owner ==> l[pre + 1].owner == l[pre].owner);
            assert(separated(l[pre + 1], l[j]));
            assert(l[pre + 1].range.valid());
        }
    }
}

/// One move of settling keeps the list orderly, and leaves it well formed
/// where the walk is over.
pub proof fn lemma_settle_step(l: Seq<FlockView>, pre: int)
    requires
        orderly(l, pre),
        0 <= pre < l.len(),
    ensures
        match settle_step(l, pre) {
            Step::Done { list, woken } => well_formed(list),
            Step::Next { list, at, woken } => orderly(list, at) && 0 <= at < list.len()
                && list.len() - at < l.len() - pre,
        },
{
    let next = pre + 1;
    if next >= l.len() || l[next].owner != l[pre].owner {
        lemma_done(l, pre);
    } else {
        let p = l[pre];
        let n = l[next];
        assert(p.range.valid() && n.range.valid());
        if n.type_ == p.type_ {
            if p.range.in_front_of(n.range) {
                lemma_done(l, pre);
            } else if n.range.in_front_of(p.range) {
                lemma_swapped(l, pre);
            } else {
                lemma_merged(l, pre);
            }
        } else {
            if p.range.in_front_of_or_adjacent_before(n.range) {
                lemma_done(l, pre);
            } else if n.range.in_front_of_or_adjacent_before(p.range) {
                lemma_swapped(l, pre);
            } else if p.range.left_overlap_with(n.range) {
                let rest = RangeView { start: p.range.end + 1, end: n.range.end };
                let x = n.without_waiters().with_range(rest);
                lemma_shrunk(l, pre, next, x);
                lemma_done(l.update(next, x), pre);
            } else if p.range.middle_overlap_with(n.range) {
                let left = RangeView { start: n.range.start, end: p.range.start - 1 };
                let right = RangeView { start: p.range.end + 1, end: n.range.end };
                let x = n.without_waiters().with_range(left);
                let y = n.without_waiters().with_range(right);
                let l1 = l.update(next, x);
                lemma_shrunk(l, pre, next, x);
                lemma_swapped(l1, pre);
                let l2 = swap_adjacent(l1, pre);
                assert(l2 =~= l.update(pre, x).update(next, p));
                assert(next + 1 < l2.len() && l2[next + 1].owner == l2[next].owner ==> separated(
                    l2[next],
                    l2[next + 1],
                )) by {
                    if next + 1 < l2.len() && l2[next + 1].owner == l2[next].owner {
                        assert(separated(l[next], l[next + 1]));
                    }
                }
                lemma_done(l2, next);
                assert forall|j: int|
                    next + 1 <= j < l2.len() && (#[trigger] l2[j]).owner == y.owner implies separated(
                    y,
                    l2[j],
                ) by {
                    assert(separated(l[next], l[j]));
                }
                assert forall|j: int| 0 <= j < l2.len() implies !n.conflict_with(
                    #[trigger] l2[j],
                ) by {
                    let a = if j == pre { next } else if j == next { pre } else { j };
                    assert(!l[next].conflict_with(l[a]));
                }
                lemma_inserted_behind(l2, next + 1, y, n);
            } else if p.range.right_overlap_with(n.range) {
                let rest = RangeView { start: n.range.start, end: p.range.start - 1 };
                let x = n.without_waiters().with_range(rest);
                let l1 = l.update(next, x);
                lemma_shrunk(l, pre, next, x);
                lemma_swapped(l1, pre);
                assert(swap_adjacent(l1, pre) =~= l.update(pre, x).update(next, p));
            } else {
                lemma_removed(l, pre, next);
            }
        }
    }
}

/// Settling a record in an orderly list leaves the list well formed.
proof fn lemma_settle_well_formed(l: Seq<FlockView>, pre: int)
    requires
        orderly(l, pre),
        0 <= pre < l.len(),
    ensures
        well_formed(settle(l, pre).0),
    decreases l.len() - pre,
{
    lemma_settle_step(l, pre);
    match settle_step(l, pre) {
        Step::Done { list, woken } => {},
        Step::Next { list, at, woken } => {
            lemma_settle_well_formed(list, at);
        },
    }
}

/// Granting a lock that conflicts with no record keeps the list well formed.
pub proof fn lemma_granted_well_formed(l: Seq<FlockView>, lock: FlockView)
    requires
        well_formed(l),
        lock.range.valid(),
        lock.type_ != FlockType::F_UNLCK,
        forall|i: int| 0 <= i < l.len() ==> !(#[trigger] l[i]).conflict_with(lock),
    ensures
        well_formed(granted(l, lock).0),
{
    let at = first_of_owner(l, lock.owner, 0);
    let x = lock.without_waiters();
    lemma_first_of_owner(l, lock.owner, 0);
    assert forall|j: int| 0 <= j < l.len() implies !x.conflict_with(#[trigger] l[j]) by {
        assert(!l[j].conflict_with(lock));
    }
    if at >= l.len() {
        lemma_inserted_absent(l, x);
    } else {
        lemma_inserted_front(l, at, x);
        lemma_settle_well_formed(l.insert(at, x), at);
    }
}

/// One move of releasing keeps the list well formed.
pub proof fn lemma_release_step(l: Seq<FlockView>, probe: FlockView, at: int)
    requires
        well_formed(l),
        probe.range.valid(),
        0 <= at,
    ensures
        match release_step(l, probe, at) {
            Step::Done { list, woken } => well_formed(list),
            Step::Next { list, at: then, woken } => well_formed(list) && 0 <= then
                && list.len() - then < l.len() - at,
        },
{
    if at < l.len() {
        let r = l[at];
        assert(r.range.valid());
        if r.owner != probe.owner || !r.range.overlap_with(probe.range) {
        } else if probe.range.left_overlap_with(r.range) {
            let rest = RangeView { start: probe.range.end + 1, end: r.range.end };
            lemma_shrunk(l, -1, at, r.without_waiters().with_range(rest));
        } else if probe.range.middle_overlap_with(r.range) {
            let left = RangeView { start: r.range.start, end: probe.range.start - 1 };
            let right = RangeView { start: probe.range.end + 1, end: r.range.end };
            let x = r.without_waiters().with_range(left);
            let y = r.without_waiters().with_range(right);
            let l1 = l.update(at, x);
            lemma_shrunk(l, -1, at, x);
            assert forall|j: int|
                at + 1 <= j < l1.len() && (#[trigger] l1[j]).owner == y.owner implies separated(
                y,
                l1[j],
            ) by {
                assert(separated(l[at], l[j]));
            }
            assert forall|j: int| 0 <= j < l1.len() implies !r.conflict_with(#[trigger] l1[j]) by {
                assert(!l[at].conflict_with(l[j]));
            }
            lemma_inserted_behind(l1, at + 1, y, r);
        } else if probe.range.right_overlap_with(r.range) {
            let rest = RangeView { start: r.range.start, end: probe.range.start - 1 };
            lemma_shrunk(l, -1, at, r.without_waiters().with_range(rest));
        } else {
            lemma_removed(l, -1, at);
        }
    }
}

/// Releasing a range from `at` on keeps the list well formed.
proof fn lemma_release_well_formed(l: Seq<FlockView>, probe: FlockView, at: int)
    requires
        well_formed(l),
        probe.range.valid(),
        0 <= at,
    ensures
        well_formed(release(l, probe, at).0),
    decreases l.len() - at,
{
    lemma_release_step(l, probe, at);
    match release_step(l, probe, at) {
        Step::Done { list, woken } => {},
        Step::Next { list, at: then, woken } => {
            lemma_release_well_formed(list, probe, then);
        },
    }
}

/// Releasing a range keeps the list well formed.
pub proof fn lemma_unlocked_well_formed(l: Seq<FlockView>, probe: FlockView)
    requires
        well_formed(l),
        probe.range.valid(),
    ensures
        well_formed(unlocked(l, probe).0),
{
    lemma_release_well_formed(l, probe, 0);
}

} // verus!
