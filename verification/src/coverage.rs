//! Which bytes each owner holds, and with what type, after a lock was granted
//! or a range released.

use crate::flock::{FlockType, FlockView};
use crate::invariants::{
    lemma_first_of_owner, lemma_inserted_front, lemma_release_step, lemma_settle_step, orderly,
    part_of,
};
use crate::model::{
    first_of_owner, granted, hit, holds, release, release_step, separated, settle, settle_step,
    swap_adjacent, unlocked, well_formed, Step,
};
use crate::object_id::ObjectId;
use crate::range::RangeView;
use vstd::prelude::*;

verus! {

/// Some record other than the one at `pre` is one of `owner` that holds the
/// byte at `offset` with a lock of `type_`.
pub open spec fn holds_besides(
    l: Seq<FlockView>,
    pre: int,
    owner: ObjectId,
    type_: FlockType,
    offset: int,
) -> bool {
    exists|i: int| 0 <= i < l.len() && i != pre && #[trigger] hit(l[i], owner, type_, offset)
}

/// What the list is to hold once the record at `pre` has settled: the bytes
/// of that record go to its owner with its type, and every other byte stays
/// as the other records have it.
pub open spec fn overlay(
    l: Seq<FlockView>,
    pre: int,
    owner: ObjectId,
    type_: FlockType,
    offset: int,
) -> bool {
    if l[pre].owner == owner && l[pre].range.contains(offset) {
        type_ == l[pre].type_
    } else {
        holds_besides(l, pre, owner, type_, offset)
    }
}

/// In a well-formed list the record at `pre` overlays nothing: no other
/// record of its owner holds a byte of it.
proof fn lemma_cover_done(l: Seq<FlockView>, pre: int, o: ObjectId, t: FlockType, x: int)
    requires
        well_formed(l),
        0 <= pre < l.len(),
    ensures
        holds(l, o, t, x) == overlay(l, pre, o, t, x),
{
    let p = l[pre];
    if p.owner == o && p.range.contains(x) {
        if holds(l, o, t, x) {
            let i = choose|i: int| 0 <= i < l.len() && #[trigger] hit(l[i], o, t, x);
            if i < pre {
                assert(separated(l[i], l[pre]));
            } else if i > pre {
                assert(separated(l[pre], l[i]));
            }
        }
        if t == p.type_ {
            assert(hit(l[pre], o, t, x));
        }
    } else {
        if holds(l, o, t, x) {
            let i = choose|i: int| 0 <= i < l.len() && #[trigger] hit(l[i], o, t, x);
            assert(i != pre);
        }
        if holds_besides(l, pre, o, t, x) {
            let i = choose|i: int|
                0 <= i < l.len() && i != pre && #[trigger] hit(l[i], o, t, x);
            assert(hit(l[i], o, t, x));
        }
    }
}

/// The overlay does not depend on whether the settling record stands before
/// or behind its neighbour.
proof fn lemma_cover_swapped(l: Seq<FlockView>, pre: int, o: ObjectId, t: FlockType, x: int)
    requires
        0 <= pre,
        pre + 1 < l.len(),
    ensures
        overlay(swap_adjacent(l, pre), pre + 1, o, t, x) == overlay(l, pre, o, t, x),
{
    let l2 = swap_adjacent(l, pre);
    let next = pre + 1;
    if holds_besides(l, pre, o, t, x) {
        let i = choose|i: int| 0 <= i < l.len() && i != pre && #[trigger] hit(l[i], o, t, x);
        let j = if i == next { pre } else { i };
        assert(hit(l2[j], o, t, x));
    }
    if holds_besides(l2, next, o, t, x) {
        let i = choose|i: int| 0 <= i < l2.len() && i != next && #[trigger] hit(l2[i], o, t, x);
        let j = if i == pre { next } else { i };
        assert(hit(l[j], o, t, x));
    }
}

/// A record of the settling record's owner may give up bytes that the
/// settling record holds: the overlay stays the same.
proof fn lemma_cover_cut(
    l: Seq<FlockView>,
    pre: int,
    k: int,
    part: FlockView,
    o: ObjectId,
    t: FlockType,
    x: int,
)
    requires
        0 <= pre < l.len(),
        0 <= k < l.len(),
        k != pre,
        part_of(part, l[k]),
        l[k].owner == l[pre].owner,
        l[k].range.contains(x) && !part.range.contains(x) ==> l[pre].range.contains(x),
    ensures
        overlay(l.update(k, part), pre, o, t, x) == overlay(l, pre, o, t, x),
{
    let l2 = l.update(k, part);
    if holds_besides(l, pre, o, t, x) {
        let i = choose|i: int| 0 <= i < l.len() && i != pre && #[trigger] hit(l[i], o, t, x);
        assert(!(l[pre].owner == o && l[pre].range.contains(x)) ==> hit(l2[i], o, t, x));
    }
    if holds_besides(l2, pre, o, t, x) {
        let i = choose|i: int| 0 <= i < l2.len() && i != pre && #[trigger] hit(l2[i], o, t, x);
        assert(hit(l[i], o, t, x));
    }
}

/// A record of the settling record's owner that holds no byte but of the
/// settling record may go: the overlay stays the same.
proof fn lemma_cover_removed(
    l: Seq<FlockView>,
    pre: int,
    k: int,
    o: ObjectId,
    t: FlockType,
    x: int,
)
    requires
        0 <= pre < k < l.len(),
        l[k].owner == l[pre].owner,
        l[pre].range.cover(l[k].range),
    ensures
        overlay(l.remove(k), pre, o, t, x) == overlay(l, pre, o, t, x),
{
    let l2 = l.remove(k);
    if holds_besides(l, pre, o, t, x) {
        let i = choose|i: int| 0 <= i < l.len() && i != pre && #[trigger] hit(l[i], o, t, x);
        if i != k {
            let j = if i < k { i } else { i - 1 };
            assert(hit(l2[j], o, t, x));
        }
    }
    if holds_besides(l2, pre, o, t, x) {
        let i = choose|i: int| 0 <= i < l2.len() && i != pre && #[trigger] hit(l2[i], o, t, x);
        let j = if i < k { i } else { i + 1 };
        assert(hit(l[j], o, t, x));
    }
}

/// The settling record may be taken up by its neighbour: the overlay stays
/// the same.
proof fn lemma_cover_merged(l: Seq<FlockView>, pre: int, o: ObjectId, t: FlockType, x: int)
    requires
        orderly(l, pre),
        0 <= pre,
        pre + 1 < l.len(),
        l[pre + 1].owner == l[pre].owner,
        l[pre + 1].type_ == l[pre].type_,
        l[pre].range.adjacent_or_overlap_with(l[pre + 1].range),
    ensures
        overlay(
            l.update(pre + 1, l[pre + 1].with_range(l[pre + 1].range.hull(l[pre].range))).remove(
                pre,
            ),
            pre,
            o,
            t,
            x,
        ) == overlay(l, pre, o, t, x),
{
    let next = pre + 1;
    let p = l[pre];
    let n = l[next];
    let merged = n.with_range(n.range.hull(p.range));
    let l2 = l.update(next, merged).remove(pre);
    assert(p.range.valid() && n.range.valid());
    assert(l2[pre] == merged);
    if o == p.owner && merged.range.contains(x) {
        if !p.range.contains(x) {
            // the byte is one of the neighbour alone
            if t == n.type_ {
                assert(hit(l[next], o, t, x));
            }
            if holds_besides(l, pre, o, t, x) {
                let i = choose|i: int|
                    0 <= i < l.len() && i != pre && #[trigger] hit(l[i], o, t, x);
                if i < next {
                    assert(separated(l[i], l[next]));
                } else if i > next {
                    assert(separated(l[next], l[i]));
                }
            }
        }
    } else {
        if holds_besides(l, pre, o, t, x) {
            let i = choose|i: int| 0 <= i < l.len() && i != pre && #[trigger] hit(l[i], o, t, x);
            assert(i != next);
            let j = if i < pre { i } else { i - 1 };
            assert(l2[j] == l[i]);
            assert(hit(l2[j], o, t, x));
        }
        if holds_besides(l2, pre, o, t, x) {
            let i = choose|i: int|
                0 <= i < l2.len() && i != pre && #[trigger] hit(l2[i], o, t, x);
            let j = if i < pre { i } else { i + 1 };
            assert(l2[i] == l[j]);
            assert(hit(l[j], o, t, x));
        }
    }
}

/// The settling record may part its neighbour in two: the overlay stays the
/// same.
proof fn lemma_cover_parted(l: Seq<FlockView>, pre: int, o: ObjectId, t: FlockType, x: int)
    requires
        0 <= pre,
        pre + 1 < l.len(),
        l[pre + 1].owner == l[pre].owner,
        l[pre].range.middle_overlap_with(l[pre + 1].range),
    ensures
        overlay(
            l.update(
                pre,
                l[pre + 1].without_waiters().with_range(
                    RangeView { start: l[pre + 1].range.start, end: l[pre].range.start - 1 },
                ),
            ).update(pre + 1, l[pre]).insert(
                pre + 2,
                l[pre + 1].without_waiters().with_range(
                    RangeView { start: l[pre].range.end + 1, end: l[pre + 1].range.end },
                ),
            ),
            pre + 1,
            o,
            t,
            x,
        ) == overlay(l, pre, o, t, x),
{
    let next = pre + 1;
    let p = l[pre];
    let n = l[next];
    let left = n.without_waiters().with_range(
        RangeView { start: n.range.start, end: p.range.start - 1 },
    );
    let right = n.without_waiters().with_range(
        RangeView { start: p.range.end + 1, end: n.range.end },
    );
    let l2 = l.update(pre, left).update(next, p).insert(next + 1, right);
    assert(l2[pre] == left && l2[next] == p && l2[next + 1] == right);
    if holds_besides(l, pre, o, t, x) {
        let i = choose|i: int| 0 <= i < l.len() && i != pre && #[trigger] hit(l[i], o, t, x);
        if i == next {
            if left.range.contains(x) {
                assert(hit(l2[pre], o, t, x));
            } else if right.range.contains(x) {
                assert(hit(l2[next + 1], o, t, x));
            }
        } else {
            let j = if i < pre { i } else { i + 1 };
            assert(l2[j] == l[i]);
            assert(hit(l2[j], o, t, x));
        }
    }
    if holds_besides(l2, next, o, t, x) {
        let i = choose|i: int| 0 <= i < l2.len() && i != next && #[trigger] hit(l2[i], o, t, x);
        if i == pre || i == next + 1 {
            assert(hit(l[next], o, t, x));
        } else {
            let j = if i < pre { i } else { i - 1 };
            assert(l2[i] == l[j]);
            assert(hit(l[j], o, t, x));
        }
    }
}

/// One move of settling leaves the overlay as it is, and where the walk is
/// over the list holds what the overlay says.
proof fn lemma_cover_step(l: Seq<FlockView>, pre: int, o: ObjectId, t: FlockType, x: int)
    requires
        orderly(l, pre),
        0 <= pre < l.len(),
    ensures
        match settle_step(l, pre) {
            Step::Done { list, woken } => holds(list, o, t, x) == overlay(l, pre, o, t, x),
            Step::Next { list, at, woken } => overlay(list, at, o, t, x) == overlay(
                l,
                pre,
                o,
                t,
                x,
            ),
        },
{
    lemma_settle_step(l, pre);
    let next = pre + 1;
    if next >= l.len() || l[next].owner != l[pre].owner {
        lemma_cover_done(l, pre, o, t, x);
    } else {
        let p = l[pre];
        let n = l[next];
        assert(p.range.valid() && n.range.valid());
        if n.type_ == p.type_ {
            if p.range.in_front_of(n.range) {
                lemma_cover_done(l, pre, o, t, x);
            } else if n.range.in_front_of(p.range) {
                lemma_cover_swapped(l, pre, o, t, x);
            } else {
                lemma_cover_merged(l, pre, o, t, x);
            }
        } else {
            if p.range.in_front_of_or_adjacent_before(n.range) {
                lemma_cover_done(l, pre, o, t, x);
            } else if n.range.in_front_of_or_adjacent_before(p.range) {
                lemma_cover_swapped(l, pre, o, t, x);
            } else if p.range.left_overlap_with(n.range) {
                let rest = RangeView { start: p.range.end + 1, end: n.range.end };
                let part = n.without_waiters().with_range(rest);
                lemma_cover_cut(l, pre, next, part, o, t, x);
                lemma_cover_done(l.update(next, part), pre, o, t, x);
            } else if p.range.middle_overlap_with(n.range) {
                lemma_cover_parted(l, pre, o, t, x);
                let list = settle_step(l, pre)->Done_list;
                lemma_cover_done(list, next, o, t, x);
            } else if p.range.right_overlap_with(n.range) {
                let rest = RangeView { start: n.range.start, end: p.range.start - 1 };
                let part = n.without_waiters().with_range(rest);
                let l1 = l.update(next, part);
                lemma_cover_cut(l, pre, next, part, o, t, x);
                lemma_cover_swapped(l1, pre, o, t, x);
                assert(swap_adjacent(l1, pre) =~= l.update(pre, part).update(next, p));
            } else {
                lemma_cover_removed(l, pre, next, o, t, x);
            }
        }
    }
}

/// Once the record at `pre` has settled, the list holds what the overlay
/// says.
proof fn lemma_cover_settled(l: Seq<FlockView>, pre: int, o: ObjectId, t: FlockType, x: int)
    requires
        orderly(l, pre),
        0 <= pre < l.len(),
    ensures
        holds(settle(l, pre).0, o, t, x) == overlay(l, pre, o, t, x),
    decreases l.len() - pre,
{
    lemma_settle_step(l, pre);
    lemma_cover_step(l, pre, o, t, x);
    match settle_step(l, pre) {
        Step::Done { list, woken } => {},
        Step::Next { list, at, woken } => {
            lemma_cover_settled(list, at, o, t, x);
        },
    }
}

/// Granting a lock gives its bytes to its owner with its type, and leaves
/// every other byte with whom it was, as it was.
pub proof fn lemma_granted_holds(
    l: Seq<FlockView>,
    lock: FlockView,
    o: ObjectId,
    t: FlockType,
    x: int,
)
    requires
        well_formed(l),
        lock.range.valid(),
        lock.type_ != FlockType::F_UNLCK,
        forall|i: int| 0 <= i < l.len() ==> !(#[trigger] l[i]).conflict_with(lock),
    ensures
        holds(granted(l, lock).0, o, t, x) == if o == lock.owner && lock.range.contains(x) {
            t == lock.type_
        } else {
            holds(l, o, t, x)
        },
{
    let at = first_of_owner(l, lock.owner, 0);
    let record = lock.without_waiters();
    lemma_first_of_owner(l, lock.owner, 0);
    assert forall|j: int| 0 <= j < l.len() implies !record.conflict_with(#[trigger] l[j]) by {
        assert(!l[j].conflict_with(lock));
    }
    if at >= l.len() {
        let l1 = l.insert(0, record);
        assert(l1[0] == record);
        if holds(l1, o, t, x) {
            let i = choose|i: int| 0 <= i < l1.len() && #[trigger] hit(l1[i], o, t, x);
            if i > 0 {
                assert(l1[i] == l[i - 1]);
                assert(hit(l[i - 1], o, t, x));
            }
        }
        if holds(l, o, t, x) {
            let i = choose|i: int| 0 <= i < l.len() && #[trigger] hit(l[i], o, t, x);
            assert(l1[i + 1] == l[i]);
            assert(hit(l1[i + 1], o, t, x));
        }
        if o == lock.owner && lock.range.contains(x) && t == lock.type_ {
            assert(hit(l1[0], o, t, x));
        }
    } else {
        let l1 = l.insert(at, record);
        lemma_inserted_front(l, at, record);
        lemma_cover_settled(l1, at, o, t, x);
        assert(l1[at] == record);
        if holds_besides(l1, at, o, t, x) {
            let i = choose|i: int|
                0 <= i < l1.len() && i != at && #[trigger] hit(l1[i], o, t, x);
            let j = if i < at { i } else { i - 1 };
            assert(l1[i] == l[j]);
            assert(hit(l[j], o, t, x));
        }
        if holds(l, o, t, x) {
            let i = choose|i: int| 0 <= i < l.len() && #[trigger] hit(l[i], o, t, x);
            let j = if i < at { i } else { i + 1 };
            assert(l1[j] == l[i]);
            assert(hit(l1[j], o, t, x));
        }
    }
}

/// Some record holds the byte at `offset` for `owner` with a lock of `type_`
/// and is not due to give it up: it stands before `at`, or the byte is none
/// that the owner of `probe` releases.
pub open spec fn kept(
    l: Seq<FlockView>,
    probe: FlockView,
    at: int,
    owner: ObjectId,
    type_: FlockType,
    offset: int,
) -> bool {
    exists|i: int|
        0 <= i < l.len() && #[trigger] hit(l[i], owner, type_, offset) && (i >= at && owner
            == probe.owner ==> !probe.range.contains(offset))
}

/// A record that the release passes by keeps what it holds.
proof fn lemma_kept_passed(
    l: Seq<FlockView>,
    probe: FlockView,
    at: int,
    o: ObjectId,
    t: FlockType,
    x: int,
)
    requires
        0 <= at < l.len(),
        l[at].owner != probe.owner || !l[at].range.overlap_with(probe.range),
    ensures
        kept(l, probe, at + 1, o, t, x) == kept(l, probe, at, o, t, x),
{
    if kept(l, probe, at, o, t, x) {
        let i = choose|i: int|
            0 <= i < l.len() && #[trigger] hit(l[i], o, t, x) && (i >= at && o == probe.owner
                ==> !probe.range.contains(x));
        assert(hit(l[i], o, t, x));
    }
    if kept(l, probe, at + 1, o, t, x) {
        let i = choose|i: int|
            0 <= i < l.len() && #[trigger] hit(l[i], o, t, x) && (i >= at + 1 && o
                == probe.owner ==> !probe.range.contains(x));
        assert(hit(l[i], o, t, x));
    }
}

/// A record that gives up its first bytes keeps the rest, and the release is
/// over: the owner's records behind it hold none of the bytes released.
proof fn lemma_kept_left(
    l: Seq<FlockView>,
    probe: FlockView,
    at: int,
    o: ObjectId,
    t: FlockType,
    x: int,
)
    requires
        well_formed(l),
        probe.range.valid(),
        0 <= at < l.len(),
        l[at].owner == probe.owner,
        probe.range.left_overlap_with(l[at].range),
    ensures
        holds(
            l.update(
                at,
                l[at].without_waiters().with_range(
                    RangeView { start: probe.range.end + 1, end: l[at].range.end },
                ),
            ),
            o,
            t,
            x,
        ) == kept(l, probe, at, o, t, x),
{
    let r = l[at];
    let rest = RangeView { start: probe.range.end + 1, end: r.range.end };
    let part = r.without_waiters().with_range(rest);
    let l2 = l.update(at, part);
    assert(r.range.valid());
    if holds(l2, o, t, x) {
        let i = choose|i: int| 0 <= i < l2.len() && #[trigger] hit(l2[i], o, t, x);
        if i > at && o == probe.owner {
            assert(separated(l[at], l[i]));
        }
        assert(hit(l[i], o, t, x));
    }
    if kept(l, probe, at, o, t, x) {
        let i = choose|i: int|
            0 <= i < l.len() && #[trigger] hit(l[i], o, t, x) && (i >= at && o == probe.owner
                ==> !probe.range.contains(x));
        assert(hit(l2[i], o, t, x));
    }
}

/// A record that gives up bytes in its middle keeps those on both sides, and
/// the release is over.
proof fn lemma_kept_parted(
    l: Seq<FlockView>,
    probe: FlockView,
    at: int,
    o: ObjectId,
    t: FlockType,
    x: int,
)
    requires
        well_formed(l),
        probe.range.valid(),
        0 <= at < l.len(),
        l[at].owner == probe.owner,
        probe.range.middle_overlap_with(l[at].range),
    ensures
        holds(
            l.update(
                at,
                l[at].without_waiters().with_range(
                    RangeView { start: l[at].range.start, end: probe.range.start - 1 },
                ),
            ).insert(
                at + 1,
                l[at].without_waiters().with_range(
                    RangeView { start: probe.range.end + 1, end: l[at].range.end },
                ),
            ),
            o,
            t,
            x,
        ) == kept(l, probe, at, o, t, x),
{
    let r = l[at];
    let left = RangeView { start: r.range.start, end: probe.range.start - 1 };
    let right = RangeView { start: probe.range.end + 1, end: r.range.end };
    let l2 = l.update(at, r.without_waiters().with_range(left)).insert(
        at + 1,
        r.without_waiters().with_range(right),
    );
    assert(r.range.valid());
    assert(l2[at] == r.without_waiters().with_range(left));
    assert(l2[at + 1] == r.without_waiters().with_range(right));
    if holds(l2, o, t, x) {
        let i = choose|i: int| 0 <= i < l2.len() && #[trigger] hit(l2[i], o, t, x);
        if i < at {
            assert(l2[i] == l[i]);
            assert(hit(l[i], o, t, x));
        } else if i <= at + 1 {
            assert(hit(l[at], o, t, x));
        } else {
            assert(l2[i] == l[i - 1]);
            if o == probe.owner {
                assert(separated(l[at], l[i - 1]));
            }
            assert(hit(l[i - 1], o, t, x));
        }
    }
    if kept(l, probe, at, o, t, x) {
        let i = choose|i: int|
            0 <= i < l.len() && #[trigger] hit(l[i], o, t, x) && (i >= at && o == probe.owner
                ==> !probe.range.contains(x));
        if i < at {
            assert(l2[i] == l[i]);
            assert(hit(l2[i], o, t, x));
        } else if i == at {
            if x < probe.range.start {
                assert(hit(l2[at], o, t, x));
            } else {
                assert(hit(l2[at + 1], o, t, x));
            }
        } else {
            assert(l2[i + 1] == l[i]);
            assert(hit(l2[i + 1], o, t, x));
        }
    }
}

/// A record that gives up its last bytes keeps the rest.
proof fn lemma_kept_right(
    l: Seq<FlockView>,
    probe: FlockView,
    at: int,
    o: ObjectId,
    t: FlockType,
    x: int,
)
    requires
        probe.range.valid(),
        0 <= at < l.len(),
        l[at].range.valid(),
        l[at].owner == probe.owner,
        probe.range.right_overlap_with(l[at].range),
    ensures
        kept(
            l.update(
                at,
                l[at].without_waiters().with_range(
                    RangeView { start: l[at].range.start, end: probe.range.start - 1 },
                ),
            ),
            probe,
            at + 1,
            o,
            t,
            x,
        ) == kept(l, probe, at, o, t, x),
{
    let r = l[at];
    let rest = RangeView { start: r.range.start, end: probe.range.start - 1 };
    let part = r.without_waiters().with_range(rest);
    let l2 = l.update(at, part);
    if kept(l2, probe, at + 1, o, t, x) {
        let i = choose|i: int|
            0 <= i < l2.len() && #[trigger] hit(l2[i], o, t, x) && (i >= at + 1 && o
                == probe.owner ==> !probe.range.contains(x));
        assert(hit(l[i], o, t, x));
    }
    if kept(l, probe, at, o, t, x) {
        let i = choose|i: int|
            0 <= i < l.len() && #[trigger] hit(l[i], o, t, x) && (i >= at && o == probe.owner
                ==> !probe.range.contains(x));
        assert(hit(l2[i], o, t, x));
    }
}

/// A record that gives up all its bytes keeps nothing.
proof fn lemma_kept_gone(
    l: Seq<FlockView>,
    probe: FlockView,
    at: int,
    o: ObjectId,
    t: FlockType,
    x: int,
)
    requires
        0 <= at < l.len(),
        l[at].owner == probe.owner,
        probe.range.cover(l[at].range),
    ensures
        kept(l.remove(at), probe, at, o, t, x) == kept(l, probe, at, o, t, x),
{
    let l2 = l.remove(at);
    if kept(l2, probe, at, o, t, x) {
        let i = choose|i: int|
            0 <= i < l2.len() && #[trigger] hit(l2[i], o, t, x) && (i >= at && o == probe.owner
                ==> !probe.range.contains(x));
        let j = if i < at { i } else { i + 1 };
        assert(l2[i] == l[j]);
        assert(hit(l[j], o, t, x));
    }
    if kept(l, probe, at, o, t, x) {
        let i = choose|i: int|
            0 <= i < l.len() && #[trigger] hit(l[i], o, t, x) && (i >= at && o == probe.owner
                ==> !probe.range.contains(x));
        assert(i != at);
        let j = if i < at { i } else { i - 1 };
        assert(l2[j] == l[i]);
        assert(hit(l2[j], o, t, x));
    }
}

/// One move of releasing leaves what is kept as it is, and where the walk is
/// over the list holds what was kept.
proof fn lemma_kept_step(
    l: Seq<FlockView>,
    probe: FlockView,
    at: int,
    o: ObjectId,
    t: FlockType,
    x: int,
)
    requires
        well_formed(l),
        probe.range.valid(),
        0 <= at,
    ensures
        match release_step(l, probe, at) {
            Step::Done { list, woken } => holds(list, o, t, x) == kept(l, probe, at, o, t, x),
            Step::Next { list, at: then, woken } => kept(list, probe, then, o, t, x) == kept(
                l,
                probe,
                at,
                o,
                t,
                x,
            ),
        },
{
    if at >= l.len() {
        if holds(l, o, t, x) {
            let i = choose|i: int| 0 <= i < l.len() && #[trigger] hit(l[i], o, t, x);
            assert(hit(l[i], o, t, x));
        }
    } else {
        let r = l[at];
        assert(r.range.valid());
        if r.owner != probe.owner || !r.range.overlap_with(probe.range) {
            lemma_kept_passed(l, probe, at, o, t, x);
        } else if probe.range.left_overlap_with(r.range) {
            lemma_kept_left(l, probe, at, o, t, x);
        } else if probe.range.middle_overlap_with(r.range) {
            lemma_kept_parted(l, probe, at, o, t, x);
        } else if probe.range.right_overlap_with(r.range) {
            lemma_kept_right(l, probe, at, o, t, x);
        } else {
            lemma_kept_gone(l, probe, at, o, t, x);
        }
    }
}

/// Once the release from `at` on is over, the list holds what was kept.
proof fn lemma_kept_released(
    l: Seq<FlockView>,
    probe: FlockView,
    at: int,
    o: ObjectId,
    t: FlockType,
    x: int,
)
    requires
        well_formed(l),
        probe.range.valid(),
        0 <= at,
    ensures
        holds(release(l, probe, at).0, o, t, x) == kept(l, probe, at, o, t, x),
    decreases l.len() - at,
{
    lemma_release_step(l, probe, at);
    lemma_kept_step(l, probe, at, o, t, x);
    match release_step(l, probe, at) {
        Step::Done { list, woken } => {},
        Step::Next { list, at: then, woken } => {
            lemma_kept_released(list, probe, then, o, t, x);
        },
    }
}

/// Unlocking takes the bytes of the probe from its owner, whatever the type
/// they were held with, and leaves every other byte with whom it was, as it
/// was.
pub proof fn lemma_unlocked_holds(
    l: Seq<FlockView>,
    probe: FlockView,
    o: ObjectId,
    t: FlockType,
    x: int,
)
    requires
        well_formed(l),
        probe.range.valid(),
    ensures
        holds(unlocked(l, probe).0, o, t, x) == (holds(l, o, t, x) && !(o == probe.owner
            && probe.range.contains(x))),
{
    lemma_kept_released(l, probe, 0, o, t, x);
    if kept(l, probe, 0, o, t, x) {
        let i = choose|i: int|
            0 <= i < l.len() && #[trigger] hit(l[i], o, t, x) && (i >= 0 && o == probe.owner
                ==> !probe.range.contains(x));
        assert(hit(l[i], o, t, x));
    }
    if holds(l, o, t, x) && !(o == probe.owner && probe.range.contains(x)) {
        let i = choose|i: int| 0 <= i < l.len() && #[trigger] hit(l[i], o, t, x);
        assert(hit(l[i], o, t, x));
    }
}

} // verus!
