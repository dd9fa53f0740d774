//! No waiter is lost and none is woken twice: whoever waited on a record
//! before a lock was granted or a range released waits on a record
//! afterwards, or is among the woken, and only so.

use crate::flock::FlockView;
use crate::model::{
    all_waiters, first_of_owner, granted, queued, release, release_step, settle, settle_step,
    unlocked, unqueued, Step,
};
use crate::waiter::{lemma_without_again, other_than, without, Waiter};
use vstd::multiset::Multiset;
use vstd::prelude::*;
use vstd::seq_lib::lemma_multiset_commutative;

verus! {

/// Those who wait on the records of the list, each as often as it is queued.
pub open spec fn waiting(l: Seq<FlockView>) -> Multiset<Waiter> {
    all_waiters(l).to_multiset()
}

/// Nobody is in an empty queue.
proof fn lemma_nobody()
    ensures
        Seq::<Waiter>::empty().to_multiset() == Multiset::<Waiter>::empty(),
{
    let none = Seq::<Waiter>::empty();
    none.to_multiset_ensures();
    assert forall|w: Waiter| none.to_multiset().count(w) == 0 by {
        assert(!none.contains(w));
    }
    assert(none.to_multiset() =~= Multiset::<Waiter>::empty());
}

/// Those who wait on the records of two lists wait on the records of the one
/// or of the other.
proof fn lemma_all_waiters_add(a: Seq<FlockView>, b: Seq<FlockView>)
    ensures
        all_waiters(a + b) == all_waiters(a) + all_waiters(b),
        waiting(a + b) == waiting(a).add(waiting(b)),
    decreases b.len(),
{
    if b.len() == 0 {
        assert(a + b =~= a);
        assert(all_waiters(a) + all_waiters(b) =~= all_waiters(a));
    } else {
        assert((a + b).drop_last() =~= a + b.drop_last());
        assert((a + b).last() == b.last());
        lemma_all_waiters_add(a, b.drop_last());
        assert(all_waiters(a + b) =~= all_waiters(a) + all_waiters(b));
    }
    lemma_multiset_commutative(all_waiters(a), all_waiters(b));
}

/// Those who wait on the records of a list of one record wait on that
/// record.
proof fn lemma_all_waiters_one(x: FlockView)
    ensures
        all_waiters(seq![x]) == x.waiters,
        waiting(seq![x]) == x.waiters.to_multiset(),
{
    let s = seq![x];
    assert(s.drop_last() =~= Seq::<FlockView>::empty());
    assert(all_waiters(s.drop_last()) =~= Seq::<Waiter>::empty());
    assert(all_waiters(s) =~= x.waiters);
}

/// Those who wait on the records of a list of two.
proof fn lemma_waiting_two(x: FlockView, y: FlockView)
    ensures
        waiting(seq![x, y]) == x.waiters.to_multiset().add(y.waiters.to_multiset()),
{
    assert(seq![x, y] =~= seq![x] + seq![y]);
    lemma_all_waiters_add(seq![x], seq![y]);
    lemma_all_waiters_one(x);
    lemma_all_waiters_one(y);
}

/// Those who wait on the records of a list of three.
proof fn lemma_waiting_three(x: FlockView, y: FlockView, z: FlockView)
    ensures
        waiting(seq![x, y, z]) == x.waiters.to_multiset().add(y.waiters.to_multiset()).add(
            z.waiters.to_multiset(),
        ),
{
    assert(seq![x, y, z] =~= seq![x, y] + seq![z]);
    lemma_all_waiters_add(seq![x, y], seq![z]);
    lemma_waiting_two(x, y);
    lemma_all_waiters_one(z);
}

/// Nobody waits on a list without records.
proof fn lemma_waiting_none()
    ensures
        waiting(Seq::<FlockView>::empty()) == Multiset::<Waiter>::empty(),
{
    assert(all_waiters(Seq::<FlockView>::empty()) =~= Seq::<Waiter>::empty());
    lemma_nobody();
}

/// Where two lists differ in a run of records only, and those who waited on
/// the run of the one wait on the run of the other or are among `woken`, the
/// same holds of the lists.
proof fn lemma_waiting_respliced(
    l: Seq<FlockView>,
    l2: Seq<FlockView>,
    from: int,
    to: int,
    to2: int,
    woken: Seq<Waiter>,
)
    requires
        0 <= from <= to <= l.len(),
        from <= to2 <= l2.len(),
        l.len() - to == l2.len() - to2,
        forall|i: int| 0 <= i < from ==> #[trigger] l2[i] == l[i],
        forall|i: int| to2 <= i < l2.len() ==> #[trigger] l2[i] == l[i - to2 + to],
        waiting(l.subrange(from, to)) == waiting(l2.subrange(from, to2)).add(woken.to_multiset()),
    ensures
        waiting(l) == waiting(l2).add(woken.to_multiset()),
{
    let a = l.subrange(0, from);
    let b = l.subrange(to, l.len() as int);
    let m = l.subrange(from, to);
    let m2 = l2.subrange(from, to2);
    assert(l =~= a + m + b);
    assert(l2.subrange(0, from) =~= a);
    assert(l2.subrange(to2, l2.len() as int) =~= b);
    assert(l2 =~= a + m2 + b);
    lemma_all_waiters_add(a + m, b);
    lemma_all_waiters_add(a, m);
    lemma_all_waiters_add(a + m2, b);
    lemma_all_waiters_add(a, m2);
    assert(waiting(l) =~= waiting(l2).add(woken.to_multiset()));
}

/// One move of settling wakes those who waited and wait no more, and nobody
/// else.
proof fn lemma_settle_step_waiting(l: Seq<FlockView>, pre: int)
    requires
        0 <= pre < l.len(),
    ensures
        match settle_step(l, pre) {
            Step::Done { list, woken } => waiting(l) == waiting(list).add(woken.to_multiset()),
            Step::Next { list, at, woken } => waiting(l) == waiting(list).add(woken.to_multiset())
                && 0 <= at < list.len() && list.len() - at < l.len() - pre,
        },
{
    let next = pre + 1;
    let none = Seq::<Waiter>::empty();
    lemma_nobody();
    if next >= l.len() || l[next].owner != l[pre].owner {
        assert(waiting(l) =~= waiting(l).add(none.to_multiset()));
    } else {
        let p = l[pre];
        let n = l[next];
        let bare = n.without_waiters();
        assert(l.subrange(pre, pre + 2) =~= seq![p, n]);
        lemma_waiting_two(p, n);
        match settle_step(l, pre) {
            Step::Done { list, woken } => {
                if list.len() == l.len() + 1 {
                    let x = list[pre];
                    let z = list[pre + 2];
                    assert(list.subrange(pre, pre + 3) =~= seq![x, p, z]);
                    lemma_waiting_three(x, p, z);
                    assert(x.waiters.to_multiset() =~= Multiset::<Waiter>::empty());
                    assert(z.waiters.to_multiset() =~= Multiset::<Waiter>::empty());
                    assert(waiting(seq![p, n]) =~= waiting(seq![x, p, z]).add(
                        woken.to_multiset(),
                    ));
                    lemma_waiting_respliced(l, list, pre, pre + 2, pre + 3, woken);
                } else {
                    let y = list[next];
                    assert(list.subrange(pre, pre + 2) =~= seq![p, y]);
                    lemma_waiting_two(p, y);
                    if y != n {
                        assert(y.waiters.to_multiset() =~= Multiset::<Waiter>::empty());
                    }
                    assert(waiting(seq![p, n]) =~= waiting(seq![p, y]).add(woken.to_multiset()));
                    lemma_waiting_respliced(l, list, pre, pre + 2, pre + 2, woken);
                }
            },
            Step::Next { list, at, woken } => {
                if list.len() == l.len() {
                    let x = list[pre];
                    assert(list.subrange(pre, pre + 2) =~= seq![x, p]);
                    lemma_waiting_two(x, p);
                    if x != n {
                        assert(x.waiters.to_multiset() =~= Multiset::<Waiter>::empty());
                    }
                    assert(waiting(seq![p, n]) =~= waiting(seq![x, p]).add(woken.to_multiset()));
                    lemma_waiting_respliced(l, list, pre, pre + 2, pre + 2, woken);
                } else {
                    let x = list[pre];
                    assert(list.subrange(pre, pre + 1) =~= seq![x]);
                    lemma_all_waiters_one(x);
                    assert(waiting(seq![p, n]) =~= waiting(seq![x]).add(woken.to_multiset()));
                    lemma_waiting_respliced(l, list, pre, pre + 2, pre + 1, woken);
                }
            },
        }
    }
}

/// Settling a record wakes those who waited and wait no more, and nobody
/// else.
proof fn lemma_settle_waiting(l: Seq<FlockView>, pre: int)
    requires
        0 <= pre < l.len(),
    ensures
        waiting(l) == waiting(settle(l, pre).0).add(settle(l, pre).1.to_multiset()),
    decreases l.len() - pre,
{
    lemma_settle_step_waiting(l, pre);
    match settle_step(l, pre) {
        Step::Done { list, woken } => {},
        Step::Next { list, at, woken } => {
            lemma_settle_waiting(list, at);
            lemma_multiset_commutative(woken, settle(list, at).1);
            assert(waiting(l) =~= waiting(settle(l, pre).0).add(
                settle(l, pre).1.to_multiset(),
            ));
        },
    }
}

/// Granting a lock loses no waiter and wakes none twice: those who waited on
/// a record of the list wait on one afterwards or are among the woken, each
/// as often as before.
pub proof fn lemma_granted_waiting(l: Seq<FlockView>, lock: FlockView)
    ensures
        waiting(l) == waiting(granted(l, lock).0).add(granted(l, lock).1.to_multiset()),
{
    let at = first_of_owner(l, lock.owner, 0);
    let record = lock.without_waiters();
    let none = Seq::<Waiter>::empty();
    crate::invariants::lemma_first_of_owner(l, lock.owner, 0);
    lemma_nobody();
    lemma_all_waiters_one(record);
    let put = if at >= l.len() {
        0
    } else {
        at
    };
    let l1 = l.insert(put, record);
    assert(l.subrange(put, put) =~= Seq::<FlockView>::empty());
    assert(l1.subrange(put, put + 1) =~= seq![record]);
    lemma_waiting_none();
    assert(waiting(l.subrange(put, put)) =~= waiting(l1.subrange(put, put + 1)).add(
        none.to_multiset(),
    ));
    lemma_waiting_respliced(l, l1, put, put, put + 1, none);
    assert(waiting(l) =~= waiting(l1));
    if at < l.len() {
        lemma_settle_waiting(l1, at);
    }
}

/// One move of releasing wakes those who waited and wait no more, and nobody
/// else.
proof fn lemma_release_step_waiting(l: Seq<FlockView>, probe: FlockView, at: int)
    requires
        0 <= at,
    ensures
        match release_step(l, probe, at) {
            Step::Done { list, woken } => waiting(l) == waiting(list).add(woken.to_multiset()),
            Step::Next { list, at: then, woken } => waiting(l) == waiting(list).add(
                woken.to_multiset(),
            ) && 0 <= then && list.len() - then < l.len() - at,
        },
{
    let none = Seq::<Waiter>::empty();
    lemma_nobody();
    if at >= l.len() || l[at].owner != probe.owner || !l[at].range.overlap_with(probe.range) {
        assert(waiting(l) =~= waiting(l).add(none.to_multiset()));
    } else {
        let r = l[at];
        assert(l.subrange(at, at + 1) =~= seq![r]);
        lemma_all_waiters_one(r);
        match release_step(l, probe, at) {
            Step::Done { list, woken } => {
                if list.len() == l.len() + 1 {
                    let x = list[at];
                    let y = list[at + 1];
                    assert(list.subrange(at, at + 2) =~= seq![x, y]);
                    lemma_waiting_two(x, y);
                    assert(x.waiters.to_multiset() =~= Multiset::<Waiter>::empty());
                    assert(y.waiters.to_multiset() =~= Multiset::<Waiter>::empty());
                    assert(waiting(seq![r]) =~= waiting(seq![x, y]).add(woken.to_multiset()));
                    lemma_waiting_respliced(l, list, at, at + 1, at + 2, woken);
                } else {
                    let x = list[at];
                    assert(list.subrange(at, at + 1) =~= seq![x]);
                    lemma_all_waiters_one(x);
                    assert(x.waiters.to_multiset() =~= Multiset::<Waiter>::empty());
                    assert(waiting(seq![r]) =~= waiting(seq![x]).add(woken.to_multiset()));
                    lemma_waiting_respliced(l, list, at, at + 1, at + 1, woken);
                }
            },
            Step::Next { list, at: then, woken } => {
                if list.len() == l.len() {
                    let x = list[at];
                    assert(list.subrange(at, at + 1) =~= seq![x]);
                    lemma_all_waiters_one(x);
                    assert(x.waiters.to_multiset() =~= Multiset::<Waiter>::empty());
                    assert(waiting(seq![r]) =~= waiting(seq![x]).add(woken.to_multiset()));
                    lemma_waiting_respliced(l, list, at, at + 1, at + 1, woken);
                } else {
                    assert(list.subrange(at, at) =~= Seq::<FlockView>::empty());
                    lemma_waiting_none();
                    assert(waiting(seq![r]) =~= waiting(Seq::<FlockView>::empty()).add(
                        woken.to_multiset(),
                    ));
                    lemma_waiting_respliced(l, list, at, at + 1, at, woken);
                }
            },
        }
    }
}

/// Releasing from `at` on wakes those who waited and wait no more, and
/// nobody else.
proof fn lemma_release_waiting(l: Seq<FlockView>, probe: FlockView, at: int)
    requires
        0 <= at,
    ensures
        waiting(l) == waiting(release(l, probe, at).0).add(
            release(l, probe, at).1.to_multiset(),
        ),
    decreases l.len() - at,
{
    lemma_release_step_waiting(l, probe, at);
    match release_step(l, probe, at) {
        Step::Done { list, woken } => {},
        Step::Next { list, at: then, woken } => {
            lemma_release_waiting(list, probe, then);
            lemma_multiset_commutative(woken, release(list, probe, then).1);
            assert(waiting(l) =~= waiting(release(l, probe, at).0).add(
                release(l, probe, at).1.to_multiset(),
            ));
        },
    }
}

/// Unlocking loses no waiter and wakes none twice: those who waited on a
/// record of the list wait on one afterwards or are among the woken, each as
/// often as before.
pub proof fn lemma_unlocked_waiting(l: Seq<FlockView>, probe: FlockView)
    ensures
        waiting(l) == waiting(unlocked(l, probe).0).add(unlocked(l, probe).1.to_multiset()),
{
    lemma_release_waiting(l, probe, 0);
}

/// Those who wait on the records of a list from which a waiter was taken
/// are those who waited on the records before, without the waiter.
proof fn lemma_unqueued_waiters(l: Seq<FlockView>, waiter: Waiter)
    ensures
        all_waiters(unqueued(l, waiter)) == without(all_waiters(l), waiter),
    decreases l.len(),
{
    let pred = other_than(waiter);
    if l.len() == 0 {
        assert(unqueued(l, waiter) =~= Seq::<FlockView>::empty());
        all_waiters(l).lemma_filter_len(pred);
        assert(without(all_waiters(l), waiter) =~= Seq::<Waiter>::empty());
    } else {
        lemma_unqueued_waiters(l.drop_last(), waiter);
        assert(unqueued(l, waiter).drop_last() =~= unqueued(l.drop_last(), waiter));
        Seq::filter_distributes_over_add(all_waiters(l.drop_last()), l.last().waiters, pred);
    }
}

/// A blocked requester's waiter waits once, with those who waited before.
pub proof fn lemma_queued_waiting(l: Seq<FlockView>, at: int, waiter: Waiter)
    requires
        0 <= at < l.len(),
    ensures
        waiting(queued(l, at, waiter)) == without(all_waiters(l), waiter).to_multiset().insert(
            waiter,
        ),
        waiting(queued(l, at, waiter)).count(waiter) == 1,
{
    let rest = unqueued(l, waiter);
    let r = rest[at];
    let x = r.with_waiters(r.waiters.push(waiter));
    let l2 = queued(l, at, waiter);
    let a = rest.subrange(0, at);
    let b = rest.subrange(at + 1, rest.len() as int);
    assert(rest =~= a + seq![r] + b);
    assert(l2 =~= a + seq![x] + b);
    lemma_all_waiters_add(a + seq![r], b);
    lemma_all_waiters_add(a, seq![r]);
    lemma_all_waiters_add(a + seq![x], b);
    lemma_all_waiters_add(a, seq![x]);
    lemma_all_waiters_one(r);
    lemma_all_waiters_one(x);
    r.waiters.to_multiset_ensures();
    assert(waiting(l2) =~= waiting(rest).insert(waiter));
    lemma_unqueued_waiters(l, waiter);
    lemma_without_again(all_waiters(l), waiter);
    without(all_waiters(l), waiter).to_multiset_ensures();
}

} // verus!
