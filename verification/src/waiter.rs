use vstd::prelude::*;

verus! {

/// The handle of a suspended requester. The thread behind it is parked and
/// woken by whoever runs the engine; the engine itself only queues handles
/// and says which of them are due to be woken.
#[derive(PartialEq, Eq, Structural, Copy, Clone, Debug, Hash)]
pub struct Waiter {
    id: u64,
}

impl Waiter {
    /// The number that tells this waiter from others.
    pub closed spec fn spec_id(self) -> u64 {
        self.id
    }

    pub fn new(id: u64) -> (w: Self)
        ensures
            w.spec_id() == id,
    {
        Self { id }
    }

    pub fn id(&self) -> (id: u64)
        ensures
            id == self.spec_id(),
    {
        self.id
    }
}

/// What tells the waiters other than `waiter` from it.
pub open spec fn other_than(waiter: Waiter) -> spec_fn(Waiter) -> bool {
    |w: Waiter| w != waiter
}

/// `queue` without `waiter`.
pub open spec fn without(queue: Seq<Waiter>, waiter: Waiter) -> Seq<Waiter> {
    queue.filter(other_than(waiter))
}

/// A queue that a waiter was taken out of does not hold the waiter, and
/// stays as it is when the waiter is taken out of it again.
pub proof fn lemma_without_again(queue: Seq<Waiter>, waiter: Waiter)
    ensures
        without(without(queue, waiter), waiter) == without(queue, waiter),
        !without(queue, waiter).contains(waiter),
    decreases queue.len(),
{
    let pred = other_than(waiter);
    if queue.len() == 0 {
        queue.lemma_filter_len(pred);
        assert(without(queue, waiter) =~= queue);
    } else {
        let front = queue.drop_last();
        let last = queue.last();
        assert(queue =~= front.push(last));
        lemma_without_again(front, waiter);
        front.lemma_filter_push(last, pred);
        if last != waiter {
            without(front, waiter).lemma_filter_push(last, pred);
            let kept = without(front, waiter).push(last);
            assert forall|i: int| 0 <= i < kept.len() implies kept[i] != waiter by {
                if i < kept.len() - 1 {
                    assert(without(front, waiter).contains(kept[i]));
                }
            }
        }
    }
}

/// Waiters in the order in which they were queued.
#[derive(Debug)]
pub struct WaiterQueue {
    waiters: Vec<Waiter>,
}

impl View for WaiterQueue {
    type V = Seq<Waiter>;

    closed spec fn view(&self) -> Seq<Waiter> {
        self.waiters@
    }
}

impl WaiterQueue {
    pub fn new() -> (q: Self)
        ensures
            q@ == Seq::<Waiter>::empty(),
    {
        Self { waiters: Vec::new() }
    }

    /// Number of waiters in the queue.
    pub fn len(&self) -> (n: usize)
        ensures
            n == self@.len(),
    {
        self.waiters.len()
    }

    /// The `i`-th waiter in queueing order.
    pub fn get(&self, i: usize) -> (w: Waiter)
        requires
            i < self@.len(),
        ensures
            w == self@[i as int],
    {
        self.waiters[i]
    }

    /// Takes `waiter` out of the queue, wherever it stands in it.
    pub fn remove(&mut self, waiter: &Waiter)
        ensures
            final(self)@ == without(old(self)@, *waiter),
    {
        let ghost before = self.waiters@;
        let mut kept: Vec<Waiter> = Vec::new();
        let mut i: usize = 0;
        assert(before.subrange(0, 0) =~= Seq::<Waiter>::empty());
        assert(without(Seq::<Waiter>::empty(), *waiter) =~= Seq::<Waiter>::empty()) by {
            Seq::<Waiter>::empty().lemma_filter_len(other_than(*waiter));
        }
        while i < self.waiters.len()
            invariant
                i <= before.len(),
                self.waiters@ == before,
                kept@ == without(before.subrange(0, i as int), *waiter),
            decreases before.len() - i,
        {
            proof {
                assert(before.subrange(0, i + 1) =~= before.subrange(0, i as int).push(
                    before[i as int],
                ));
                before.subrange(0, i as int).lemma_filter_push(
                    before[i as int],
                    other_than(*waiter),
                );
            }
            if self.waiters[i] != *waiter {
                kept.push(self.waiters[i]);
            }
            i = i + 1;
        }
        assert(before.subrange(0, before.len() as int) =~= before);
        self.waiters = kept;
    }

    /// Puts `waiter` at the back of the queue. A waiter that stands in the
    /// queue already leaves its place for the back.
    pub fn reset_and_enqueue(&mut self, waiter: &Waiter)
        ensures
            final(self)@ == without(old(self)@, *waiter).push(*waiter),
    {
        self.remove(waiter);
        self.waiters.push(*waiter);
    }

    /// Empties the queue and hands out the waiters that were in it, first
    /// come first, for the caller to wake.
    pub fn dequeue_and_wake_all(&mut self) -> (woken: Vec<Waiter>)
        ensures
            woken@ == old(self)@,
            final(self)@ == Seq::<Waiter>::empty(),
    {
        let mut woken: Vec<Waiter> = Vec::new();
        core::mem::swap(&mut self.waiters, &mut woken);
        woken
    }
}

} // verus!
