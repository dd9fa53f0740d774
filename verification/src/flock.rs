use crate::error::FlockError;
use crate::object_id::ObjectId;
use crate::range::{off_t, FlockRange, RangeView, RANGE_EOF};
use crate::waiter::{other_than, without, Waiter, WaiterQueue};
use vstd::prelude::*;

verus! {

/// Process identity, as used at the system-call boundary.
#[allow(non_camel_case_types)]
pub type pid_t = u32;

/// The kind of a lock: shared, exclusive, or none.
#[allow(non_camel_case_types)]
#[derive(Debug, Copy, Clone, PartialEq, Eq, Structural)]
pub enum FlockType {
    F_RDLCK,
    F_WRLCK,
    F_UNLCK,
}

/// The lock type that a type code names.
pub open spec fn type_of(code: u16) -> Result<FlockType, FlockError> {
    if code == 0 {
        Ok(FlockType::F_RDLCK)
    } else if code == 1 {
        Ok(FlockType::F_WRLCK)
    } else if code == 2 {
        Ok(FlockType::F_UNLCK)
    } else {
        Err(FlockError::InvalidArgument)
    }
}

/// The code of a lock type at the system-call boundary.
pub open spec fn type_code(type_: FlockType) -> u16 {
    match type_ {
        FlockType::F_RDLCK => 0,
        FlockType::F_WRLCK => 1,
        FlockType::F_UNLCK => 2,
    }
}

impl FlockType {
    pub fn from_u16(_type: u16) -> (res: Result<Self, FlockError>)
        ensures
            res == type_of(_type),
    {
        match _type {
            0 => Ok(FlockType::F_RDLCK),
            1 => Ok(FlockType::F_WRLCK),
            2 => Ok(FlockType::F_UNLCK),
            _ => Err(FlockError::InvalidArgument),
        }
    }

    /// The code of this type at the system-call boundary.
    pub fn to_u16(&self) -> (code: u16)
        ensures
            code == type_code(*self),
    {
        match self {
            FlockType::F_RDLCK => 0,
            FlockType::F_WRLCK => 1,
            FlockType::F_UNLCK => 2,
        }
    }
}

/// The lock request as user space lays it out, field by field.
#[allow(non_camel_case_types)]
#[derive(Debug, Copy, Clone, PartialEq, Eq, Structural)]
pub struct c_flock {
    /// Type of lock: F_RDLCK, F_WRLCK, or F_UNLCK
    pub l_type: u16,
    /// Where `l_start' is relative to
    pub l_whence: u16,
    /// Offset where the lock begins
    pub l_start: off_t,
    /// Size of the locked area, 0 means until EOF
    pub l_len: off_t,
    /// Process holding the lock
    pub l_pid: pid_t,
}

/// What a request structure reads after a lock was copied out to it: the
/// lock's type and, unless that is `F_UNLCK`, its range as an absolute start
/// and a length (zero for a range that reaches the end of the file) and the
/// holder's process. Offsets beyond the signed range wrap.
pub open spec fn copied_out(before: c_flock, lock: FlockView) -> c_flock {
    if lock.type_ == FlockType::F_UNLCK {
        c_flock { l_type: type_code(lock.type_), ..before }
    } else {
        c_flock {
            l_type: type_code(lock.type_),
            l_whence: 0,
            l_start: lock.range.start as off_t,
            l_len: if lock.range.end == RANGE_EOF {
                0
            } else {
                lock.range.len() as off_t
            },
            l_pid: lock.pid,
        }
    }
}

impl c_flock {
    /// Reports `lock` to user space through this structure.
    pub fn copy_from_safe(&mut self, lock: &Flock)
        ensures
            *final(self) == copied_out(*old(self), lock@),
    {
        self.l_type = lock.type_.to_u16();
        if !lock.type_.is_unlck() {
            self.l_whence = 0;
            self.l_start = #[verifier::truncate]
            (lock.range.start() as off_t);
            self.l_len = if lock.range.end() == RANGE_EOF {
                0
            } else {
                #[verifier::truncate]
                (lock.range.len() as off_t)
            };
            self.l_pid = lock.pid;
        }
    }
}

/// Mathematical model of a lock record.
pub struct FlockView {
    pub owner: ObjectId,
    pub type_: FlockType,
    pub range: RangeView,
    pub pid: pid_t,
    pub waiters: Seq<Waiter>,
    pub is_nonblocking: bool,
}

impl FlockView {
    pub open spec fn same_owner_with(self, other: FlockView) -> bool {
        self.owner == other.owner
    }

    pub open spec fn same_type_with(self, other: FlockView) -> bool {
        self.type_ == other.type_
    }

    pub open spec fn overlap_with(self, other: FlockView) -> bool {
        self.range.overlap_with(other.range)
    }

    /// Two locks conflict where their owners differ, their ranges overlap and
    /// at least one of them is exclusive.
    pub open spec fn conflict_with(self, other: FlockView) -> bool {
        &&& self.owner != other.owner
        &&& self.range.overlap_with(other.range)
        &&& (self.type_ == FlockType::F_WRLCK || other.type_ == FlockType::F_WRLCK)
    }

    /// The same lock over another range.
    pub open spec fn with_range(self, range: RangeView) -> FlockView {
        FlockView { range, ..self }
    }

    /// The same lock with nobody waiting on it.
    pub open spec fn without_waiters(self) -> FlockView {
        FlockView { waiters: Seq::empty(), ..self }
    }

    /// The same lock with `waiters` queued on it.
    pub open spec fn with_waiters(self, waiters: Seq<Waiter>) -> FlockView {
        FlockView { waiters, ..self }
    }

    /// The same lock over another range; whoever waited on it is gone where
    /// the change gave up bytes.
    pub open spec fn resized(self, range: RangeView) -> FlockView {
        FlockView {
            range,
            waiters: if self.range.report(range) == crate::range::FlockRangeReport::Shrink {
                Seq::empty()
            } else {
                self.waiters
            },
            ..self
        }
    }

    /// The waiters that a change of the range to `range` wakes.
    pub open spec fn woken_by(self, range: RangeView) -> Seq<Waiter> {
        if self.range.report(range) == crate::range::FlockRangeReport::Shrink {
            self.waiters
        } else {
            Seq::empty()
        }
    }

    /// This lock after it took over who holds `other`, what kind it is and
    /// where it lies.
    pub open spec fn reset_by(self, other: FlockView) -> FlockView {
        FlockView {
            owner: other.owner,
            type_: other.type_,
            range: other.range,
            pid: other.pid,
            ..self
        }
    }
}

/// A lock record: who holds which bytes in what way, and who waits for them.
#[derive(Debug)]
pub struct Flock {
    /// Owner of lock, corresponds to the file table
    owner: ObjectId,
    /// Type of lock, F_RDLCK, F_WRLCK, or F_UNLCK
    type_: FlockType,
    /// Range of lock
    range: FlockRange,
    /// Process holding the lock
    pid: pid_t,
    /// Waiters that are blocking by the lock
    waiters: Option<WaiterQueue>,
    /// Whether the request is non-blocking
    is_nonblocking: bool,
}

impl View for Flock {
    type V = FlockView;

    closed spec fn view(&self) -> FlockView {
        FlockView {
            owner: self.owner,
            type_: self.type_,
            range: self.range@,
            pid: self.pid,
            waiters: match self.waiters {
                Some(q) => q@,
                None => Seq::empty(),
            },
            is_nonblocking: self.is_nonblocking,
        }
    }
}

impl FlockType {
    fn is_unlck(&self) -> (r: bool)
        ensures
            r == (*self == FlockType::F_UNLCK),
    {
        match self {
            FlockType::F_UNLCK => true,
            _ => false,
        }
    }
}

impl Flock {
    /// A record made of its parts.
    pub(crate) fn from_parts(
        owner: ObjectId,
        type_: FlockType,
        range: FlockRange,
        pid: pid_t,
        waiters: Option<WaiterQueue>,
        is_nonblocking: bool,
    ) -> (lock: Self)
        ensures
            lock@ == (FlockView {
                owner,
                type_,
                range: range@,
                pid,
                waiters: match waiters {
                    Some(q) => q@,
                    None => Seq::empty(),
                },
                is_nonblocking,
            }),
            lock@.range.valid(),
    {
        let _ = range.start();
        Self { owner, type_, range, pid, waiters, is_nonblocking }
    }

    pub fn owner(&self) -> (r: ObjectId)
        ensures
            r == self@.owner,
    {
        self.owner
    }

    pub fn type_(&self) -> (r: FlockType)
        ensures
            r == self@.type_,
    {
        self.type_
    }

    pub fn set_type(&mut self, type_: FlockType)
        ensures
            final(self)@ == (FlockView { type_, ..old(self)@ }),
    {
        self.type_ = type_;
    }

    pub fn range(&self) -> (r: FlockRange)
        ensures
            r@ == self@.range,
            r@.valid(),
    {
        let _ = self.range.start();
        self.range
    }

    pub fn pid(&self) -> (r: pid_t)
        ensures
            r == self@.pid,
    {
        self.pid
    }

    pub fn is_nonblocking(&self) -> (r: bool)
        ensures
            r == self@.is_nonblocking,
    {
        self.is_nonblocking
    }

    /// The waiters queued on this lock, first come first.
    pub fn waiters(&self) -> (r: Vec<Waiter>)
        ensures
            r@ == self@.waiters,
    {
        let mut r: Vec<Waiter> = Vec::new();
        match &self.waiters {
            Some(q) => {
                let mut i: usize = 0;
                while i < q.len()
                    invariant
                        i <= q@.len(),
                        r@ == q@.subrange(0, i as int),
                    decreases q@.len() - i,
                {
                    r.push(q.get(i));
                    i = i + 1;
                    assert(r@ =~= q@.subrange(0, i as int));
                }
                assert(r@ =~= q@);
            },
            None => {},
        }
        r
    }

    /// Queues `waiter` behind those already waiting on this lock. A waiter
    /// that waits on this lock already leaves its place for the back.
    pub fn enqueue_waiter(&mut self, waiter: &Waiter)
        ensures
            final(self)@ == old(self)@.with_waiters(
                without(old(self)@.waiters, *waiter).push(*waiter),
            ),
    {
        if self.waiters.is_none() {
            self.waiters = Some(WaiterQueue::new());
            proof {
                Seq::<Waiter>::empty().lemma_filter_len(other_than(*waiter));
                assert(without(Seq::<Waiter>::empty(), *waiter) =~= Seq::<Waiter>::empty());
            }
        }
        match &mut self.waiters {
            Some(q) => q.reset_and_enqueue(waiter),
            None => {},
        }
    }

    /// Takes `waiter` out of the queue of this lock, if it waits on it.
    pub fn remove_waiter(&mut self, waiter: &Waiter)
        ensures
            final(self)@ == old(self)@.with_waiters(without(old(self)@.waiters, *waiter)),
    {
        match &mut self.waiters {
            Some(q) => q.remove(waiter),
            None => {
                proof {
                    Seq::<Waiter>::empty().lemma_filter_len(other_than(*waiter));
                    assert(without(Seq::<Waiter>::empty(), *waiter) =~= Seq::<Waiter>::empty());
                }
            },
        }
    }

    /// Empties the queue of this lock and hands out the waiters that were in
    /// it, first come first, for the caller to wake.
    pub fn dequeue_and_wake_all_waiters(&mut self) -> (woken: Vec<Waiter>)
        ensures
            woken@ == old(self)@.waiters,
            final(self)@ == old(self)@.without_waiters(),
    {
        match &mut self.waiters {
            Some(q) => q.dequeue_and_wake_all(),
            None => Vec::new(),
        }
    }

    pub fn conflict_with(&self, other: &Self) -> (r: bool)
        ensures
            r == self@.conflict_with(other@),
    {
        // locks owned by the same process do not conflict
        if self.same_owner_with(other) {
            return false;
        }
        // locks do not conflict if not overlap
        if !self.overlap_with(other) {
            return false;
        }
        // write lock is exclusive
        if self.type_ == FlockType::F_WRLCK || other.type_ == FlockType::F_WRLCK {
            return true;
        }
        false
    }

    pub fn same_owner_with(&self, other: &Self) -> (r: bool)
        ensures
            r == self@.same_owner_with(other@),
    {
        self.owner == other.owner
    }

    pub fn same_type_with(&self, other: &Self) -> (r: bool)
        ensures
            r == self@.same_type_with(other@),
    {
        self.type_ == other.type_
    }

    pub fn overlap_with(&self, other: &Self) -> (r: bool)
        ensures
            r == self@.range.overlap_with(other@.range),
    {
        self.range.overlap_with(&other.range)
    }

    pub fn left_overlap_with(&self, other: &Self) -> (r: bool)
        ensures
            r == self@.range.left_overlap_with(other@.range),
    {
        self.range.left_overlap_with(&other.range)
    }

    pub fn middle_overlap_with(&self, other: &Self) -> (r: bool)
        ensures
            r == self@.range.middle_overlap_with(other@.range),
    {
        self.range.middle_overlap_with(&other.range)
    }

    pub fn right_overlap_with(&self, other: &Self) -> (r: bool)
        ensures
            r == self@.range.right_overlap_with(other@.range),
    {
        self.range.right_overlap_with(&other.range)
    }

    pub fn in_front_of(&self, other: &Self) -> (r: bool)
        ensures
            r == self@.range.in_front_of(other@.range),
    {
        self.range.in_front_of(&other.range)
    }

    pub fn in_front_of_or_adjacent_before(&self, other: &Self) -> (r: bool)
        ensures
            r == self@.range.in_front_of_or_adjacent_before(other@.range),
    {
        self.range.in_front_of_or_adjacent_before(&other.range)
    }

    /// Extends the range of this lock to cover that of `other`, which touches
    /// or overlaps it. Nobody is woken: the lock gives up no byte.
    pub fn merge_range(&mut self, other: &Self)
        requires
            old(self)@.range.adjacent_or_overlap_with(other@.range),
        ensures
            final(self)@ == old(self)@.with_range(old(self)@.range.hull(other@.range)),
            final(self)@.range.valid(),
    {
        let _ = self.range.merge(&other.range);
    }

    /// Moves the start of the range, which must not pass its end, and hands
    /// out the waiters to wake: all that were queued where the range shrank,
    /// none otherwise.
    pub fn set_start(&mut self, new_start: u64) -> (woken: Vec<Waiter>)
        requires
            new_start <= old(self)@.range.end,
        ensures
            final(self)@ == old(self)@.resized(
                RangeView { start: new_start as int, end: old(self)@.range.end },
            ),
            woken@ == old(self)@.woken_by(
                RangeView { start: new_start as int, end: old(self)@.range.end },
            ),
            final(self)@.range.valid(),
    {
        let report = self.range.set_start(new_start);
        match report {
            Ok(crate::range::FlockRangeReport::Shrink) => self.dequeue_and_wake_all_waiters(),
            _ => Vec::new(),
        }
    }

    /// Moves the end of the range, which must not pass its start, and hands
    /// out the waiters to wake: all that were queued where the range shrank,
    /// none otherwise.
    pub fn set_end(&mut self, new_end: u64) -> (woken: Vec<Waiter>)
        requires
            new_end >= old(self)@.range.start,
        ensures
            final(self)@ == old(self)@.resized(
                RangeView { start: old(self)@.range.start, end: new_end as int },
            ),
            woken@ == old(self)@.woken_by(
                RangeView { start: old(self)@.range.start, end: new_end as int },
            ),
            final(self)@.range.valid(),
    {
        let report = self.range.set_end(new_end);
        match report {
            Ok(crate::range::FlockRangeReport::Shrink) => self.dequeue_and_wake_all_waiters(),
            _ => Vec::new(),
        }
    }

    /// Takes over from `lock` who holds it, what kind it is and where it
    /// lies. The waiters and the blocking mode stay as they are.
    pub fn reset_by(&mut self, lock: &Self)
        ensures
            final(self)@ == old(self)@.reset_by(lock@),
    {
        self.owner = lock.owner;
        self.type_ = lock.type_;
        self.range = lock.range;
        self.pid = lock.pid;
    }
}

impl Clone for Flock {
    /// A copy of the record without its waiters: they wait on the record itself.
    fn clone(&self) -> (res: Self)
        ensures
            res@ == self@.without_waiters(),
            res@.range.valid(),
    {
        let _ = self.range.start();
        Self {
            owner: self.owner,
            type_: self.type_,
            range: self.range,
            pid: self.pid,
            waiters: None,
            is_nonblocking: self.is_nonblocking,
        }
    }
}

} // verus!
