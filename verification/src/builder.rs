use crate::error::FlockError;
use crate::flock::{pid_t, Flock, FlockType, FlockView};
use crate::object_id::ObjectId;
use crate::range::{FlockRange, RangeView};
use crate::waiter::{Waiter, WaiterQueue};
use vstd::prelude::*;

verus! {

/// Mathematical model of a builder: what has been set so far.
pub struct FlockBuilderView {
    pub owner: Option<ObjectId>,
    pub type_: Option<FlockType>,
    pub range: Option<RangeView>,
    pub pid: Option<pid_t>,
    pub waiters: Option<Seq<Waiter>>,
    pub is_nonblocking: Option<bool>,
}

impl FlockBuilderView {
    /// The lock that these settings make for a caller in process
    /// `current_pid`: none while the owner, the type or the range is missing;
    /// else the process is the caller's, nobody waits, and the request blocks,
    /// as far as nothing else was set.
    pub open spec fn built(self, current_pid: pid_t) -> Result<FlockView, FlockError> {
        if self.owner is None || self.type_ is None || self.range is None {
            Err(FlockError::InvalidArgument)
        } else {
            Ok(
                FlockView {
                    owner: self.owner->0,
                    type_: self.type_->0,
                    range: self.range->0,
                    pid: match self.pid {
                        Some(pid) => pid,
                        None => current_pid,
                    },
                    waiters: match self.waiters {
                        Some(waiters) => waiters,
                        None => Seq::empty(),
                    },
                    is_nonblocking: match self.is_nonblocking {
                        Some(is_nonblocking) => is_nonblocking,
                        None => false,
                    },
                },
            )
        }
    }
}

/// Collects the parts of a lock record.
pub struct FlockBuilder {
    // Mandatory field
    owner: Option<ObjectId>,
    type_: Option<FlockType>,
    range: Option<FlockRange>,
    // Optional fields
    pid: Option<pid_t>,
    waiters: Option<WaiterQueue>,
    is_nonblocking: Option<bool>,
}

impl View for FlockBuilder {
    type V = FlockBuilderView;

    closed spec fn view(&self) -> FlockBuilderView {
        FlockBuilderView {
            owner: self.owner,
            type_: self.type_,
            range: match self.range {
                Some(range) => Some(range@),
                None => None,
            },
            pid: self.pid,
            waiters: match self.waiters {
                Some(waiters) => Some(waiters@),
                None => None,
            },
            is_nonblocking: self.is_nonblocking,
        }
    }
}

impl FlockBuilder {
    pub fn new() -> (b: Self)
        ensures
            b@ == (FlockBuilderView {
                owner: None,
                type_: None,
                range: None,
                pid: None,
                waiters: None,
                is_nonblocking: None,
            }),
    {
        Self {
            owner: None,
            type_: None,
            range: None,
            pid: None,
            waiters: None,
            is_nonblocking: None,
        }
    }

    pub fn owner(self, owner: ObjectId) -> (b: Self)
        ensures
            b@ == (FlockBuilderView { owner: Some(owner), ..self@ }),
    {
        let mut b = self;
        b.owner = Some(owner);
        b
    }

    pub fn type_(self, type_: FlockType) -> (b: Self)
        ensures
            b@ == (FlockBuilderView { type_: Some(type_), ..self@ }),
    {
        let mut b = self;
        b.type_ = Some(type_);
        b
    }

    pub fn range(self, range: FlockRange) -> (b: Self)
        ensures
            b@ == (FlockBuilderView { range: Some(range@), ..self@ }),
    {
        let mut b = self;
        b.range = Some(range);
        b
    }

    pub fn pid(self, pid: pid_t) -> (b: Self)
        ensures
            b@ == (FlockBuilderView { pid: Some(pid), ..self@ }),
    {
        let mut b = self;
        b.pid = Some(pid);
        b
    }

    pub fn waiters(self, waiters: WaiterQueue) -> (b: Self)
        ensures
            b@ == (FlockBuilderView { waiters: Some(waiters@), ..self@ }),
    {
        let mut b = self;
        b.waiters = Some(waiters);
        b
    }

    pub fn is_nonblocking(self, is_nonblocking: bool) -> (b: Self)
        ensures
            b@ == (FlockBuilderView { is_nonblocking: Some(is_nonblocking), ..self@ }),
    {
        let mut b = self;
        b.is_nonblocking = Some(is_nonblocking);
        b
    }

    /// Makes the lock, for a caller that runs in process `current_pid`.
    pub fn build(self, current_pid: pid_t) -> (res: Result<Flock, FlockError>)
        ensures
            match res {
                Ok(lock) => self@.built(current_pid) == Ok::<FlockView, FlockError>(lock@)
                    && lock@.range.valid(),
                Err(e) => self@.built(current_pid) == Err::<FlockView, FlockError>(e),
            },
    {
        let owner = match self.owner {
            Some(owner) => owner,
            None => { return Err(FlockError::InvalidArgument); },
        };
        let type_ = match self.type_ {
            Some(type_) => type_,
            None => { return Err(FlockError::InvalidArgument); },
        };
        let range = match self.range {
            Some(range) => range,
            None => { return Err(FlockError::InvalidArgument); },
        };
        let pid = match self.pid {
            Some(pid) => pid,
            None => current_pid,
        };
        let is_nonblocking = match self.is_nonblocking {
            Some(is_nonblocking) => is_nonblocking,
            None => false,
        };
        Ok(Flock::from_parts(owner, type_, range, pid, self.waiters, is_nonblocking))
    }
}

} // verus!
