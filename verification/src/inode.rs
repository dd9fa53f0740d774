use crate::flock::FlockView;
use crate::list::{FlockList, FlockListCreater};
use vstd::prelude::*;

verus! {

/// The place on an inode that holds its lock list. It is empty until the
/// list is first asked for, and holds one list from then on.
#[derive(Debug)]
pub struct INodeLockSlot {
    list: Option<FlockList>,
}

impl INodeLockSlot {
    /// Whether the list has been made.
    pub closed spec fn allocated(&self) -> bool {
        self.list is Some
    }

    /// The records of the list; none while the list has not been made.
    pub closed spec fn records(&self) -> Seq<FlockView> {
        match self.list {
            Some(list) => list@,
            None => Seq::empty(),
        }
    }

    /// A slot without a list.
    pub fn new() -> (slot: Self)
        ensures
            !slot.allocated(),
            slot.records() == Seq::<FlockView>::empty(),
    {
        Self { list: None }
    }

    pub fn is_allocated(&self) -> (r: bool)
        ensures
            r == self.allocated(),
    {
        self.list.is_some()
    }

    /// The list of this inode, if it has been made.
    pub fn list(&self) -> (list: Option<&FlockList>)
        ensures
            list is Some == self.allocated(),
            list is Some ==> list->0@ == self.records(),
    {
        self.list.as_ref()
    }

    /// The list of this inode, made by `creater` where there is none yet.
    /// What is done to the list through the reference is done to the slot.
    pub fn lock_list(&mut self, creater: &FlockListCreater) -> (list: &mut FlockList)
        ensures
            list@ == old(self).records(),
            final(self).allocated(),
            final(self).records() == final(list)@,
    {
        if self.list.is_none() {
            self.list = Some(creater.new_empty_list());
        }
        match &mut self.list {
            Some(list) => list,
            None => vstd::pervasive::unreached(),
        }
    }

    /// Empties the slot, as when the inode goes away, and returns the list
    /// that it held, if any.
    pub fn take(&mut self) -> (list: Option<FlockList>)
        ensures
            !final(self).allocated(),
            final(self).records() == Seq::<FlockView>::empty(),
            list is Some == old(self).allocated(),
            list is Some ==> list->0@ == old(self).records(),
    {
        self.list.take()
    }
}

} // verus!
