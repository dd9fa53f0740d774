use vstd::prelude::*;

verus! {

/// A unique ID.
#[derive(PartialEq, Eq, Structural, Copy, Clone, Debug, Hash)]
pub struct ObjectId(u64);

impl ObjectId {
    /// The largest value an ID may take; the upper half of the value space is
    /// kept free so that racing issuers are noticed long before the counter
    /// wraps.
    pub open spec fn spec_max() -> u64 {
        (u64::MAX / 2) as u64
    }

    /// The value of the ID.
    pub closed spec fn value(self) -> u64 {
        self.0
    }

    /// The ID with the value `id`, as drawn from a counter that starts at 1
    /// and only grows.
    pub fn new(id: u64) -> (r: Self)
        requires
            0 < id <= Self::spec_max(),
        ensures
            r.value() == id,
            r != Self::null(),
    {
        Self(id)
    }

    /// Return a special "null" ID.
    ///
    /// Note that no ID created by `ObjectId::new()` will be equivalent to the
    /// null ID.
    #[verifier::when_used_as_spec(spec_null)]
    pub fn null() -> (r: Self)
        ensures
            r == Self::spec_null(),
            r.value() == 0,
    {
        Self(0)
    }

    pub closed spec fn spec_null() -> Self {
        Self(0)
    }

    /// Get the ID value as `u64`.
    pub fn get(&self) -> (r: u64)
        ensures
            r == self.value(),
    {
        self.0
    }
}

} // verus!
