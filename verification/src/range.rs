use crate::error::FlockError;
use crate::flock::c_flock;
use vstd::prelude::*;

verus! {

/// Signed file offset, as used at the system-call boundary.
#[allow(non_camel_case_types)]
pub type off_t = i64;

/// The largest offset: a range ending here reaches to the end of the file.
pub const RANGE_EOF: u64 = u64::MAX;

/// Mathematical model of a range: the closed interval `[start, end]`.
pub struct RangeView {
    pub start: int,
    pub end: int,
}

impl RangeView {
    /// A range is never empty and lies within the offset space.
    pub open spec fn valid(self) -> bool {
        0 <= self.start <= self.end <= RANGE_EOF
    }

    /// Number of bytes in the interval.
    pub open spec fn len(self) -> int {
        self.end - self.start + 1
    }

    /// Whether the byte at `offset` lies in the interval.
    pub open spec fn contains(self, offset: int) -> bool {
        self.start <= offset <= self.end
    }

    /// The two intervals share at least one byte.
    pub open spec fn overlap_with(self, other: RangeView) -> bool {
        self.start <= other.end && self.end >= other.start
    }

    /// `self` overlaps `other` and sticks out on the left, or begins with it,
    /// while ending inside it.
    pub open spec fn left_overlap_with(self, other: RangeView) -> bool {
        self.overlap_with(other) && self.start <= other.start && self.end < other.end
    }

    /// `self` lies strictly inside `other`, leaving bytes on both sides.
    pub open spec fn middle_overlap_with(self, other: RangeView) -> bool {
        self.overlap_with(other) && self.start > other.start && self.end < other.end
    }

    /// `self` overlaps `other`, begins inside it and reaches its end or beyond.
    pub open spec fn right_overlap_with(self, other: RangeView) -> bool {
        self.overlap_with(other) && self.start > other.start && self.end >= other.end
    }

    /// `self` contains every byte of `other`.
    pub open spec fn cover(self, other: RangeView) -> bool {
        self.start <= other.start && other.end <= self.end
    }

    /// `self` ends before `other` begins, with at least one byte between them.
    pub open spec fn in_front_of(self, other: RangeView) -> bool {
        self.end + 1 < other.start
    }

    /// `self` ends before `other` begins; they may touch.
    pub open spec fn in_front_of_or_adjacent_before(self, other: RangeView) -> bool {
        self.end < other.start
    }

    /// The intervals overlap or touch, so that their union is an interval.
    pub open spec fn adjacent_or_overlap_with(self, other: RangeView) -> bool {
        self.end + 1 == other.start || other.end + 1 == self.start || self.overlap_with(other)
    }

    /// The smallest interval that contains both.
    pub open spec fn hull(self, other: RangeView) -> RangeView {
        RangeView {
            start: if other.start < self.start { other.start } else { self.start },
            end: if other.end > self.end { other.end } else { self.end },
        }
    }

    /// What a change from `self` to `after` is reported as, where one endpoint
    /// moved or none did.
    pub open spec fn report(self, after: RangeView) -> FlockRangeReport {
        if after.start > self.start || after.end < self.end {
            FlockRangeReport::Shrink
        } else if after.start < self.start || after.end > self.end {
            FlockRangeReport::Expand
        } else {
            FlockRangeReport::Constant
        }
    }
}

/// The interval that a non-negative `start` and a signed `len` denote: `len`
/// bytes from `start` on, the rest of the file where `len` is zero, and the
/// `-len` bytes before `start` where `len` is negative.
pub open spec fn range_of(start: int, len: int) -> Result<RangeView, FlockError> {
    if start < 0 {
        Err(FlockError::InvalidArgument)
    } else if len > 0 {
        if start + len - 1 > i64::MAX {
            Err(FlockError::Overflow)
        } else {
            Ok(RangeView { start, end: start + len - 1 })
        }
    } else if len == 0 {
        Ok(RangeView { start, end: RANGE_EOF as int })
    } else if start + len < 0 {
        Err(FlockError::InvalidArgument)
    } else {
        Ok(RangeView { start: start + len, end: start - 1 })
    }
}

/// The absolute offset that `l_start` denotes relative to `whence`, given the
/// file's current position and size.
pub open spec fn absolute_start(
    whence: FlockWhence,
    l_start: int,
    position: int,
    size: int,
) -> Result<int, FlockError> {
    let base = match whence {
        FlockWhence::SEEK_SET => 0,
        FlockWhence::SEEK_CUR => position,
        FlockWhence::SEEK_END => size,
    };
    if base + l_start > i64::MAX || base + l_start < i64::MIN {
        Err(FlockError::Overflow)
    } else {
        Ok(base + l_start)
    }
}

/// The range that a lock request `(whence, l_start, l_len)` denotes on a file
/// at `position` with `size` bytes.
pub open spec fn resolve(
    whence: u16,
    l_start: int,
    l_len: int,
    position: int,
    size: int,
) -> Result<RangeView, FlockError> {
    match whence_of(whence) {
        Err(e) => Err(e),
        Ok(w) => match absolute_start(w, l_start, position, size) {
            Err(e) => Err(e),
            Ok(start) => range_of(start, l_len),
        },
    }
}

/// The origin that a whence code names.
pub open spec fn whence_of(code: u16) -> Result<FlockWhence, FlockError> {
    if code == 0 {
        Ok(FlockWhence::SEEK_SET)
    } else if code == 1 {
        Ok(FlockWhence::SEEK_CUR)
    } else if code == 2 {
        Ok(FlockWhence::SEEK_END)
    } else {
        Err(FlockError::InvalidArgument)
    }
}

/// How two results relate when one holds a range and the other its model.
pub open spec fn same_range(
    got: Result<FlockRange, FlockError>,
    want: Result<RangeView, FlockError>,
) -> bool {
    match got {
        Ok(r) => want == Ok::<RangeView, FlockError>(r@),
        Err(e) => want == Err::<RangeView, FlockError>(e),
    }
}

/// A closed byte interval `[start, end]` of a file.
#[derive(Debug, Copy, Clone, PartialEq, Eq, Structural)]
pub struct FlockRange {
    start: u64,
    end: u64,
}

impl View for FlockRange {
    type V = RangeView;

    closed spec fn view(&self) -> RangeView {
        RangeView { start: self.start as int, end: self.end as int }
    }
}

impl FlockRange {
    #[verifier::type_invariant]
    spec fn inv(self) -> bool {
        self.start <= self.end
    }

    /// Resolves a lock request against a file's current position and size.
    /// `position` is read only for `SEEK_CUR`, `size` only for `SEEK_END`.
    pub fn from_c_flock_and_file(lock: &c_flock, position: off_t, size: off_t) -> (res: Result<
        Self,
        FlockError,
    >)
        ensures
            same_range(
                res,
                resolve(
                    lock.l_whence,
                    lock.l_start as int,
                    lock.l_len as int,
                    position as int,
                    size as int,
                ),
            ),
            res is Ok ==> res->Ok_0@.valid(),
    {
        let l_start = lock.l_start;
        let whence = match FlockWhence::from_u16(lock.l_whence) {
            Ok(w) => w,
            Err(e) => { return Err(e); },
        };
        let start = match whence {
            FlockWhence::SEEK_SET => l_start,
            FlockWhence::SEEK_CUR => match position.checked_add(l_start) {
                Some(s) => s,
                None => { return Err(FlockError::Overflow); },
            },
            FlockWhence::SEEK_END => match size.checked_add(l_start) {
                Some(s) => s,
                None => { return Err(FlockError::Overflow); },
            },
        };
        FlockRange::new(start, lock.l_len)
    }

    /// The range of `len` bytes from `start` on. A `len` of zero reaches to
    /// the end of the file; a negative one counts back from `start`.
    pub fn new(start: off_t, len: off_t) -> (res: Result<Self, FlockError>)
        ensures
            same_range(res, range_of(start as int, len as int)),
            res is Ok ==> res->Ok_0@.valid(),
    {
        if start < 0 {
            return Err(FlockError::InvalidArgument);
        }
        if len > 0 {
            match start.checked_add(len - 1) {
                Some(end) => Ok(Self { start: start as u64, end: end as u64 }),
                None => Err(FlockError::Overflow),
            }
        } else if len == 0 {
            Ok(Self { start: start as u64, end: RANGE_EOF })
        } else {
            let new_start = start + len;
            if new_start < 0 {
                return Err(FlockError::InvalidArgument);
            }
            Ok(Self { start: new_start as u64, end: (start - 1) as u64 })
        }
    }

    /// Number of bytes in the range. The whole offset space has one byte more
    /// than fits the result, and is left out.
    pub fn len(&self) -> (r: u64)
        requires
            self@.len() <= u64::MAX,
        ensures
            r == self@.len(),
    {
        proof {
            use_type_invariant(self);
        }
        self.end - self.start + 1
    }

    pub fn start(&self) -> (r: u64)
        ensures
            r == self@.start,
            self@.valid(),
    {
        proof {
            use_type_invariant(self);
        }
        self.start
    }

    /// Moves the start. Refused, with the range unchanged, where the new
    /// start lies beyond the end.
    pub fn set_start(&mut self, new_start: u64) -> (res: Result<FlockRangeReport, FlockError>)
        ensures
            new_start > old(self)@.end ==> res == Err::<FlockRangeReport, FlockError>(
                FlockError::InvalidArgument,
            ) && final(self)@ == old(self)@,
            new_start <= old(self)@.end ==> final(self)@ == (RangeView {
                start: new_start as int,
                end: old(self)@.end,
            }) && res == Ok::<FlockRangeReport, FlockError>(old(self)@.report(final(self)@)),
            final(self)@.valid(),
    {
        proof {
            use_type_invariant(&*self);
        }
        if new_start > self.end {
            return Err(FlockError::InvalidArgument);
        }
        let old_start = self.start;
        self.start = new_start;
        let report = if new_start > old_start {
            FlockRangeReport::Shrink
        } else if new_start < old_start {
            FlockRangeReport::Expand
        } else {
            FlockRangeReport::Constant
        };
        Ok(report)
    }

    pub fn end(&self) -> (r: u64)
        ensures
            r == self@.end,
            self@.valid(),
    {
        proof {
            use_type_invariant(self);
        }
        self.end
    }

    /// Moves the end. Refused, with the range unchanged, where the new end
    /// lies before the start.
    pub fn set_end(&mut self, new_end: u64) -> (res: Result<FlockRangeReport, FlockError>)
        ensures
            new_end < old(self)@.start ==> res == Err::<FlockRangeReport, FlockError>(
                FlockError::InvalidArgument,
            ) && final(self)@ == old(self)@,
            new_end >= old(self)@.start ==> final(self)@ == (RangeView {
                start: old(self)@.start,
                end: new_end as int,
            }) && res == Ok::<FlockRangeReport, FlockError>(old(self)@.report(final(self)@)),
            final(self)@.valid(),
    {
        proof {
            use_type_invariant(&*self);
        }
        if new_end < self.start {
            return Err(FlockError::InvalidArgument);
        }
        let old_end = self.end;
        self.end = new_end;
        let report = if new_end < old_end {
            FlockRangeReport::Shrink
        } else if new_end > old_end {
            FlockRangeReport::Expand
        } else {
            FlockRangeReport::Constant
        };
        Ok(report)
    }

    pub fn overlap_with(&self, other: &Self) -> (r: bool)
        ensures
            r == self@.overlap_with(other@),
    {
        self.start <= other.end && self.end >= other.start
    }

    pub fn left_overlap_with(&self, other: &Self) -> (r: bool)
        ensures
            r == self@.left_overlap_with(other@),
    {
        if !self.overlap_with(other) {
            return false;
        }
        self.start <= other.start && self.end < other.end
    }

    pub fn middle_overlap_with(&self, other: &Self) -> (r: bool)
        ensures
            r == self@.middle_overlap_with(other@),
    {
        if !self.overlap_with(other) {
            return false;
        }
        self.start > other.start && self.end < other.end
    }

    pub fn right_overlap_with(&self, other: &Self) -> (r: bool)
        ensures
            r == self@.right_overlap_with(other@),
    {
        if !self.overlap_with(other) {
            return false;
        }
        self.start > other.start && self.end >= other.end
    }

    pub fn adjacent_or_overlap_with(&self, other: &Self) -> (r: bool)
        ensures
            r == self@.adjacent_or_overlap_with(other@),
    {
        let adjacent = (other.start > 0 && self.end == other.start - 1) || (self.start > 0
            && other.end == self.start - 1);
        adjacent || self.overlap_with(other)
    }

    pub fn in_front_of(&self, other: &Self) -> (r: bool)
        ensures
            r == self@.in_front_of(other@),
    {
        other.start > 0 && self.end < other.start - 1
    }

    pub fn in_front_of_or_adjacent_before(&self, other: &Self) -> (r: bool)
        ensures
            r == self@.in_front_of_or_adjacent_before(other@),
    {
        self.end < other.start
    }

    /// Extends the range to cover `other` as well. Refused, with the range
    /// unchanged, where the two neither touch nor overlap.
    pub fn merge(&mut self, other: &Self) -> (res: Result<FlockRangeReport, FlockError>)
        ensures
            !old(self)@.adjacent_or_overlap_with(other@) ==> res == Err::<
                FlockRangeReport,
                FlockError,
            >(FlockError::InvalidArgument) && final(self)@ == old(self)@,
            old(self)@.adjacent_or_overlap_with(other@) ==> final(self)@ == old(self)@.hull(other@)
                && res == Ok::<FlockRangeReport, FlockError>(old(self)@.report(final(self)@)),
            final(self)@.valid(),
    {
        proof {
            use_type_invariant(&*self);
            use_type_invariant(other);
        }
        if !self.adjacent_or_overlap_with(other) {
            return Err(FlockError::InvalidArgument);
        }
        let mut report = FlockRangeReport::Constant;
        if other.start < self.start {
            self.start = other.start;
            report = FlockRangeReport::Expand;
        }
        if other.end > self.end {
            self.end = other.end;
            report = FlockRangeReport::Expand;
        }
        Ok(report)
    }
}

/// What a change of a range did to the bytes it holds.
#[derive(Debug, Copy, Clone, PartialEq, Eq, Structural)]
pub enum FlockRangeReport {
    Constant,
    Shrink,
    Expand,
}

/// The origin that a request's start is relative to.
#[allow(non_camel_case_types)]
#[derive(Debug, Copy, Clone, PartialEq, Eq, Structural)]
pub enum FlockWhence {
    SEEK_SET,
    SEEK_CUR,
    SEEK_END,
}

impl FlockWhence {
    pub fn from_u16(whence: u16) -> (res: Result<Self, FlockError>)
        ensures
            res == whence_of(whence),
    {
        match whence {
            0 => Ok(FlockWhence::SEEK_SET),
            1 => Ok(FlockWhence::SEEK_CUR),
            2 => Ok(FlockWhence::SEEK_END),
            _ => Err(FlockError::InvalidArgument),
        }
    }

    /// The code of this origin at the system-call boundary.
    pub fn to_u16(&self) -> (code: u16)
        ensures
            whence_of(code) == Ok::<FlockWhence, FlockError>(*self),
    {
        match self {
            FlockWhence::SEEK_SET => 0,
            FlockWhence::SEEK_CUR => 1,
            FlockWhence::SEEK_END => 2,
        }
    }
}

} // verus!
