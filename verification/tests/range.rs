use posix_flock::{
    c_flock, FlockError, FlockRange, FlockRangeReport, FlockType, FlockWhence, ObjectId,
    RANGE_EOF,
};

fn range(start: u64, end: u64) -> FlockRange {
    let mut r = FlockRange::new(0, 0).unwrap();
    r.set_end(end).unwrap();
    r.set_start(start).unwrap();
    r
}

fn request(whence: u16, start: i64, len: i64) -> c_flock {
    c_flock { l_type: 0, l_whence: whence, l_start: start, l_len: len, l_pid: 0 }
}

#[test]
fn new_with_positive_len_ends_at_start_plus_len_minus_one() {
    let r = FlockRange::new(10, 5).unwrap();
    assert_eq!((r.start(), r.end()), (10, 14));
    assert_eq!(r.len(), 5);
}

#[test]
fn new_with_zero_len_reaches_end_of_file() {
    let r = FlockRange::new(7, 0).unwrap();
    assert_eq!((r.start(), r.end()), (7, RANGE_EOF));
}

#[test]
fn new_with_negative_len_counts_back_from_start() {
    let r = FlockRange::new(100, -30).unwrap();
    assert_eq!((r.start(), r.end()), (70, 99));
    assert_eq!(r.len(), 30);
}

#[test]
fn new_rejects_negative_start() {
    assert_eq!(FlockRange::new(-1, 5), Err(FlockError::InvalidArgument));
    assert_eq!(FlockRange::new(-1, 0), Err(FlockError::InvalidArgument));
}

#[test]
fn new_rejects_negative_len_that_passes_the_start_of_the_file() {
    assert_eq!(FlockRange::new(10, -11), Err(FlockError::InvalidArgument));
    assert_eq!(FlockRange::new(0, -1), Err(FlockError::InvalidArgument));
    let r = FlockRange::new(10, -10).unwrap();
    assert_eq!((r.start(), r.end()), (0, 9));
}

#[test]
fn new_reports_overflow_of_the_end() {
    assert_eq!(FlockRange::new(i64::MAX, 2), Err(FlockError::Overflow));
    assert_eq!(FlockRange::new(1, i64::MAX), {
        let mut r = FlockRange::new(1, 1).unwrap();
        r.set_end(i64::MAX as u64).unwrap();
        Ok(r)
    });
    assert_eq!(FlockRange::new(2, i64::MAX), Err(FlockError::Overflow));
}

#[test]
fn len_counts_both_ends() {
    assert_eq!(range(5, 5).len(), 1);
    assert_eq!(range(1, RANGE_EOF).len(), RANGE_EOF);
}

#[test]
fn set_start_reports_what_happened() {
    let mut r = range(10, 20);
    assert_eq!(r.set_start(15), Ok(FlockRangeReport::Shrink));
    assert_eq!((r.start(), r.end()), (15, 20));
    assert_eq!(r.set_start(15), Ok(FlockRangeReport::Constant));
    assert_eq!(r.set_start(3), Ok(FlockRangeReport::Expand));
    assert_eq!((r.start(), r.end()), (3, 20));
    assert_eq!(r.set_start(20), Ok(FlockRangeReport::Shrink));
    assert_eq!((r.start(), r.end()), (20, 20));
}

#[test]
fn set_start_beyond_end_is_refused_and_changes_nothing() {
    let mut r = range(10, 20);
    assert_eq!(r.set_start(21), Err(FlockError::InvalidArgument));
    assert_eq!((r.start(), r.end()), (10, 20));
}

#[test]
fn set_end_reports_what_happened() {
    let mut r = range(10, 20);
    assert_eq!(r.set_end(15), Ok(FlockRangeReport::Shrink));
    assert_eq!((r.start(), r.end()), (10, 15));
    assert_eq!(r.set_end(15), Ok(FlockRangeReport::Constant));
    assert_eq!(r.set_end(30), Ok(FlockRangeReport::Expand));
    assert_eq!((r.start(), r.end()), (10, 30));
    assert_eq!(r.set_end(10), Ok(FlockRangeReport::Shrink));
}

#[test]
fn set_end_before_start_is_refused_and_changes_nothing() {
    let mut r = range(10, 20);
    assert_eq!(r.set_end(9), Err(FlockError::InvalidArgument));
    assert_eq!((r.start(), r.end()), (10, 20));
}

#[test]
fn overlap_needs_a_common_byte() {
    assert!(range(0, 10).overlap_with(&range(10, 20)));
    assert!(range(10, 20).overlap_with(&range(0, 10)));
    assert!(!range(0, 9).overlap_with(&range(10, 20)));
    assert!(range(5, 6).overlap_with(&range(0, 100)));
}

#[test]
fn overlap_kinds_exclude_each_other() {
    let b = range(10, 20);
    // left: starts at or before, ends inside
    assert!(range(5, 15).left_overlap_with(&b));
    assert!(range(10, 15).left_overlap_with(&b));
    assert!(!range(5, 20).left_overlap_with(&b));
    assert!(!range(0, 9).left_overlap_with(&b));
    // middle: strictly inside on both sides
    assert!(range(11, 19).middle_overlap_with(&b));
    assert!(!range(10, 19).middle_overlap_with(&b));
    assert!(!range(11, 20).middle_overlap_with(&b));
    // right: starts inside, reaches the end or beyond
    assert!(range(11, 20).right_overlap_with(&b));
    assert!(range(20, 30).right_overlap_with(&b));
    assert!(!range(10, 30).right_overlap_with(&b));
    assert!(!range(21, 30).right_overlap_with(&b));
    // full cover is none of the three
    let a = range(10, 20);
    assert!(a.overlap_with(&b));
    assert!(!a.left_overlap_with(&b) && !a.middle_overlap_with(&b) && !a.right_overlap_with(&b));
    let a = range(0, 30);
    assert!(!a.left_overlap_with(&b) && !a.middle_overlap_with(&b) && !a.right_overlap_with(&b));
}

#[test]
fn in_front_of_needs_a_gap() {
    assert!(range(0, 8).in_front_of(&range(10, 20)));
    assert!(!range(0, 9).in_front_of(&range(10, 20)));
    assert!(range(0, 9).in_front_of_or_adjacent_before(&range(10, 20)));
    assert!(!range(0, 10).in_front_of_or_adjacent_before(&range(10, 20)));
}

#[test]
fn nothing_is_in_front_of_a_range_that_starts_the_file() {
    assert!(!range(0, 0).in_front_of(&range(0, 5)));
    assert!(!range(3, 4).in_front_of(&range(0, 5)));
    assert!(!range(0, RANGE_EOF).in_front_of(&range(0, 5)));
    assert!(!range(0, 0).in_front_of(&range(1, 5)));
    assert!(!range(0, 0).in_front_of_or_adjacent_before(&range(0, 5)));
}

#[test]
fn adjacent_or_overlap_is_the_merge_gate() {
    assert!(range(0, 9).adjacent_or_overlap_with(&range(10, 19)));
    assert!(range(10, 19).adjacent_or_overlap_with(&range(0, 9)));
    assert!(range(0, 12).adjacent_or_overlap_with(&range(10, 19)));
    assert!(!range(0, 8).adjacent_or_overlap_with(&range(10, 19)));
    assert!(!range(10, 19).adjacent_or_overlap_with(&range(0, 8)));
    assert!(!range(5, 9).adjacent_or_overlap_with(&range(0, 3)));
    assert!(range(0, 3).adjacent_or_overlap_with(&range(0, 0)));
    assert!(!range(2, RANGE_EOF).adjacent_or_overlap_with(&range(0, 0)));
    assert!(range(1, RANGE_EOF).adjacent_or_overlap_with(&range(0, 0)));
}

#[test]
fn merge_covers_both_and_never_shrinks() {
    let mut r = range(10, 20);
    assert_eq!(r.merge(&range(21, 30)), Ok(FlockRangeReport::Expand));
    assert_eq!((r.start(), r.end()), (10, 30));
    assert_eq!(r.merge(&range(0, 9)), Ok(FlockRangeReport::Expand));
    assert_eq!((r.start(), r.end()), (0, 30));
    assert_eq!(r.merge(&range(5, 6)), Ok(FlockRangeReport::Constant));
    assert_eq!((r.start(), r.end()), (0, 30));
    assert_eq!(r.merge(&range(0, 40)), Ok(FlockRangeReport::Expand));
    assert_eq!((r.start(), r.end()), (0, 40));
}

#[test]
fn merge_of_ranges_apart_is_refused_and_changes_nothing() {
    let mut r = range(10, 20);
    assert_eq!(r.merge(&range(22, 30)), Err(FlockError::InvalidArgument));
    assert_eq!(r.merge(&range(0, 8)), Err(FlockError::InvalidArgument));
    assert_eq!((r.start(), r.end()), (10, 20));
}

#[test]
fn whence_codes() {
    assert_eq!(FlockWhence::from_u16(0), Ok(FlockWhence::SEEK_SET));
    assert_eq!(FlockWhence::from_u16(1), Ok(FlockWhence::SEEK_CUR));
    assert_eq!(FlockWhence::from_u16(2), Ok(FlockWhence::SEEK_END));
    assert_eq!(FlockWhence::from_u16(3), Err(FlockError::InvalidArgument));
    assert_eq!(FlockWhence::from_u16(u16::MAX), Err(FlockError::InvalidArgument));
    assert_eq!(FlockWhence::SEEK_SET.to_u16(), 0);
    assert_eq!(FlockWhence::SEEK_CUR.to_u16(), 1);
    assert_eq!(FlockWhence::SEEK_END.to_u16(), 2);
}

#[test]
fn type_codes() {
    assert_eq!(FlockType::from_u16(0), Ok(FlockType::F_RDLCK));
    assert_eq!(FlockType::from_u16(1), Ok(FlockType::F_WRLCK));
    assert_eq!(FlockType::from_u16(2), Ok(FlockType::F_UNLCK));
    assert_eq!(FlockType::from_u16(3), Err(FlockError::InvalidArgument));
    assert_eq!(FlockType::F_RDLCK.to_u16(), 0);
    assert_eq!(FlockType::F_WRLCK.to_u16(), 1);
    assert_eq!(FlockType::F_UNLCK.to_u16(), 2);
}

#[test]
fn request_from_the_start_of_the_file_ignores_position_and_size() {
    let r = FlockRange::from_c_flock_and_file(&request(0, 100, 50), 7777, 9999).unwrap();
    assert_eq!((r.start(), r.end()), (100, 149));
}

#[test]
fn request_from_the_current_position_adds_the_position() {
    let r = FlockRange::from_c_flock_and_file(&request(1, 100, 50), 1000, 9999).unwrap();
    assert_eq!((r.start(), r.end()), (1100, 1149));
    let r = FlockRange::from_c_flock_and_file(&request(1, -100, 0), 1000, 9999).unwrap();
    assert_eq!((r.start(), r.end()), (900, RANGE_EOF));
}

#[test]
fn request_from_the_end_of_the_file_adds_the_size() {
    let r = FlockRange::from_c_flock_and_file(&request(2, -10, 10), 1000, 5000).unwrap();
    assert_eq!((r.start(), r.end()), (4990, 4999));
    let r = FlockRange::from_c_flock_and_file(&request(2, 0, -5000), 1000, 5000).unwrap();
    assert_eq!((r.start(), r.end()), (0, 4999));
}

#[test]
fn request_with_unknown_whence_is_invalid() {
    assert_eq!(
        FlockRange::from_c_flock_and_file(&request(3, 0, 0), 0, 0),
        Err(FlockError::InvalidArgument)
    );
}

#[test]
fn request_whose_start_overflows_is_refused() {
    assert_eq!(
        FlockRange::from_c_flock_and_file(&request(1, i64::MAX, 1), 1, 0),
        Err(FlockError::Overflow)
    );
    assert_eq!(
        FlockRange::from_c_flock_and_file(&request(2, i64::MAX, 1), 0, 1),
        Err(FlockError::Overflow)
    );
    assert_eq!(
        FlockRange::from_c_flock_and_file(&request(2, i64::MIN, 1), 0, -1),
        Err(FlockError::Overflow)
    );
}

#[test]
fn request_whose_start_is_negative_is_invalid() {
    assert_eq!(
        FlockRange::from_c_flock_and_file(&request(1, -11, 1), 10, 0),
        Err(FlockError::InvalidArgument)
    );
    assert_eq!(
        FlockRange::from_c_flock_and_file(&request(0, -1, 0), 10, 10),
        Err(FlockError::InvalidArgument)
    );
}

#[test]
fn request_whose_end_overflows_is_refused() {
    assert_eq!(
        FlockRange::from_c_flock_and_file(&request(1, 10, i64::MAX), 10, 0),
        Err(FlockError::Overflow)
    );
}

#[test]
fn object_ids() {
    assert_eq!(ObjectId::null().get(), 0);
    assert_eq!(ObjectId::new(1).get(), 1);
    assert_eq!(ObjectId::new(u64::MAX / 2).get(), u64::MAX / 2);
    assert_ne!(ObjectId::new(1), ObjectId::null());
    assert_eq!(ObjectId::new(5), ObjectId::new(5));
    assert_ne!(ObjectId::new(5), ObjectId::new(6));
}
