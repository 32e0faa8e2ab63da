use bark::counts::{is_single, release, retain_cross, retain_thread, Release, MAX_REFCOUNT};

#[test]
fn limit_is_the_largest_isize() {
    assert_eq!(MAX_REFCOUNT, isize::MAX as usize);
}

#[test]
fn thread_count_stops_at_the_limit() {
    assert_eq!(retain_thread(1), Some(2));
    assert_eq!(retain_thread(MAX_REFCOUNT - 1), Some(MAX_REFCOUNT));
    assert_eq!(retain_thread(MAX_REFCOUNT), None);
    assert_eq!(retain_thread(usize::MAX), None);
}

#[test]
fn cross_count_stops_past_the_limit() {
    assert_eq!(retain_cross(1), Some(2));
    assert_eq!(retain_cross(MAX_REFCOUNT), Some(MAX_REFCOUNT + 1));
    assert_eq!(retain_cross(MAX_REFCOUNT + 1), None);
    assert_eq!(retain_cross(usize::MAX), None);
}

#[test]
fn only_a_count_of_one_is_single() {
    assert!(!is_single(0));
    assert!(is_single(1));
    assert!(!is_single(2));
    assert!(!is_single(usize::MAX));
}

#[test]
fn last_reference_is_told_from_the_others() {
    assert_eq!(release(1), Release::Last);
    assert_eq!(release(2), Release::Left(1));
    assert_eq!(release(usize::MAX), Release::Left(usize::MAX - 1));
}
