//! What is decided on a reference count.
use vstd::prelude::*;

verus! {

/// The largest thread-local count, and the largest cross-thread count to which
/// another reference is added.
pub const MAX_REFCOUNT: usize = isize::MAX as usize;

/// The count that a single reference has.
pub const SINGLE: usize = 1;

/// What becomes of a count when one reference goes.
#[derive(Clone, Copy, Debug, PartialEq, Eq, Structural)]
pub enum Release {
    /// Other references are left, this many of them.
    Left(usize),
    /// It was the last one: what was counted is to be freed.
    Last,
}

/// The thread-local count after one more reference, or `None` where it would
/// pass `MAX_REFCOUNT`: the program is to be aborted.
pub fn retain_thread(count: usize) -> (next: Option<usize>)
    ensures
        next == if count < MAX_REFCOUNT {
            Some((count + 1) as usize)
        } else {
            None
        },
    no_unwind
{
    if count < MAX_REFCOUNT {
        Some(count + 1)
    } else {
        None
    }
}

/// The cross-thread count after one more reference, or `None` where it had
/// passed `MAX_REFCOUNT` before: the program is to be aborted.
pub fn retain_cross(count: usize) -> (next: Option<usize>)
    ensures
        next == if count <= MAX_REFCOUNT {
            Some((count + 1) as usize)
        } else {
            None
        },
    no_unwind
{
    if count <= MAX_REFCOUNT {
        Some(count + 1)
    } else {
        None
    }
}

/// Whether the reference that asks is the only one counted. A pointer is unique
/// when this is so of both its counts.
pub fn is_single(count: usize) -> (single: bool)
    ensures
        single == (count == 1),
    no_unwind
{
    count == SINGLE
}

/// What becomes of a count, of either kind, when one reference goes.
pub fn release(count: usize) -> (after: Release)
    requires
        count >= 1,
    ensures
        after == if count == 1 {
            Release::Last
        } else {
            Release::Left((count - 1) as usize)
        },
    no_unwind
{
    if is_single(count) {
        Release::Last
    } else {
        Release::Left(count - 1)
    }
}

} // verus!
