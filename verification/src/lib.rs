//! Reference-counted pointers whose data may cross threads while the counts that
//! one thread keeps for itself stay plain, non-atomic numbers.
//!
//! A [`Bark`] belongs to one thread. All `Bark`s that were cloned from one
//! another share a thread-local count, and together they are a single reference
//! in the cross-thread count of the block that holds the value. An
//! [`AtomicBark`] may be handed to another thread: each one is a reference in
//! the cross-thread count, and on the other side it is promoted to a `Bark` with
//! a thread-local count of its own.
//!
//! The counts and the blocks lie in a [`Heap`]. A pointer is a key into it, and
//! every operation is handed the heap that it works on. So a contract can say,
//! of the whole memory, what an operation changes: [`memory::Memory`] is the
//! memory as contracts see it, [`laws`] holds what follows from them, and
//! [`steps`] what follows when any number of threads take turns on one heap.
//!
//! A heap learns that a pointer is gone from `drop`. A pointer that goes out of
//! scope without it stays counted, so whoever holds a pointer drops it. The drop of
//! the last pointer hands the value back, to be destroyed with the result.
pub mod atomic_bark;
pub mod bark;
pub mod counts;
pub mod heap;
pub mod laws;
pub mod memory;
pub mod pinned;
pub mod slab;
pub mod steps;

pub use crate::atomic_bark::AtomicBark;
pub use crate::bark::Bark;
pub use crate::heap::Heap;
pub use crate::pinned::Pinned;
