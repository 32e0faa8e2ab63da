//! The pointer that may cross threads.
use core::marker::PhantomData;
use std::sync::Arc;
use vstd::prelude::*;
use crate::bark::Bark;
use crate::counts::MAX_REFCOUNT;
use crate::heap::{BarkInner, Heap};
use crate::laws;
use crate::memory::Handle;
use crate::pinned::Pinned;
use crate::slab::grown;

verus! {

/// A thread-safe pointer. Unlike `Bark<T>`, `AtomicBark<T>` is both `Send` and
/// `Sync` where `T` is both; but each one is counted in the count that all threads
/// share. For lots of cloning and dropping, prefer `Bark<T>`, and use
/// `AtomicBark<T>` to cross from thread to thread.
///
/// A pointer is given up with `drop`, which takes the heap. One that merely goes
/// out of scope, where no heap is at hand, stays counted as alive: its reference
/// is never taken off, and its value never freed.
#[must_use]
pub struct AtomicBark<T> {
    pub(crate) inner: usize,
    // As an `Arc` is, the pointer is `Send` and `Sync` where `T` is both.
    pub(crate) _phantom: PhantomData<Arc<T>>,
}

impl<T> View for AtomicBark<T> {
    type V = Handle;

    open(crate) spec fn view(&self) -> Handle {
        Handle::AtomicBark { inner: self.inner }
    }
}

impl<T> AtomicBark<T> {
    /// Creates a new `AtomicBark`, with a block of its own.
    pub fn new(value: T, heap: &mut Heap<T>) -> (bark: AtomicBark<T>)
        requires
            old(heap).wf(),
        ensures
            final(heap).wf(),
            bark@ is AtomicBark,
            old(heap)@.fresh(bark@),
            final(heap)@ == old(heap)@.allocate(bark@, value),
            final(heap)@.is_sole(bark@),
            final(heap)@.cross_count(bark@.inner()) == 1,
            final(heap)@.cross_moved(old(heap)@, bark@.inner(), 1),
            final(heap).local() == old(heap).local(),
            final(heap).room().0 == old(heap).room().0,
            final(heap).room().1 == grown(old(heap).room().1, old(heap).shared()),
    {
        let inner = heap.inners.insert(BarkInner { cross: 1, value: Box::new(value) });
        let bark = AtomicBark { inner, _phantom: PhantomData };
        proof {
            heap.handles@ = heap.handles@.insert(bark@);
            laws::law_allocate(old(heap)@, bark@, value);
            assert(heap@ =~= old(heap)@.allocate(bark@, value));
            heap.lemma_wf(*old(heap));
        }
        bark
    }

    /// Creates a new `AtomicBark` as `AtomicBark::new` does.
    pub fn from(value: T, heap: &mut Heap<T>) -> (bark: AtomicBark<T>)
        requires
            old(heap).wf(),
        ensures
            final(heap).wf(),
            bark@ is AtomicBark,
            old(heap)@.fresh(bark@),
            final(heap)@ == old(heap)@.allocate(bark@, value),
            final(heap)@.is_sole(bark@),
            final(heap)@.cross_count(bark@.inner()) == 1,
            final(heap)@.cross_moved(old(heap)@, bark@.inner(), 1),
            final(heap).local() == old(heap).local(),
            final(heap).room().0 == old(heap).room().0,
            final(heap).room().1 == grown(old(heap).room().1, old(heap).shared()),
    {
        AtomicBark::new(value, heap)
    }

    /// Creates a new pinned `AtomicBark`: the value stays where it is, unmoved
    /// and unchanged, until the last pointer to it is gone.
    pub fn pin(data: T, heap: &mut Heap<T>) -> (pinned: Pinned<AtomicBark<T>>)
        requires
            old(heap).wf(),
        ensures
            final(heap).wf(),
            pinned@ is AtomicBark,
            old(heap)@.fresh(pinned@),
            final(heap)@ == old(heap)@.allocate(pinned@, data),
            final(heap)@.is_sole(pinned@),
            final(heap)@.cross_count(pinned@.inner()) == 1,
            final(heap)@.cross_moved(old(heap)@, pinned@.inner(), 1),
            final(heap).local() == old(heap).local(),
            final(heap).room().0 == old(heap).room().0,
            final(heap).room().1 == grown(old(heap).room().1, old(heap).shared()),
    {
        Pinned { pointer: AtomicBark::new(data, heap) }
    }

    /// Turns an `AtomicBark<T>` back into a `Bark<T>`, which starts a group of
    /// its own. The group takes over the reference of the `AtomicBark`, so the
    /// block stays as it is.
    pub fn promote(self, heap: &mut Heap<T>) -> (bark: Bark<T>)
        requires
            old(heap).wf(),
            old(heap)@.holds(self@),
        ensures
            final(heap).wf(),
            bark@ matches Handle::Bark { thread, inner } && inner == self@.inner() && !old(
                heap,
            )@.in_use(thread),
            final(heap)@ == old(heap)@.convert(self@, bark@),
            final(heap)@.thread_count(bark@) == 1,
            final(heap)@.cross_moved(old(heap)@, self@.inner(), 0),
            final(heap).shared() == old(heap).shared(),
            final(heap).room().0 == grown(old(heap).room().0, old(heap).local()),
            final(heap).room().1 == old(heap).room().1,
    {
        let thread = heap.threads.insert(1);
        let bark = Bark { thread, inner: self.inner, _phantom: PhantomData };
        proof {
            laws::law_promote(old(heap)@, thread, self.inner);
            heap.handles@ = heap.handles@.remove(self@).insert(bark@);
            assert(heap@ =~= old(heap)@.convert(self@, bark@));
            assert(heap@.holds(Handle::Bark { thread, inner: self.inner }));
            heap.lemma_wf(*old(heap));
        }
        bark
    }

    /// The block of a live pointer.
    pub(crate) fn inner<'a>(&self, heap: &'a Heap<T>) -> (inner: &'a BarkInner<T>)
        requires
            heap.wf(),
            heap@.holds(self@),
        ensures
            *inner == heap.shared()[self@.inner()],
            inner.cross == heap@.cross_count(self@.inner()),
            *inner.value == heap@.values[self@.inner()],
        no_unwind
    {
        heap.inners.get(self.inner)
    }

    /// One more `AtomicBark` on the same block. Unlike a clone of a `Bark`, it
    /// works on the count that all threads share.
    ///
    /// A cross-thread count that has passed `MAX_REFCOUNT` takes no further
    /// reference.
    pub fn clone(&self, heap: &mut Heap<T>) -> (bark: AtomicBark<T>)
        requires
            old(heap).wf(),
            old(heap)@.holds(self@),
            old(heap)@.cross_count(self@.inner()) <= MAX_REFCOUNT,
        ensures
            final(heap).wf(),
            bark@ == self@,
            final(heap)@ == old(heap)@.retain(self@),
            final(heap)@.cross_moved(old(heap)@, self@.inner(), 1),
            final(heap).local() == old(heap).local(),
            final(heap).room() == old(heap).room(),
        no_unwind
    {
        heap.retain_cross(self.inner);
        AtomicBark { inner: self.inner, _phantom: PhantomData }
    }

    /// Gives the `AtomicBark` up. The last pointer of all frees the value.
    ///
    /// A value that is freed comes back in its own allocation, and is destroyed
    /// with it: at once, where the result is not kept.
    pub fn drop(self, heap: &mut Heap<T>) -> (freed: Option<Box<T>>)
        requires
            old(heap).wf(),
            old(heap)@.holds(self@),
        ensures
            final(heap).wf(),
            final(heap)@ == old(heap)@.release(self@),
            final(heap)@.cross_moved(old(heap)@, self@.inner(), -1),
            final(heap).local() == old(heap).local(),
            final(heap).room() == old(heap).room(),
            freed is Some <==> old(heap)@.is_sole(self@),
            freed is Some <==> !final(heap)@.values.contains_key(self@.inner()),
            freed matches Some(value) ==> *value == old(heap)@.values[self@.inner()],
        no_unwind
    {
        heap.release_cross(self.inner)
    }

    /// The value that the pointer points to.
    pub fn deref<'a>(&self, heap: &'a Heap<T>) -> (value: &'a T)
        requires
            heap.wf(),
            heap@.holds(self@),
        ensures
            *value == heap@.values[self@.inner()],
        no_unwind
    {
        &self.inner(heap).value
    }
}

} // verus!
