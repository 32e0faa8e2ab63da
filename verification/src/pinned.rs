//! Pointers whose value never moves.
use vstd::prelude::*;
use crate::atomic_bark::AtomicBark;
use crate::bark::Bark;
use crate::counts::MAX_REFCOUNT;
use crate::heap::Heap;
use crate::memory::Handle;

verus! {

/// A pointer to a value that is pinned. It can be read through, cloned and
/// dropped; nothing that it offers writes to the value or moves it out. As with
/// the pointer inside, one that is not dropped stays counted as alive.
#[must_use]
pub struct Pinned<P> {
    pub(crate) pointer: P,
}

impl<P: View<V = Handle>> View for Pinned<P> {
    type V = Handle;

    open(crate) spec fn view(&self) -> Handle {
        self.pointer@
    }
}

impl<T> Pinned<Box<T>> {
    /// The value that was freed, in the allocation that it has always had.
    pub open(crate) spec fn value(&self) -> T {
        *self.pointer
    }
}

impl<T> Pinned<Bark<T>> {
    /// The value that the pointer points to.
    pub fn deref<'a>(&self, heap: &'a Heap<T>) -> (value: &'a T)
        requires
            heap.wf(),
            heap@.holds(self@),
        ensures
            *value == heap@.values[self@.inner()],
        no_unwind
    {
        self.pointer.deref(heap)
    }

    /// One more pinned `Bark`, as `Bark::clone` makes it.
    pub fn clone(&self, heap: &mut Heap<T>) -> (pinned: Self)
        requires
            old(heap).wf(),
            old(heap)@.holds(self@),
            old(heap)@.thread_count(self@) < MAX_REFCOUNT,
        ensures
            final(heap).wf(),
            pinned@ == self@,
            final(heap)@ == old(heap)@.retain(self@),
            final(heap)@.cross_moved(old(heap)@, self@.inner(), 0),
            final(heap).shared() == old(heap).shared(),
            final(heap).room() == old(heap).room(),
        no_unwind
    {
        Pinned { pointer: self.pointer.clone(heap) }
    }

    /// Gives the pointer up, as `Bark::drop` does. A value that is freed stays
    /// pinned until it is destroyed.
    pub fn drop(self, heap: &mut Heap<T>) -> (freed: Option<Pinned<Box<T>>>)
        requires
            old(heap).wf(),
            old(heap)@.holds(self@),
        ensures
            final(heap).wf(),
            final(heap)@ == old(heap)@.release(self@),
            final(heap)@.cross_moved(old(heap)@, self@.inner(), old(heap)@.leaving(self@)),
            old(heap)@.thread_count(self@) > 1 ==> final(heap).shared() == old(heap).shared(),
            final(heap).room() == old(heap).room(),
            freed is Some <==> old(heap)@.is_sole(self@),
            freed is Some <==> !final(heap)@.values.contains_key(self@.inner()),
            freed matches Some(value) ==> value.value() == old(heap)@.values[self@.inner()],
        no_unwind
    {
        match self.pointer.drop(heap) {
            Some(value) => Some(Pinned { pointer: value }),
            None => None,
        }
    }
}

impl<T> Pinned<AtomicBark<T>> {
    /// The value that the pointer points to.
    pub fn deref<'a>(&self, heap: &'a Heap<T>) -> (value: &'a T)
        requires
            heap.wf(),
            heap@.holds(self@),
        ensures
            *value == heap@.values[self@.inner()],
        no_unwind
    {
        self.pointer.deref(heap)
    }

    /// One more pinned `AtomicBark`, as `AtomicBark::clone` makes it.
    pub fn clone(&self, heap: &mut Heap<T>) -> (pinned: Self)
        requires
            old(heap).wf(),
            old(heap)@.holds(self@),
            old(heap)@.cross_count(self@.inner()) <= MAX_REFCOUNT,
        ensures
            final(heap).wf(),
            pinned@ == self@,
            final(heap)@ == old(heap)@.retain(self@),
            final(heap)@.cross_moved(old(heap)@, self@.inner(), 1),
            final(heap).local() == old(heap).local(),
            final(heap).room() == old(heap).room(),
        no_unwind
    {
        Pinned { pointer: self.pointer.clone(heap) }
    }

    /// Gives the pointer up, as `AtomicBark::drop` does. A value that is freed
    /// stays pinned until it is destroyed.
    pub fn drop(self, heap: &mut Heap<T>) -> (freed: Option<Pinned<Box<T>>>)
        requires
            old(heap).wf(),
            old(heap)@.holds(self@),
        ensures
            final(heap).wf(),
            final(heap)@ == old(heap)@.release(self@),
            final(heap)@.cross_moved(old(heap)@, self@.inner(), -1),
            final(heap).local() == old(heap).local(),
            final(heap).room() == old(heap).room(),
            freed is Some <==> old(heap)@.is_sole(self@),
            freed is Some <==> !final(heap)@.values.contains_key(self@.inner()),
            freed matches Some(value) ==> value.value() == old(heap)@.values[self@.inner()],
        no_unwind
    {
        match self.pointer.drop(heap) {
            Some(value) => Some(Pinned { pointer: value }),
            None => None,
        }
    }
}

} // verus!
