//! The pointer that stays on its thread.
use core::marker::PhantomData;
use std::rc::Rc;
use vstd::pervasive::strictly_cloned;
use vstd::prelude::*;
use crate::atomic_bark::AtomicBark;
use crate::counts;
use crate::counts::{Release, MAX_REFCOUNT};
use crate::heap::{BarkInner, Heap};
use crate::laws;
use crate::memory::{lemma_bark_sole, Handle};
use crate::pinned::Pinned;
use crate::slab::grown;

verus! {

/// A thread-local pointer. `Bark<T>` is never `Send` or `Sync`; what may go to
/// another thread is an `AtomicBark<T>`, which `Bark::clone_atomic` makes.
///
/// The reason lies in how a `Bark` is cloned: its thread-local count is a plain
/// number, and a clone made from another thread would race on it.
///
/// A pointer is given up with `drop`, which takes the heap. One that merely goes
/// out of scope, where no heap is at hand, stays counted as alive: its reference
/// is never taken off, and its value never freed.
#[must_use]
pub struct Bark<T> {
    pub(crate) thread: usize,
    pub(crate) inner: usize,
    // As an `Rc` is, the pointer is neither `Send` nor `Sync`.
    pub(crate) _phantom: PhantomData<Rc<T>>,
}

impl<T> View for Bark<T> {
    type V = Handle;

    open(crate) spec fn view(&self) -> Handle {
        Handle::Bark { thread: self.thread, inner: self.inner }
    }
}

impl<T> Bark<T> {
    /// Creates a new `Bark`, with a block and a thread-local count of its own.
    pub fn new(value: T, heap: &mut Heap<T>) -> (bark: Bark<T>)
        requires
            old(heap).wf(),
        ensures
            final(heap).wf(),
            bark@ is Bark,
            old(heap)@.fresh(bark@),
            final(heap)@ == old(heap)@.allocate(bark@, value),
            final(heap)@.is_sole(bark@),
            final(heap)@.cross_count(bark@.inner()) == 1,
            final(heap)@.cross_moved(old(heap)@, bark@.inner(), 1),
            final(heap).room().0 == grown(old(heap).room().0, old(heap).local()),
            final(heap).room().1 == grown(old(heap).room().1, old(heap).shared()),
    {
        let thread = heap.threads.insert(1);
        let inner = heap.inners.insert(BarkInner { cross: 1, value: Box::new(value) });
        let bark = Bark { thread, inner, _phantom: PhantomData };
        proof {
            assert(old(heap)@.fresh(bark@));
            heap.handles@ = heap.handles@.insert(bark@);
            laws::law_allocate(old(heap)@, bark@, value);
            assert(heap@ =~= old(heap)@.allocate(bark@, value));
            assert(heap@.holds(Handle::Bark { thread, inner }));
            heap.lemma_wf(*old(heap));
        }
        bark
    }

    /// Creates a new `Bark` as `Bark::new` does.
    pub fn from(value: T, heap: &mut Heap<T>) -> (bark: Bark<T>)
        requires
            old(heap).wf(),
        ensures
            final(heap).wf(),
            bark@ is Bark,
            old(heap)@.fresh(bark@),
            final(heap)@ == old(heap)@.allocate(bark@, value),
            final(heap)@.is_sole(bark@),
            final(heap)@.cross_count(bark@.inner()) == 1,
            final(heap)@.cross_moved(old(heap)@, bark@.inner(), 1),
            final(heap).room().0 == grown(old(heap).room().0, old(heap).local()),
            final(heap).room().1 == grown(old(heap).room().1, old(heap).shared()),
    {
        Bark::new(value, heap)
    }

    /// Creates a new pinned `Bark`: the value stays where it is, unmoved and
    /// unchanged, until the last pointer to it is gone.
    pub fn pin(data: T, heap: &mut Heap<T>) -> (pinned: Pinned<Bark<T>>)
        requires
            old(heap).wf(),
        ensures
            final(heap).wf(),
            pinned@ is Bark,
            old(heap)@.fresh(pinned@),
            final(heap)@ == old(heap)@.allocate(pinned@, data),
            final(heap)@.is_sole(pinned@),
            final(heap)@.cross_count(pinned@.inner()) == 1,
            final(heap)@.cross_moved(old(heap)@, pinned@.inner(), 1),
            final(heap).room().0 == grown(old(heap).room().0, old(heap).local()),
            final(heap).room().1 == grown(old(heap).room().1, old(heap).shared()),
    {
        Pinned { pointer: Bark::new(data, heap) }
    }

    /// Creates an `AtomicBark<T>` on the same block, which can be sent across
    /// thread boundaries. The value is not cloned.
    ///
    /// A cross-thread count that has passed `MAX_REFCOUNT` takes no further
    /// reference.
    pub fn clone_atomic(&self, heap: &mut Heap<T>) -> (bark: AtomicBark<T>)
        where
            T: Send + Sync,
        requires
            old(heap).wf(),
            old(heap)@.holds(self@),
            old(heap)@.cross_count(self@.inner()) <= MAX_REFCOUNT,
        ensures
            final(heap).wf(),
            bark@ == (Handle::AtomicBark { inner: self@.inner() }),
            final(heap)@ == old(heap)@.retain(bark@),
            final(heap)@.cross_moved(old(heap)@, self@.inner(), 1),
            final(heap).local() == old(heap).local(),
            final(heap).room() == old(heap).room(),
        no_unwind
    {
        heap.retain_cross(self.inner);
        AtomicBark { inner: self.inner, _phantom: PhantomData }
    }

    /// Returns true if both the thread-local and cross-thread reference counts
    /// are 1, which is so exactly when there is no other pointer to the value.
    pub fn is_unique(&mut self, heap: &Heap<T>) -> (unique: bool)
        requires
            heap.wf(),
            heap@.holds(old(self)@),
        ensures
            *final(self) == *old(self),
            unique == (heap@.thread_count(old(self)@) == 1 && heap@.cross_count(old(self)@.inner())
                == 1),
            unique == heap@.is_sole(old(self)@),
        no_unwind
    {
        proof {
            lemma_bark_sole(heap@, self@);
        }
        counts::is_single(self.thread(heap)) && counts::is_single(self.inner(heap).cross)
    }

    /// The block of a live pointer.
    pub(crate) fn inner<'a>(&self, heap: &'a Heap<T>) -> (inner: &'a BarkInner<T>)
        requires
            heap.wf(),
            heap@.holds(self@),
        ensures
            *inner == heap.shared()[self@.inner()],
            inner.cross == heap@.cross_count(self@.inner()),
            *inner.value == heap@.values[self@.inner()],
        no_unwind
    {
        heap.inners.get(self.inner)
    }

    /// If there are no other references to the value, whether thread-local or
    /// cross-thread, gives mutable access to it. If this `Bark` is not unique,
    /// returns `None`.
    pub fn get_mut<'a>(this: &mut Self, heap: &'a mut Heap<T>) -> (value: Option<&'a mut T>)
        requires
            old(heap).wf(),
            old(heap)@.holds(old(this)@),
        ensures
            *final(this) == *old(this),
            final(heap).wf(),
            match value {
                Some(value) => {
                    &&& old(heap)@.is_sole(old(this)@)
                    &&& *value == old(heap)@.values[old(this)@.inner()]
                    &&& final(heap)@ == old(heap)@.write(old(this)@.inner(), *final(value))
                },
                None => {
                    &&& !old(heap)@.is_sole(old(this)@)
                    &&& *final(heap) == *old(heap)
                },
            },
            final(heap).room() == old(heap).room(),
        no_unwind
    {
        if this.is_unique(heap) {
            Some(Bark::get_mut_unchecked(this, heap))
        } else {
            None
        }
    }

    /// Gives mutable access to the value without a look at the reference counts.
    /// What is written is seen through every other pointer on the block.
    pub fn get_mut_unchecked<'a>(this: &mut Self, heap: &'a mut Heap<T>) -> (value: &'a mut T)
        requires
            old(heap).wf(),
            old(heap)@.holds(old(this)@),
        ensures
            *final(this) == *old(this),
            *value == old(heap)@.values[old(this)@.inner()],
            final(heap).wf(),
            final(heap)@ == old(heap)@.write(old(this)@.inner(), *final(value)),
            final(heap).room() == old(heap).room(),
        no_unwind
    {
        let value = &mut *heap.inners.get_mut(this.inner).value;
        proof {
            let after = *after_borrow(heap);
            assert(after@ =~= old(heap)@.write(this@.inner(), *final(value)));
            laws::law_write(old(heap)@, this@.inner(), *final(value));
            after.lemma_wf(*old(heap));
        }
        value
    }

    /// The thread-local count of a live pointer.
    pub(crate) fn thread(&self, heap: &Heap<T>) -> (count: usize)
        requires
            heap.wf(),
            heap@.holds(self@),
        ensures
            count == heap@.thread_count(self@),
            1 <= count <= MAX_REFCOUNT,
        no_unwind
    {
        *heap.threads.get(self.thread)
    }

    /// Tries to take the value out without cloning it. If the `Bark` is unique,
    /// its block and its thread-local count are freed and the value is moved
    /// out. Otherwise the `Bark` is given back.
    pub fn try_unwrap(this: Self, heap: &mut Heap<T>) -> (result: Result<T, Self>)
        requires
            old(heap).wf(),
            old(heap)@.holds(this@),
        ensures
            final(heap).wf(),
            match result {
                Ok(value) => {
                    &&& old(heap)@.is_sole(this@)
                    &&& value == old(heap)@.values[this@.inner()]
                    &&& final(heap)@ == old(heap)@.release(this@)
                    &&& final(heap)@.cross_moved(old(heap)@, this@.inner(), -1)
                },
                Err(bark) => {
                    &&& !old(heap)@.is_sole(this@)
                    &&& bark == this
                    &&& *final(heap) == *old(heap)
                },
            },
            final(heap).room() == old(heap).room(),
        no_unwind
    {
        proof {
            lemma_bark_sole(heap@, this@);
            laws::law_release(heap@, this@);
            laws::law_release_bark(heap@, this@);
        }
        if !counts::is_single(this.thread(heap)) || !counts::is_single(this.inner(heap).cross) {
            return Err(this);
        }
        let inner = heap.inners.remove(this.inner);
        let _ = heap.threads.remove(this.thread);
        proof {
            heap.handles@ = heap.handles@.remove(this@);
            assert(heap@ =~= old(heap)@.release(this@));
            heap.lemma_wf(*old(heap));
        }
        Ok(*inner.value)
    }

    /// One more `Bark` on the same block and with the same thread-local count.
    /// Memory that other threads may use is not touched.
    ///
    /// A thread-local count does not pass `MAX_REFCOUNT`.
    pub fn clone(&self, heap: &mut Heap<T>) -> (bark: Bark<T>)
        requires
            old(heap).wf(),
            old(heap)@.holds(self@),
            old(heap)@.thread_count(self@) < MAX_REFCOUNT,
        ensures
            final(heap).wf(),
            bark@ == self@,
            final(heap)@ == old(heap)@.retain(self@),
            final(heap)@.cross_moved(old(heap)@, self@.inner(), 0),
            final(heap).shared() == old(heap).shared(),
            final(heap).room() == old(heap).room(),
        no_unwind
    {
        if let Some(next) = counts::retain_thread(self.thread(heap)) {
            *heap.threads.get_mut(self.thread) = next;
        }
        proof {
            heap.handles@ = heap.handles@.insert(self@);
            laws::law_retain_bark(old(heap)@, self@);
            assert(heap@ =~= old(heap)@.retain(self@));
            heap.lemma_wf(*old(heap));
        }
        Bark { thread: self.thread, inner: self.inner, _phantom: PhantomData }
    }

    /// Gives the `Bark` up. The last one with a thread-local count takes the
    /// group's reference off the cross-thread count, and the last pointer of all
    /// frees the value. Before that, memory that other threads may use is not
    /// touched.
    ///
    /// A value that is freed comes back in its own allocation, and is destroyed
    /// with it: at once, where the result is not kept.
    pub fn drop(self, heap: &mut Heap<T>) -> (freed: Option<Box<T>>)
        requires
            old(heap).wf(),
            old(heap)@.holds(self@),
        ensures
            final(heap).wf(),
            final(heap)@ == old(heap)@.release(self@),
            final(heap)@.cross_moved(old(heap)@, self@.inner(), old(heap)@.leaving(self@)),
            old(heap)@.thread_count(self@) > 1 ==> final(heap).shared() == old(heap).shared(),
            final(heap).room() == old(heap).room(),
            freed is Some <==> old(heap)@.is_sole(self@),
            freed is Some <==> !final(heap)@.values.contains_key(self@.inner()),
            freed matches Some(value) ==> *value == old(heap)@.values[self@.inner()],
        no_unwind
    {
        proof {
            laws::law_release(heap@, self@);
            laws::law_release_bark(heap@, self@);
            lemma_bark_sole(heap@, self@);
        }
        match counts::release(self.thread(heap)) {
            Release::Left(left) => {
                *heap.threads.get_mut(self.thread) = left;
                proof {
                    heap.handles@ = heap.handles@.remove(self@);
                    assert(heap@ =~= old(heap)@.release(self@));
                    heap.lemma_wf(*old(heap));
                }
                None
            },
            Release::Last => {
                let _ = heap.threads.remove(self.thread);
                // Without its thread-local count, the group is a reference such
                // as an `AtomicBark` is.
                proof {
                    let atomic = Handle::AtomicBark { inner: self.inner };
                    laws::law_demote(old(heap)@, self.thread, self.inner);
                    laws::law_release_in_two_steps(old(heap)@, self.thread, self.inner);
                    heap.handles@ = heap.handles@.remove(self@).insert(atomic);
                    assert(heap@ =~= old(heap)@.convert(self@, atomic));
                    heap.lemma_wf(*old(heap));
                }
                heap.release_cross(self.inner)
            },
        }
    }

    /// The value that the pointer points to.
    pub fn deref<'a>(&self, heap: &'a Heap<T>) -> (value: &'a T)
        requires
            heap.wf(),
            heap@.holds(self@),
        ensures
            *value == heap@.values[self@.inner()],
        no_unwind
    {
        &self.inner(heap).value
    }
}

impl<T: Clone> Bark<T> {
    /// Similar to `Bark::get_mut`, but where the `Bark` is not unique, the value
    /// is cloned into a new `Bark`, which takes the place of `this`: a primitive
    /// for clone-on-write. Afterwards `this` is unique in either case.
    ///
    /// On a unique `Bark` no code of `T` runs and nothing is allocated, so the call
    /// does not unwind.
    pub fn make_mut<'a>(this: &mut Self, heap: &'a mut Heap<T>) -> (value: &'a mut T)
        requires
            old(heap).wf(),
            old(heap)@.holds(old(this)@),
        ensures
            final(heap).wf(),
            final(heap)@.is_sole(final(this)@),
            final(heap)@.cross_count(final(this)@.inner()) == 1,
            if old(heap)@.is_sole(old(this)@) {
                &&& *final(this) == *old(this)
                &&& *value == old(heap)@.values[old(this)@.inner()]
                &&& final(heap)@ == old(heap)@.write(old(this)@.inner(), *final(value))
                &&& final(heap).room() == old(heap).room()
            } else {
                &&& final(heap).room().0 == grown(old(heap).room().0, old(heap).local())
                &&& final(heap).room().1 == grown(old(heap).room().1, old(heap).shared())
                &&& final(this)@ is Bark
                &&& old(heap)@.fresh(final(this)@)
                &&& strictly_cloned(old(heap)@.values[old(this)@.inner()], *value)
                &&& final(heap)@ == old(heap)@.allocate(final(this)@, *final(value)).release(
                    old(this)@,
                )
                &&& final(heap)@.values.contains_key(old(this)@.inner())
                &&& final(heap)@.cross_count(old(this)@.inner()) == old(heap)@.cross_count(
                    old(this)@.inner(),
                ) + old(heap)@.leaving(old(this)@)
                &&& forall|other: usize|
                    other != old(this)@.inner() && other != final(this)@.inner()
                        ==> #[trigger] final(heap)@.cross_count(other) == old(heap)@.cross_count(
                        other,
                    )
            },
        no_unwind when old(heap)@.is_sole(old(this)@)
    {
        proof {
            lemma_bark_sole(heap@, this@);
        }
        if !this.is_unique(heap) {
            let value = this.deref(heap).clone();
            let mut other = Bark::new(value, heap);
            std::mem::swap(this, &mut other);
            proof {
                laws::law_make_mut(old(heap)@, other@, this@, value);
            }
            let _ = other.drop(heap);
        }
        proof {
            lemma_bark_sole(heap@, this@);
        }
        let ghost before = heap@;
        let value = Bark::get_mut_unchecked(this, heap);
        proof {
            laws::law_write(before, this@.inner(), *final(value));
        }
        value
    }

    /// Similar to `try_unwrap`, but if the value cannot be taken out, it is
    /// cloned. The `Bark` is given up in either case.
    ///
    /// On a unique `Bark` no code of `T` runs and nothing is allocated, so the call
    /// does not unwind.
    pub fn unwrap_or_clone(this: Self, heap: &mut Heap<T>) -> (value: T)
        requires
            old(heap).wf(),
            old(heap)@.holds(this@),
        ensures
            final(heap).wf(),
            final(heap)@ == old(heap)@.release(this@),
            final(heap)@.cross_moved(old(heap)@, this@.inner(), old(heap)@.leaving(this@)),
            if old(heap)@.is_sole(this@) {
                value == old(heap)@.values[this@.inner()]
            } else {
                strictly_cloned(old(heap)@.values[this@.inner()], value)
            },
            final(heap).room() == old(heap).room(),
        no_unwind when old(heap)@.is_sole(this@)
    {
        match Bark::try_unwrap(this, heap) {
            Ok(value) => value,
            Err(bark) => {
                let value = bark.deref(heap).clone();
                let _ = bark.drop(heap);
                value
            },
        }
    }
}

} // verus!
