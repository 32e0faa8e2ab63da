//! The memory that pointers share.
use vstd::multiset::Multiset;
use vstd::prelude::*;
use crate::counts;
use crate::counts::{Release, MAX_REFCOUNT};
use crate::laws;
use crate::memory::{lemma_atomic_sole, Handle, Memory};
use crate::slab::Slab;

verus! {

/// A block: a value and the count of the references to it from all threads. The
/// value has an allocation of its own, in which it stays.
pub struct BarkInner<T> {
    pub cross: usize,
    pub value: Box<T>,
}

/// The blocks and the thread-local counts that the pointers to `T` refer to.
pub struct Heap<T> {
    pub(crate) threads: Slab<usize>,
    pub(crate) inners: Slab<BarkInner<T>>,
    pub(crate) handles: Ghost<Multiset<Handle>>,
}

impl<T> View for Heap<T> {
    type V = Memory<T>;

    open(crate) spec fn view(&self) -> Memory<T> {
        Memory {
            values: Map::new(
                |inner: usize| self.inners@.contains_key(inner),
                |inner: usize| *self.inners@[inner].value,
            ),
            handles: self.handles@,
        }
    }
}

impl<T> Heap<T> {
    /// The thread-local count of a `Bark` says how many share it.
    pub open(crate) spec fn counted(&self, handle: Handle) -> bool {
        handle matches Handle::Bark { thread, .. } ==> {
            &&& self.threads@.contains_key(thread)
            &&& self.threads@[thread] == self@.thread_count(handle)
            &&& self.threads@[thread] <= MAX_REFCOUNT
        }
    }

    /// Every count in memory is the number of references that it stands for.
    pub open(crate) spec fn wf(&self) -> bool {
        &&& self.threads.wf()
        &&& self.inners.wf()
        &&& self@.inv()
        &&& forall|handle: Handle| #[trigger] self@.holds(handle) ==> self.counted(handle)
        &&& forall|thread: usize| #[trigger]
            self.threads@.contains_key(thread) ==> self@.in_use(thread)
        &&& forall|inner: usize| #[trigger]
            self.inners@.contains_key(inner) ==> {
                &&& self.inners@[inner].cross == self@.cross_count(inner)
                &&& self.inners@[inner].cross <= MAX_REFCOUNT + 1
            }
    }

    /// The memory that more than one thread may use: the blocks, with their
    /// cross-thread counts.
    pub open(crate) spec fn shared(&self) -> Map<usize, BarkInner<T>> {
        self.inners@
    }

    /// The memory that belongs to single threads: their counts.
    pub open(crate) spec fn local(&self) -> Map<usize, usize> {
        self.threads@
    }

    /// How many places for thread-local counts, and how many for blocks, there
    /// are, whether in use or to be used again.
    pub open(crate) spec fn room(&self) -> (nat, nat) {
        (self.threads.extent(), self.inners.extent())
    }

    /// A heap with nothing in it.
    pub fn new() -> (heap: Self)
        ensures
            heap.wf(),
            heap@ == Memory::<T>::empty(),
            heap.room() == (0nat, 0nat),
    {
        let heap = Heap {
            threads: Slab::new(),
            inners: Slab::new(),
            handles: Ghost(Multiset::empty()),
        };
        assert(heap@ =~= Memory::<T>::empty());
        heap
    }

    /// Adds one to the cross-thread count of a block.
    pub(crate) fn retain_cross(&mut self, inner: usize)
        requires
            old(self).wf(),
            old(self)@.values.contains_key(inner),
            old(self)@.cross_count(inner) <= MAX_REFCOUNT,
        ensures
            final(self).wf(),
            final(self)@ == old(self)@.retain(Handle::AtomicBark { inner }),
            final(self)@.cross_moved(old(self)@, inner, 1),
            final(self).local() == old(self).local(),
            final(self).room() == old(self).room(),
        no_unwind
    {
        let count = self.inners.get(inner).cross;
        if let Some(next) = counts::retain_cross(count) {
            self.inners.get_mut(inner).cross = next;
        }
        proof {
            let atomic = Handle::AtomicBark { inner };
            self.handles@ = self.handles@.insert(atomic);
            laws::law_retain_atomic(old(self)@, inner);
            assert(self@ =~= old(self)@.retain(atomic));
            self.lemma_wf(*old(self));
        }
    }

    /// Takes one off the cross-thread count of a block. When that was the last, the
    /// block is freed, and the value that was in it comes back.
    pub(crate) fn release_cross(&mut self, inner: usize) -> (freed: Option<Box<T>>)
        requires
            old(self).wf(),
            old(self)@.holds(Handle::AtomicBark { inner }),
        ensures
            final(self).wf(),
            final(self)@ == old(self)@.release(Handle::AtomicBark { inner }),
            final(self)@.cross_moved(old(self)@, inner, -1),
            final(self).local() == old(self).local(),
            final(self).room() == old(self).room(),
            freed is Some <==> old(self)@.is_sole(Handle::AtomicBark { inner }),
            freed is Some <==> !final(self)@.values.contains_key(inner),
            freed matches Some(value) ==> *value == old(self)@.values[inner],
        no_unwind
    {
        let ghost atomic = Handle::AtomicBark { inner };
        proof {
            laws::law_release(self@, atomic);
            laws::law_release_atomic(self@, inner);
            lemma_atomic_sole(self@, inner);
        }
        let count = self.inners.get(inner).cross;
        let freed = match counts::release(count) {
            Release::Left(left) => {
                self.inners.get_mut(inner).cross = left;
                None
            },
            Release::Last => Some(self.inners.remove(inner).value),
        };
        proof {
            self.handles@ = self.handles@.remove(atomic);
            assert(self@ =~= old(self)@.release(atomic));
            self.lemma_wf(*old(self));
        }
        freed
    }

    /// What lies in memory is what the live pointers call for, and no more: a
    /// thread-local count for each group of `Bark`s, which says how many are in
    /// it, and a block for each value, whose cross-thread count says how many
    /// groups and `AtomicBark`s there are. No block is left with a count of zero,
    /// and no count is near to overflow.
    pub proof fn law_counts(&self)
        requires
            self.wf(),
        ensures
            self@.inv(),
            forall|thread: usize| #[trigger]
                self.local().contains_key(thread) <==> self@.in_use(thread),
            forall|thread: usize, inner: usize|
                self@.holds(Handle::Bark { thread, inner }) ==> self.local()[thread]
                    == #[trigger] self@.thread_count(Handle::Bark { thread, inner })
                    <= MAX_REFCOUNT,
            self.shared().dom() == self@.values.dom(),
            forall|inner: usize| #[trigger]
                self.shared().contains_key(inner) ==> {
                    &&& self.shared()[inner].cross == self@.cross_count(inner)
                    &&& 1 <= self@.cross_count(inner) <= MAX_REFCOUNT + 1
                    &&& *self.shared()[inner].value == self@.values[inner]
                },
    {
        assert forall|thread: usize| self@.in_use(thread) implies #[trigger]
            self.local().contains_key(thread) by {
            let inner = choose|inner: usize| self@.holds(Handle::Bark { thread, inner });
            assert(self@.holds(Handle::Bark { thread, inner }));
        }
        assert forall|thread: usize, inner: usize|
            self@.holds(Handle::Bark { thread, inner }) implies self.local()[thread]
            == #[trigger] self@.thread_count(Handle::Bark { thread, inner })
            <= MAX_REFCOUNT by {
            assert(self@.holds(Handle::Bark { thread, inner }));
        }
        assert forall|inner: usize| #[trigger]
            self.shared().contains_key(inner) implies self@.cross_count(inner) >= 1 by {
            assert(self@.values.contains_key(inner));
            let handle = choose|handle: Handle|
                self@.holds(handle) && #[trigger] handle.inner() == inner;
            match handle {
                Handle::Bark { .. } => {
                    laws::law_release_bark(self@, handle);
                },
                Handle::AtomicBark { .. } => {},
            }
        }
        assert(self.shared().dom() =~= self@.values.dom());
    }

    /// From a heap in order to the next: what there is to show of the counts once
    /// the pointers themselves are in order.
    pub(crate) proof fn lemma_wf(&self, before: Self)
        requires
            before.wf(),
            self.threads.wf(),
            self.inners.wf(),
            self@.inv(),
            forall|handle: Handle| #[trigger]
                self@.holds(handle) ==> before@.holds(handle) || self.counted(handle),
            forall|handle: Handle| #[trigger]
                before@.holds(handle) && self@.holds(handle) ==> self.counted(handle),
            forall|thread: usize, inner: usize|
                self.threads@.contains_key(thread) && before@.holds(Handle::Bark { thread, inner })
                    ==> #[trigger] self@.holds(Handle::Bark { thread, inner }),
            forall|thread: usize| #[trigger]
                self.threads@.contains_key(thread) ==> before.threads@.contains_key(thread)
                    || self@.in_use(thread),
            forall|inner: usize| #[trigger]
                self.inners@.contains_key(inner) ==> {
                    &&& self.inners@[inner].cross == self@.cross_count(inner)
                    &&& self.inners@[inner].cross <= MAX_REFCOUNT + 1
                },
        ensures
            self.wf(),
    {
        assert forall|thread: usize| #[trigger]
            self.threads@.contains_key(thread) implies self@.in_use(thread) by {
            if before.threads@.contains_key(thread) {
                assert(before@.in_use(thread));
                let inner = choose|inner: usize| before@.holds(Handle::Bark { thread, inner });
                assert(self@.holds(Handle::Bark { thread, inner }));
            }
        }
    }
}

} // verus!
