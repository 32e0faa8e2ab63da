//! The mathematical picture of a heap: which pointers are alive, where they
//! point, and what they point to.
use vstd::multiset::Multiset;
use vstd::prelude::*;

verus! {

/// A pointer as it is seen in specifications.
///
/// All `Bark`s that were cloned from one another on one thread share a
/// thread-local count; `thread` is the key of that count.
pub enum Handle {
    Bark { thread: usize, inner: usize },
    AtomicBark { inner: usize },
}

impl Handle {
    /// The block that the pointer points to.
    pub open spec fn inner(self) -> usize {
        match self {
            Handle::Bark { inner, .. } => inner,
            Handle::AtomicBark { inner } => inner,
        }
    }
}

/// The contents of a heap: the value in each block, and every pointer that is
/// alive, as often as it is alive.
///
/// In `handles`, a pointer is alive from when it is made until it is dropped,
/// unwrapped or turned into another. One that is let go of without that stays
/// there.
#[verifier::ext_equal]
pub struct Memory<T> {
    pub values: Map<usize, T>,
    pub handles: Multiset<Handle>,
}

impl<T> Memory<T> {
    /// The heap in which nothing was allocated yet.
    pub open spec fn empty() -> Self {
        Memory { values: Map::empty(), handles: Multiset::empty() }
    }

    /// The pointer is alive.
    pub open spec fn holds(self, handle: Handle) -> bool {
        self.handles.contains(handle)
    }

    /// Some live pointer points to the block.
    pub open spec fn referenced(self, inner: usize) -> bool {
        exists|handle: Handle| self.holds(handle) && #[trigger] handle.inner() == inner
    }

    /// Some live `Bark` uses the thread-local count.
    pub open spec fn in_use(self, thread: usize) -> bool {
        exists|inner: usize| self.holds(Handle::Bark { thread, inner })
    }

    /// Nothing dangles, and no block outlives its pointers: the blocks are exactly
    /// those that a live pointer points to, and a thread-local count is for one
    /// block.
    pub open spec fn inv(self) -> bool {
        &&& forall|handle: Handle| #[trigger]
            self.holds(handle) ==> self.values.contains_key(handle.inner())
        &&& forall|inner: usize| #[trigger]
            self.values.contains_key(inner) ==> self.referenced(inner)
        &&& forall|thread: usize, a: usize, b: usize|
            #![trigger self.holds(Handle::Bark { thread, inner: a }), self.holds(Handle::Bark { thread, inner: b })]
            self.holds(Handle::Bark { thread, inner: a }) && self.holds(
                Handle::Bark { thread, inner: b },
            ) ==> a == b
    }

    /// The thread-local reference count of a `Bark`: how many `Bark`s share it.
    pub open spec fn thread_count(self, bark: Handle) -> nat {
        self.handles.count(bark)
    }

    /// The groups of `Bark`s on a block, one for each thread-local count.
    pub open spec fn groups(self, inner: usize) -> Set<Handle> {
        self.handles.dom().filter(|handle: Handle| handle is Bark && handle.inner() == inner)
    }

    /// The cross-thread reference count of a block: one for each group of
    /// `Bark`s, however many are in it, and one for each `AtomicBark`.
    pub open spec fn cross_count(self, inner: usize) -> nat {
        self.groups(inner).len() + self.handles.count(Handle::AtomicBark { inner })
    }

    /// Since `before`, the cross-thread count of the block has moved by `change`,
    /// and no other cross-thread count has moved.
    pub open spec fn cross_moved(self, before: Self, inner: usize, change: int) -> bool {
        &&& self.cross_count(inner) == before.cross_count(inner) + change
        &&& forall|other: usize|
            other != inner ==> #[trigger] self.cross_count(other) == before.cross_count(other)
    }

    /// By how much a `Bark` moves the cross-thread count of its block when it
    /// goes: only the last of its group takes one off.
    pub open spec fn leaving(self, bark: Handle) -> int {
        if self.thread_count(bark) == 1 {
            -1
        } else {
            0
        }
    }

    /// The pointer is the only one on its block.
    pub open spec fn is_sole(self, handle: Handle) -> bool {
        &&& self.handles.count(handle) == 1
        &&& forall|other: Handle| #[trigger]
            self.holds(other) && other.inner() == handle.inner() ==> other == handle
    }

    /// The pointer has a block of its own, and, if it is a `Bark`, a
    /// thread-local count of its own: neither is known to the heap.
    pub open spec fn fresh(self, handle: Handle) -> bool {
        &&& !self.values.contains_key(handle.inner())
        &&& handle matches Handle::Bark { thread, .. } ==> !self.in_use(thread)
    }

    /// A new block with `value` in it, and a pointer to it.
    pub open spec fn allocate(self, handle: Handle, value: T) -> Self {
        Memory {
            values: self.values.insert(handle.inner(), value),
            handles: self.handles.insert(handle),
        }
    }

    /// One more pointer to a block that is there already.
    pub open spec fn retain(self, handle: Handle) -> Self {
        Memory { handles: self.handles.insert(handle), ..self }
    }

    /// The pointer is gone, and with the last pointer goes the block.
    pub open spec fn release(self, handle: Handle) -> Self {
        let rest = Memory { handles: self.handles.remove(handle), ..self };
        if rest.referenced(handle.inner()) {
            rest
        } else {
            Memory { values: rest.values.remove(handle.inner()), ..rest }
        }
    }

    /// One pointer turned into another on the same block.
    pub open spec fn convert(self, from: Handle, to: Handle) -> Self {
        Memory { handles: self.handles.remove(from).insert(to), ..self }
    }

    /// Another value in a block.
    pub open spec fn write(self, inner: usize, value: T) -> Self {
        Memory { values: self.values.insert(inner, value), ..self }
    }
}

/// A `Bark` whose two counts are both one is the only pointer on its block, and
/// the other way round.
pub proof fn lemma_bark_sole<T>(memory: Memory<T>, bark: Handle)
    requires
        memory.holds(bark),
        bark is Bark,
    ensures
        memory.is_sole(bark) <==> memory.thread_count(bark) == 1 && memory.cross_count(
            bark.inner(),
        ) == 1,
{
    let inner = bark.inner();
    let atomic = Handle::AtomicBark { inner };
    let groups = memory.groups(inner);
    assert(groups.contains(bark));
    assert(groups.finite());
    if memory.is_sole(bark) {
        assert(!memory.holds(atomic));
        assert(groups =~= Set::empty().insert(bark)) by {
            assert forall|other: Handle| groups.contains(other) implies other == bark by {
                assert(memory.holds(other));
            }
        }
    }
    if memory.thread_count(bark) == 1 && memory.cross_count(inner) == 1 {
        assert(groups.remove(bark).len() == groups.len() - 1);
        assert(groups.len() == 1);
        assert forall|other: Handle| #[trigger]
            memory.holds(other) && other.inner() == inner implies other == bark by {
            if other is Bark && other != bark {
                assert(groups.remove(bark).contains(other));
                assert(groups.remove(bark).remove(other).len() == groups.remove(bark).len() - 1);
            }
        }
    }
}

/// An `AtomicBark` on a block whose cross-thread count is one is the only pointer
/// on the block, and the other way round.
pub proof fn lemma_atomic_sole<T>(memory: Memory<T>, inner: usize)
    requires
        memory.holds(Handle::AtomicBark { inner }),
    ensures
        memory.is_sole(Handle::AtomicBark { inner }) <==> memory.cross_count(inner) == 1,
{
    let atomic = Handle::AtomicBark { inner };
    let groups = memory.groups(inner);
    assert(groups.finite());
    if memory.is_sole(atomic) {
        assert(groups =~= Set::empty()) by {
            assert forall|other: Handle| !groups.contains(other) by {
                if groups.contains(other) {
                    assert(memory.holds(other));
                }
            }
        }
    }
    if memory.cross_count(inner) == 1 {
        assert forall|other: Handle| #[trigger]
            memory.holds(other) && other.inner() == inner implies other == atomic by {
            if other is Bark {
                assert(groups.contains(other));
                assert(groups.remove(other).len() == groups.len() - 1);
            }
        }
    }
}

} // verus!
