//! What holds of a heap whatever is done to it.
use vstd::multiset::Multiset;
use vstd::prelude::*;
use crate::memory::{Handle, Memory};

verus! {

/// Every block of `after` is referenced if each pointer that was there before is
/// still there, or another one has taken its place on the block, or the block is
/// gone.
proof fn lemma_still_referenced<T>(before: Memory<T>, after: Memory<T>)
    requires
        before.inv(),
        forall|inner: usize| #[trigger]
            after.values.contains_key(inner) ==> before.values.contains_key(inner)
                || after.referenced(inner),
        forall|handle: Handle| #[trigger]
            before.holds(handle) && after.values.contains_key(handle.inner()) ==> after.holds(
                handle,
            ) || after.referenced(handle.inner()),
    ensures
        forall|inner: usize| #[trigger]
            after.values.contains_key(inner) ==> after.referenced(inner),
{
    assert forall|inner: usize| #[trigger] after.values.contains_key(
        inner,
    ) implies after.referenced(inner) by {
        if !after.referenced(inner) {
            assert(before.referenced(inner));
            let handle = choose|handle: Handle|
                before.holds(handle) && #[trigger] handle.inner() == inner;
            assert(after.holds(handle));
        }
    }
}

/// A new pointer is the only one on its block, both its counts are one, and no
/// other pointer notices.
pub proof fn law_allocate<T>(memory: Memory<T>, handle: Handle, value: T)
    requires
        memory.inv(),
        memory.fresh(handle),
    ensures
        memory.allocate(handle, value).values == memory.values.insert(handle.inner(), value),
        memory.allocate(handle, value).handles == memory.handles.insert(handle),
        memory.allocate(handle, value).inv(),
        memory.allocate(handle, value).is_sole(handle),
        memory.allocate(handle, value).thread_count(handle) == 1,
        memory.allocate(handle, value).cross_count(handle.inner()) == memory.cross_count(handle.inner()) + 1,
        forall|i: usize|
            i != handle.inner() ==> #[trigger] memory.allocate(handle, value).cross_count(i)
                == memory.cross_count(i),
        memory.allocate(handle, value).cross_count(handle.inner()) == 1,
        memory.allocate(handle, value).cross_moved(memory, handle.inner(), 1),
{
    let after = memory.allocate(handle, value);
    let inner = handle.inner();
    assert(!memory.holds(handle));
    assert(!memory.holds(Handle::AtomicBark { inner }));
    assert forall|other: Handle| #[trigger] after.holds(other) implies other == handle
        || memory.holds(other) by {}
    assert(after.holds(handle));
    assert(memory.groups(inner) =~= Set::empty()) by {
        assert forall|other: Handle| !memory.groups(inner).contains(other) by {
            if memory.groups(inner).contains(other) {
                assert(memory.holds(other));
            }
        }
    }
    lemma_still_referenced(memory, after);
    assert forall|thread: usize, a: usize, b: usize|
        #![trigger after.holds(Handle::Bark { thread, inner: a }), after.holds(Handle::Bark { thread, inner: b })]
        after.holds(Handle::Bark { thread, inner: a }) && after.holds(
            Handle::Bark { thread, inner: b },
        ) implies a == b by {
        let x = Handle::Bark { thread, inner: a };
        let y = Handle::Bark { thread, inner: b };
        assert(x == handle || memory.holds(x));
        assert(y == handle || memory.holds(y));
    }
    if handle is Bark {
        assert(after.groups(inner) =~= Set::empty().insert(handle)) by {
            assert forall|other: Handle| after.groups(inner).contains(other) implies other
                == handle by {
                assert(after.holds(other));
            }
        }
    } else {
        assert(after.groups(inner) =~= Set::empty()) by {
            assert forall|other: Handle| !after.groups(inner).contains(other) by {
                if after.groups(inner).contains(other) {
                    assert(after.holds(other));
                }
            }
        }
    }
    assert forall|i: usize| i != inner implies #[trigger] after.cross_count(i)
        == memory.cross_count(i) by {
        assert(after.groups(i) =~= memory.groups(i));
    }
}

/// A clone of a `Bark` adds one to its thread-local count and leaves every
/// cross-thread count alone.
pub proof fn law_retain_bark<T>(memory: Memory<T>, bark: Handle)
    requires
        memory.inv(),
        memory.holds(bark),
        bark is Bark,
    ensures
        memory.retain(bark).values == memory.values,
        memory.retain(bark).handles == memory.handles.insert(bark),
        forall|i: usize| #[trigger]
            memory.retain(bark).cross_count(i) == memory.cross_count(i),
        memory.retain(bark).inv(),
        memory.retain(bark).holds(bark),
        memory.retain(bark).thread_count(bark) == memory.thread_count(bark) + 1,
        memory.retain(bark).cross_moved(memory, bark.inner(), 0),
{
    let after = memory.retain(bark);
    assert forall|other: Handle| after.holds(other) == memory.holds(other) by {}
    lemma_still_referenced(memory, after);
    assert forall|i: usize| #[trigger] after.cross_count(i) == memory.cross_count(i) by {
        assert(after.groups(i) =~= memory.groups(i));
    }
}

/// One more `AtomicBark` on a block adds one to the block's cross-thread count
/// and leaves every other count alone.
pub proof fn law_retain_atomic<T>(memory: Memory<T>, inner: usize)
    requires
        memory.inv(),
        memory.values.contains_key(inner),
    ensures
        memory.retain(Handle::AtomicBark { inner }).values == memory.values,
        memory.retain(Handle::AtomicBark { inner }).handles == memory.handles.insert(Handle::AtomicBark { inner }),
        memory.retain(Handle::AtomicBark { inner }).cross_count(inner) == memory.cross_count(inner) + 1,
        forall|i: usize|
            i != inner ==> #[trigger] memory.retain(Handle::AtomicBark { inner }).cross_count(i)
                == memory.cross_count(i),
        memory.retain(Handle::AtomicBark { inner }).inv(),
        memory.retain(Handle::AtomicBark { inner }).holds(Handle::AtomicBark { inner }),
        memory.retain(Handle::AtomicBark { inner }).cross_moved(memory, inner, 1),
{
    let atomic = Handle::AtomicBark { inner };
    let after = memory.retain(atomic);
    assert forall|other: Handle| #[trigger] after.holds(other) implies other == atomic
        || memory.holds(other) by {}
    lemma_still_referenced(memory, after);
    assert forall|i: usize| #[trigger] after.groups(i) == memory.groups(i) by {
        assert(after.groups(i) =~= memory.groups(i));
    }
}

/// Whichever pointer goes, no other pointer is left dangling, and no block is
/// left without a pointer. The value goes exactly with the last pointer.
pub proof fn law_release<T>(memory: Memory<T>, handle: Handle)
    requires
        memory.inv(),
        memory.holds(handle),
    ensures
        memory.release(handle).handles == memory.handles.remove(handle),
        memory.release(handle).inv(),
        memory.release(handle).values == if memory.is_sole(handle) {
            memory.values.remove(handle.inner())
        } else {
            memory.values
        },
{
    let after = memory.release(handle);
    let rest = Memory { handles: memory.handles.remove(handle), ..memory };
    assert forall|other: Handle| #[trigger] after.holds(other) implies memory.holds(other) by {}
    if memory.is_sole(handle) {
        assert(!rest.referenced(handle.inner())) by {
            assert forall|other: Handle|
                rest.holds(other) implies #[trigger] other.inner() != handle.inner() by {
                assert(memory.holds(other));
            }
        }
    } else {
        if memory.handles.count(handle) > 1 {
            assert(rest.holds(handle));
            assert(rest.referenced(handle.inner()));
        } else {
            let other = choose|other: Handle| #[trigger]
                memory.holds(other) && other.inner() == handle.inner() && other != handle;
            assert(rest.holds(other));
            assert(rest.referenced(handle.inner()));
        }
    }
    assert forall|other: Handle| #[trigger] after.holds(other) implies after.values.contains_key(
        other.inner(),
    ) by {
        if other.inner() == handle.inner() {
            assert(rest.holds(other));
            assert(rest.referenced(handle.inner()));
        }
    }
    lemma_still_referenced(memory, after);
}

/// While other `Bark`s of its group are left, a `Bark` goes without a trace in
/// any cross-thread count. The last of the group takes one off the count of its
/// block, and off no other.
pub proof fn law_release_bark<T>(memory: Memory<T>, bark: Handle)
    requires
        memory.inv(),
        memory.holds(bark),
        bark is Bark,
    ensures
        memory.release(bark).thread_count(bark) == memory.thread_count(bark) - 1,
        memory.release(bark).cross_count(bark.inner()) == if memory.handles.count(bark) == 1 {
            memory.cross_count(bark.inner()) - 1
        } else {
            memory.cross_count(bark.inner()) as int
        },
        forall|i: usize|
            i != bark.inner() ==> #[trigger] memory.release(bark).cross_count(i)
                == memory.cross_count(i),
        memory.cross_count(bark.inner()) >= 1,
        memory.release(bark).cross_moved(memory, bark.inner(), memory.leaving(bark)),
{
    let after = memory.release(bark);
    let inner = bark.inner();
    assert(memory.groups(inner).contains(bark));
    assert(memory.groups(inner).len() >= 1) by {
        assert(memory.groups(inner).remove(bark).len() == memory.groups(inner).len() - 1);
    }
    assert forall|other: Handle| other != bark implies after.holds(other) == memory.holds(
        other,
    ) by {}
    if memory.thread_count(bark) == 1 {
        assert(after.groups(inner) =~= memory.groups(inner).remove(bark));
    } else {
        assert(after.groups(inner) =~= memory.groups(inner));
    }
    assert forall|i: usize| i != inner implies #[trigger] after.cross_count(i)
        == memory.cross_count(i) by {
        assert(after.groups(i) =~= memory.groups(i));
    }
}

/// An `AtomicBark` takes one off the cross-thread count of its block when it
/// goes, and off no other.
pub proof fn law_release_atomic<T>(memory: Memory<T>, inner: usize)
    requires
        memory.inv(),
        memory.holds(Handle::AtomicBark { inner }),
    ensures
        memory.cross_count(inner) >= 1,
        memory.release(Handle::AtomicBark { inner }).cross_count(inner) == memory.cross_count(inner) - 1,
        forall|i: usize|
            i != inner ==> #[trigger] memory.release(Handle::AtomicBark { inner }).cross_count(i)
                == memory.cross_count(i),
        memory.release(Handle::AtomicBark { inner }).cross_moved(memory, inner, -1),
{
    let after = memory.release(Handle::AtomicBark { inner });
    assert forall|i: usize| #[trigger] after.groups(i) == memory.groups(i) by {
        assert(after.groups(i) =~= memory.groups(i));
    }
}

/// To promote an `AtomicBark` is to exchange it for a `Bark` with a group of its
/// own: the block keeps its value and its cross-thread count.
pub proof fn law_promote<T>(memory: Memory<T>, thread: usize, inner: usize)
    requires
        memory.inv(),
        memory.holds(Handle::AtomicBark { inner }),
        !memory.in_use(thread),
    ensures
        memory.convert(Handle::AtomicBark { inner }, Handle::Bark { thread, inner }).values == memory.values,
        memory.convert(Handle::AtomicBark { inner }, Handle::Bark { thread, inner }).handles == memory.handles.remove(
            Handle::AtomicBark { inner },
        ).insert(Handle::Bark { thread, inner }),
        forall|i: usize| #[trigger]
            memory.convert(Handle::AtomicBark { inner }, Handle::Bark { thread, inner }).cross_count(i)
                == memory.cross_count(i),
        memory.convert(Handle::AtomicBark { inner }, Handle::Bark { thread, inner }).inv(),
        memory.convert(Handle::AtomicBark { inner }, Handle::Bark { thread, inner }).thread_count(
            Handle::Bark { thread, inner },
        ) == 1,
        memory.convert(Handle::AtomicBark { inner }, Handle::Bark { thread, inner }).cross_moved(
            memory,
            inner,
            0,
        ),
{
    let atomic = Handle::AtomicBark { inner };
    let bark = Handle::Bark { thread, inner };
    let after = memory.convert(atomic, bark);
    assert(!memory.holds(bark));
    assert(after.holds(bark));
    assert forall|other: Handle| #[trigger] after.holds(other) implies other == bark
        || memory.holds(other) by {}
    assert(after.referenced(inner)) by {
        assert(bark.inner() == inner);
    }
    lemma_still_referenced(memory, after);
    assert forall|t: usize, a: usize, b: usize|
        #![trigger after.holds(Handle::Bark { thread: t, inner: a }), after.holds(Handle::Bark { thread: t, inner: b })]
        after.holds(Handle::Bark { thread: t, inner: a }) && after.holds(
            Handle::Bark { thread: t, inner: b },
        ) implies a == b by {
        let x = Handle::Bark { thread: t, inner: a };
        let y = Handle::Bark { thread: t, inner: b };
        assert(x == bark || memory.holds(x));
        assert(y == bark || memory.holds(y));
    }
    assert forall|i: usize| #[trigger] after.cross_count(i) == memory.cross_count(i) by {
        if i == inner {
            assert(!memory.groups(inner).contains(bark));
            assert(after.groups(inner) =~= memory.groups(inner).insert(bark));
        } else {
            assert(after.groups(i) =~= memory.groups(i));
        }
    }
}

/// A `Bark` that is alone in its group can be exchanged for an `AtomicBark`,
/// which undoes a promotion.
pub proof fn law_demote<T>(memory: Memory<T>, thread: usize, inner: usize)
    requires
        memory.inv(),
        memory.thread_count(Handle::Bark { thread, inner }) == 1,
    ensures
        memory.convert(Handle::Bark { thread, inner }, Handle::AtomicBark { inner }).values == memory.values,
        memory.convert(Handle::Bark { thread, inner }, Handle::AtomicBark { inner }).handles == memory.handles.remove(
            Handle::Bark { thread, inner },
        ).insert(Handle::AtomicBark { inner }),
        forall|i: usize| #[trigger]
            memory.convert(Handle::Bark { thread, inner }, Handle::AtomicBark { inner }).cross_count(i)
                == memory.cross_count(i),
        memory.convert(Handle::Bark { thread, inner }, Handle::AtomicBark { inner }).inv(),
        !memory.convert(Handle::Bark { thread, inner }, Handle::AtomicBark { inner }).in_use(
            thread,
        ),
        memory.convert(Handle::Bark { thread, inner }, Handle::AtomicBark { inner }).cross_moved(
            memory,
            inner,
            0,
        ),
        memory.convert(Handle::Bark { thread, inner }, Handle::AtomicBark { inner }).convert(
            Handle::AtomicBark { inner },
            Handle::Bark { thread, inner },
        ) == memory,
{
    let atomic = Handle::AtomicBark { inner };
    let bark = Handle::Bark { thread, inner };
    let after = memory.convert(bark, atomic);
    assert(memory.holds(bark));
    assert(!after.holds(bark));
    assert(after.holds(atomic));
    assert forall|other: Handle| #[trigger] after.holds(other) implies other == atomic
        || memory.holds(other) by {}
    assert(after.referenced(inner)) by {
        assert(atomic.inner() == inner);
    }
    lemma_still_referenced(memory, after);
    assert(!after.in_use(thread)) by {
        assert forall|i: usize| !after.holds(Handle::Bark { thread, inner: i }) by {
            if after.holds(Handle::Bark { thread, inner: i }) {
                assert(memory.holds(Handle::Bark { thread, inner: i }));
            }
        }
    }
    assert forall|i: usize| #[trigger] after.cross_count(i) == memory.cross_count(i) by {
        if i == inner {
            assert(memory.groups(inner).contains(bark));
            assert(after.groups(inner) =~= memory.groups(inner).remove(bark));
            assert(memory.groups(inner).remove(bark).len() == memory.groups(inner).len() - 1);
        } else {
            assert(after.groups(i) =~= memory.groups(i));
        }
    }
    assert(after.convert(atomic, bark) =~= memory);
}

/// The last `Bark` of a group goes in two steps: first the thread-local count is
/// given up, and what is left is a reference such as an `AtomicBark` is; then
/// that one goes.
pub proof fn law_release_in_two_steps<T>(memory: Memory<T>, thread: usize, inner: usize)
    requires
        memory.inv(),
        memory.thread_count(Handle::Bark { thread, inner }) == 1,
    ensures
        memory.release(Handle::Bark { thread, inner }) == memory.convert(
            Handle::Bark { thread, inner },
            Handle::AtomicBark { inner },
        ).release(Handle::AtomicBark { inner }),
{
    let atomic = Handle::AtomicBark { inner };
    let bark = Handle::Bark { thread, inner };
    assert(memory.handles.remove(bark) =~= memory.handles.remove(bark).insert(atomic).remove(
        atomic,
    ));
}

/// To write to a block changes the value there and nothing else: every pointer is
/// alive as often as it was, so every count, of either kind, is the same.
pub proof fn law_write<T>(memory: Memory<T>, inner: usize, value: T)
    requires
        memory.inv(),
        memory.values.contains_key(inner),
    ensures
        memory.write(inner, value).values == memory.values.insert(inner, value),
        memory.write(inner, value).handles == memory.handles,
        forall|handle: Handle| #[trigger]
            memory.write(inner, value).thread_count(handle) == memory.thread_count(handle),
        forall|i: usize| #[trigger]
            memory.write(inner, value).cross_count(i) == memory.cross_count(i),
        memory.write(inner, value).inv(),
        forall|handle: Handle| #[trigger]
            memory.write(inner, value).holds(handle) == memory.holds(handle),
        forall|handle: Handle| #[trigger]
            memory.write(inner, value).is_sole(handle) == memory.is_sole(handle),
        memory.write(inner, value).cross_moved(memory, inner, 0),
{
    let after = memory.write(inner, value);
    assert forall|handle: Handle| #[trigger] after.holds(handle) == memory.holds(handle) by {}
    lemma_still_referenced(memory, after);
    assert forall|handle: Handle| #[trigger] after.is_sole(handle) == memory.is_sole(handle) by {
        if after.is_sole(handle) {
            assert forall|other: Handle| #[trigger]
                memory.holds(other) && other.inner() == handle.inner() implies other == handle by {
                assert(after.holds(other));
            }
        }
    }
}

/// Clone-on-write: when a `Bark` that is not unique moves to a block of its own,
/// it is alone there, and whatever was to be seen through the other pointers is
/// still to be seen through them.
pub proof fn law_make_mut<T>(memory: Memory<T>, bark: Handle, moved: Handle, value: T)
    requires
        memory.inv(),
        memory.holds(bark),
        !memory.is_sole(bark),
        memory.fresh(moved),
    ensures
        memory.allocate(moved, value).release(bark).handles == memory.handles.insert(
            moved,
        ).remove(bark),
        memory.allocate(moved, value).release(bark).inv(),
        memory.allocate(moved, value).release(bark).is_sole(moved),
        memory.allocate(moved, value).release(bark).values == memory.values.insert(
            moved.inner(),
            value,
        ),
        memory.allocate(moved, value).release(bark).values.contains_key(bark.inner()),
{
    let between = memory.allocate(moved, value);
    let after = between.release(bark);
    law_allocate(memory, moved, value);
    assert(between.holds(bark));
    assert(!between.is_sole(bark)) by {
        if between.is_sole(bark) {
            assert forall|other: Handle| #[trigger]
                memory.holds(other) && other.inner() == bark.inner() implies other == bark by {
                assert(between.holds(other));
            }
        }
    }
    law_release(between, bark);
    assert(after.handles.count(moved) == 1);
    assert forall|other: Handle| #[trigger]
        after.holds(other) && other.inner() == moved.inner() implies other == moved by {
        assert(between.holds(other));
    }
}

/// A pointer is the only one on its block exactly when the live pointers on the
/// block are one in number.
pub proof fn law_sole_is_one<T>(memory: Memory<T>, handle: Handle)
    requires
        memory.holds(handle),
    ensures
        memory.is_sole(handle) <==> memory.handles.filter(
            |other: Handle| other.inner() == handle.inner(),
        ).len() == 1,
{
    let on_block = |other: Handle| other.inner() == handle.inner();
    let here = memory.handles.filter(on_block);
    assert(here.count(handle) == memory.handles.count(handle));
    if memory.is_sole(handle) {
        assert(here =~= Multiset::singleton(handle)) by {
            assert forall|other: Handle| here.count(other) == Multiset::singleton(handle).count(
                other,
            ) by {
                if other != handle && here.count(other) > 0 {
                    assert(memory.holds(other));
                }
            }
        }
    }
    if here.len() == 1 {
        assert(here.remove(handle).len() == 0);
        assert forall|other: Handle| #[trigger]
            memory.holds(other) && other.inner() == handle.inner() implies other == handle by {
            if other != handle {
                assert(here.count(other) > 0);
                assert(here.remove(handle).count(other) > 0);
            }
        }
        if memory.handles.count(handle) > 1 {
            assert(here.remove(handle).count(handle) > 0);
        }
    }
}

/// When no pointer is alive any more, no value is either.
pub proof fn law_no_pointer_no_value<T>(memory: Memory<T>)
    requires
        memory.inv(),
        forall|handle: Handle| !memory.holds(handle),
    ensures
        memory == Memory::<T>::empty(),
{
    assert(memory.handles =~= Multiset::empty()) by {
        assert forall|handle: Handle| memory.handles.count(handle) == 0 by {
            assert(!memory.holds(handle));
        }
    }
    assert(memory.values =~= Map::empty()) by {
        assert forall|inner: usize| !memory.values.contains_key(inner) by {
            if memory.values.contains_key(inner) {
                assert(memory.referenced(inner));
            }
        }
    }
}

/// Nothing dangles: a pointer that is left when another one goes still points to
/// the value that it pointed to.
pub proof fn law_others_survive<T>(memory: Memory<T>, gone: Handle, other: Handle)
    requires
        memory.inv(),
        memory.holds(gone),
        memory.release(gone).holds(other),
    ensures
        memory.release(gone).values.contains_key(other.inner()),
        memory.release(gone).values[other.inner()] == memory.values[other.inner()],
{
    law_release(memory, gone);
}

/// To give a clone up again undoes the clone, whether it is a clone of the same
/// kind or an `AtomicBark` made from a `Bark`.
pub proof fn law_clone_then_drop<T>(memory: Memory<T>, handle: Handle)
    requires
        memory.inv(),
        memory.values.contains_key(handle.inner()),
        handle is Bark ==> memory.holds(handle),
    ensures
        memory.retain(handle).release(handle) == memory,
{
    let clone = memory.retain(handle);
    assert(clone.handles.remove(handle) =~= memory.handles);
    assert(memory.referenced(handle.inner()));
}

/// To drop a pointer that was just made, or to take the value out of it, undoes
/// the allocation, and the value that comes out is the one that went in.
pub proof fn law_new_then_unwrap<T>(memory: Memory<T>, handle: Handle, value: T)
    requires
        memory.inv(),
        memory.fresh(handle),
    ensures
        memory.allocate(handle, value).is_sole(handle),
        memory.allocate(handle, value).values[handle.inner()] == value,
        memory.allocate(handle, value).release(handle) == memory,
{
    let made = memory.allocate(handle, value);
    law_allocate(memory, handle, value);
    law_release(made, handle);
    assert(made.release(handle) =~= memory);
}

/// It does not matter which of two pointers goes first.
pub proof fn law_release_commutes<T>(memory: Memory<T>, a: Handle, b: Handle)
    requires
        memory.inv(),
        memory.holds(a),
        memory.release(a).holds(b),
    ensures
        memory.holds(b),
        memory.release(b).holds(a),
        memory.release(a).release(b) == memory.release(b).release(a),
{
    assert(memory.release(b).handles.count(a) > 0);
    let ab = memory.release(a).release(b);
    let ba = memory.release(b).release(a);
    law_release(memory, a);
    law_release(memory.release(a), b);
    law_release(memory, b);
    law_release(memory.release(b), a);
    assert(ab.handles =~= ba.handles);
    assert forall|inner: usize| ab.values.contains_key(inner) == ba.values.contains_key(inner) by {
        if ab.values.contains_key(inner) {
            lemma_values_follow_handles(ab, ba, inner);
        }
        if ba.values.contains_key(inner) {
            lemma_values_follow_handles(ba, ab, inner);
        }
    }
    assert(ab.values =~= ba.values);
}

/// Which blocks there are depends on the live pointers alone.
proof fn lemma_values_follow_handles<T>(a: Memory<T>, b: Memory<T>, inner: usize)
    requires
        a.inv(),
        b.inv(),
        a.handles == b.handles,
        a.values.contains_key(inner),
    ensures
        b.values.contains_key(inner),
{
    assert(a.referenced(inner));
    let handle = choose|handle: Handle| a.holds(handle) && #[trigger] handle.inner() == inner;
    assert(b.holds(handle));
}

/// A `Bark` sent to another thread: the `AtomicBark` that was made from it
/// becomes a `Bark` there, with a thread-local count of its own and on the same
/// block. That thread is one more reference in the cross-thread count, and when
/// its last `Bark` goes, everything is as it was.
pub proof fn law_cross_threads<T>(memory: Memory<T>, bark: Handle, thread: usize)
    requires
        memory.inv(),
        memory.holds(bark),
        bark is Bark,
        !memory.in_use(thread),
    ensures
        ({
            let atomic = Handle::AtomicBark { inner: bark.inner() };
            let other = Handle::Bark { thread, inner: bark.inner() };
            let sent = memory.retain(atomic).convert(atomic, other);
            &&& sent.inv()
            &&& sent.values == memory.values
            &&& sent.holds(bark)
            &&& sent.thread_count(bark) == memory.thread_count(bark)
            &&& sent.thread_count(other) == 1
            &&& sent.cross_moved(memory, bark.inner(), 1)
            &&& !sent.is_sole(bark) && !sent.is_sole(other)
            &&& sent.release(other) == memory
        }),
{
    let inner = bark.inner();
    let atomic = Handle::AtomicBark { inner };
    let other = Handle::Bark { thread, inner };
    let cloned = memory.retain(atomic);
    let sent = cloned.convert(atomic, other);
    assert(bark != other);
    law_retain_atomic(memory, inner);
    assert(!cloned.in_use(thread)) by {
        assert forall|i: usize| !cloned.holds(Handle::Bark { thread, inner: i }) by {
            assert(!memory.holds(Handle::Bark { thread, inner: i }));
        }
    }
    law_promote(cloned, thread, inner);
    assert(sent.holds(bark));
    assert(sent.holds(other));
    assert(sent.handles.remove(other) =~= memory.handles);
    assert(memory.referenced(inner));
    assert(sent.release(other) =~= memory);
}

/// What the counts count. A thread-local count is the number of live `Bark`s that
/// share it. A cross-thread count is zero exactly where no live pointer is on the
/// block, and is at least the number of `AtomicBark`s there.
pub proof fn law_counts_count<T>(memory: Memory<T>, handle: Handle, inner: usize)
    ensures
        memory.holds(handle) <==> memory.handles.count(handle) > 0,
        memory.thread_count(handle) == memory.handles.count(handle),
        memory.cross_count(inner) == 0 <==> (forall|other: Handle|
            other.inner() == inner ==> #[trigger] memory.handles.count(other) == 0),
        memory.cross_count(inner) >= memory.handles.count(Handle::AtomicBark { inner }),
{
    let groups = memory.groups(inner);
    assert(groups.finite());
    if memory.cross_count(inner) == 0 {
        assert forall|other: Handle| other.inner() == inner implies #[trigger]
            memory.handles.count(other) == 0 by {
            if memory.handles.count(other) > 0 && other is Bark {
                assert(groups.contains(other));
                assert(groups.remove(other).len() == groups.len() - 1);
            }
        }
    }
    if forall|other: Handle|
        other.inner() == inner ==> #[trigger] memory.handles.count(other) == 0 {
        assert(groups =~= Set::empty()) by {
            assert forall|other: Handle| !groups.contains(other) by {
                if groups.contains(other) {
                    assert(memory.handles.count(other) > 0);
                }
            }
        }
        assert(memory.handles.count(Handle::AtomicBark { inner }) == 0);
    }
}

/// What a heap in order is: a block is there exactly while some pointer to it is
/// alive, and `Bark`s with the same thread-local count are on the same block.
pub proof fn law_in_order<T>(memory: Memory<T>, inner: usize, a: Handle, b: Handle)
    requires
        memory.inv(),
    ensures
        memory.values.contains_key(inner) <==> !(forall|other: Handle|
            other.inner() == inner ==> #[trigger] memory.handles.count(other) == 0),
        memory.handles.count(a) > 0 ==> memory.values.contains_key(a.inner()),
        memory.handles.count(a) > 0 && memory.handles.count(b) > 0 && a is Bark && b is Bark
            && a->thread == b->thread ==> a.inner() == b.inner(),
{
    assert forall|other: Handle| memory.handles.count(other) > 0 implies #[trigger]
        memory.values.contains_key(other.inner()) by {
        assert(memory.holds(other));
    }
    if memory.values.contains_key(inner) {
        assert(memory.referenced(inner));
        let other = choose|other: Handle| memory.holds(other) && #[trigger] other.inner() == inner;
        assert(memory.handles.count(other) > 0);
    }
    if memory.handles.count(a) > 0 && memory.handles.count(b) > 0 && a is Bark && b is Bark
        && a->thread == b->thread {
        assert(memory.holds(Handle::Bark { thread: a->thread, inner: a.inner() }));
        assert(memory.holds(Handle::Bark { thread: a->thread, inner: b.inner() }));
    }
}

/// A block whose every pointer is in one group has a cross-thread count of one,
/// however many are in the group.
pub proof fn law_group_counts_once<T>(memory: Memory<T>, bark: Handle)
    requires
        memory.handles.count(bark) > 0,
        bark is Bark,
        forall|other: Handle| #[trigger]
            memory.handles.count(other) > 0 && other.inner() == bark.inner() ==> other == bark,
    ensures
        memory.cross_count(bark.inner()) == 1,
{
    assert(memory.groups(bark.inner()) =~= Set::empty().insert(bark)) by {
        assert forall|other: Handle| memory.groups(bark.inner()).contains(
            other,
        ) implies other == bark by {
            assert(memory.handles.count(other) > 0);
        }
    }
    assert(memory.handles.count(Handle::AtomicBark { inner: bark.inner() }) == 0);
}

/// A fresh pointer shares neither its block nor its thread-local count with any
/// live pointer.
pub proof fn law_fresh<T>(memory: Memory<T>, handle: Handle, other: Handle)
    requires
        memory.inv(),
        memory.fresh(handle),
        memory.handles.count(other) > 0,
    ensures
        !memory.values.contains_key(handle.inner()),
        other.inner() != handle.inner(),
        handle is Bark && other is Bark ==> handle->thread != other->thread,
{
    assert(memory.holds(other));
    if handle is Bark && other is Bark && handle->thread == other->thread {
        assert(memory.holds(
            Handle::Bark { thread: handle->thread, inner: other.inner() },
        ));
        assert(memory.in_use(handle->thread));
    }
}

/// Values are neither lost nor made: what is in the heap after a pointer goes, with
/// the value that comes back if it was the last, is what was in the heap before.
pub proof fn law_values_accounted_for<T>(memory: Memory<T>, handle: Handle, freed: Option<T>)
    requires
        memory.inv(),
        memory.holds(handle),
        freed is Some <==> memory.is_sole(handle),
        freed matches Some(value) ==> value == memory.values[handle.inner()],
    ensures
        match freed {
            Some(value) => {
                &&& !memory.release(handle).values.contains_key(handle.inner())
                &&& memory.release(handle).values.insert(handle.inner(), value) == memory.values
                &&& memory.handles.filter(
                    |other: Handle| other.inner() == handle.inner(),
                ).len() == 1
            },
            None => {
                &&& memory.release(handle).values == memory.values
                &&& memory.handles.filter(
                    |other: Handle| other.inner() == handle.inner(),
                ).len() != 1
            },
        },
{
    law_release(memory, handle);
    law_sole_is_one(memory, handle);
    if freed is Some {
        assert(memory.release(handle).values.insert(handle.inner(), freed->0) =~= memory.values);
    }
}

} // verus!
