//! Any number of threads at work on one heap.
//!
//! Each thing that a pointer does to memory that other threads may use is one
//! step, which no other thread sees half done; a block that its last pointer
//! leaves is out of the others' reach, so to free it belongs to the same step. So
//! however the threads take turns, what happens is a sequence of steps.
//!
//! `Bark::get_mut_unchecked` may write where other pointers read. Such a write is
//! a step of its own kind: it leaves pointers and counts in order, as every step
//! does, but it is not among those that leave shared values alone.
use vstd::prelude::*;
use crate::laws;
use crate::memory::{Handle, Memory};

verus! {

/// One step of some thread.
pub enum Step<T> {
    /// A new block and a pointer to it.
    New { handle: Handle, value: T },
    /// A clone of a pointer, of the same kind.
    Clone { handle: Handle },
    /// An `AtomicBark` made from a `Bark`.
    CloneAtomic { bark: Handle },
    /// An `AtomicBark` turned into the first `Bark` of a group.
    Promote { inner: usize, thread: usize },
    /// The last `Bark` of a group without its thread-local count: the first half
    /// of its drop.
    Demote { inner: usize, thread: usize },
    /// A pointer given up.
    Drop { handle: Handle },
    /// A value taken out of its block through a pointer that was found to be the
    /// only one; the pointer goes with it.
    Unwrap { handle: Handle },
    /// A value written through a pointer that was found to be the only one.
    Write { handle: Handle, value: T },
    /// A value written through a pointer without a look at the counts.
    WriteUnchecked { handle: Handle, value: T },
}

/// Some thread has the pointer that the step needs, and what is new is fresh.
pub open spec fn enabled<T>(memory: Memory<T>, step: Step<T>) -> bool {
    match step {
        Step::New { handle, .. } => memory.fresh(handle),
        Step::Clone { handle } => memory.holds(handle),
        Step::CloneAtomic { bark } => memory.holds(bark) && bark is Bark,
        Step::Promote { inner, thread } => memory.holds(Handle::AtomicBark { inner })
            && !memory.in_use(thread),
        Step::Demote { inner, thread } => memory.thread_count(Handle::Bark { thread, inner }) == 1,
        Step::Drop { handle } => memory.holds(handle),
        Step::Unwrap { handle } => memory.holds(handle) && memory.is_sole(handle),
        Step::Write { handle, .. } => memory.holds(handle) && memory.is_sole(handle),
        Step::WriteUnchecked { handle, .. } => memory.holds(handle),
    }
}

/// The heap after the step.
pub open spec fn after<T>(memory: Memory<T>, step: Step<T>) -> Memory<T> {
    match step {
        Step::New { handle, value } => memory.allocate(handle, value),
        Step::Clone { handle } => memory.retain(handle),
        Step::CloneAtomic { bark } => memory.retain(Handle::AtomicBark { inner: bark.inner() }),
        Step::Promote { inner, thread } => memory.convert(
            Handle::AtomicBark { inner },
            Handle::Bark { thread, inner },
        ),
        Step::Demote { inner, thread } => memory.convert(
            Handle::Bark { thread, inner },
            Handle::AtomicBark { inner },
        ),
        Step::Drop { handle } => memory.release(handle),
        Step::Unwrap { handle } => memory.release(handle),
        Step::Write { handle, value } => memory.write(handle.inner(), value),
        Step::WriteUnchecked { handle, value } => memory.write(handle.inner(), value),
    }
}

/// The heap after all the steps, one after the other.
pub open spec fn run<T>(memory: Memory<T>, steps: Seq<Step<T>>) -> Memory<T>
    decreases steps.len(),
{
    if steps.len() == 0 {
        memory
    } else {
        after(run(memory, steps.drop_last()), steps.last())
    }
}

/// Each step could be taken when it was.
pub open spec fn runs<T>(memory: Memory<T>, steps: Seq<Step<T>>) -> bool
    decreases steps.len(),
{
    steps.len() == 0 || {
        &&& runs(memory, steps.drop_last())
        &&& enabled(run(memory, steps.drop_last()), steps.last())
    }
}

/// No step leaves a dangling pointer or a block without one.
pub proof fn law_step<T>(memory: Memory<T>, step: Step<T>)
    requires
        memory.inv(),
        enabled(memory, step),
    ensures
        after(memory, step).inv(),
{
    match step {
        Step::New { handle, value } => {
            laws::law_allocate(memory, handle, value);
        },
        Step::Clone { handle } => {
            match handle {
                Handle::Bark { .. } => {
                    laws::law_retain_bark(memory, handle);
                },
                Handle::AtomicBark { inner } => {
                    laws::law_retain_atomic(memory, inner);
                },
            }
        },
        Step::CloneAtomic { bark } => {
            laws::law_retain_atomic(memory, bark.inner());
        },
        Step::Promote { inner, thread } => {
            laws::law_promote(memory, thread, inner);
        },
        Step::Demote { inner, thread } => {
            laws::law_demote(memory, thread, inner);
        },
        Step::Drop { handle } => {
            laws::law_release(memory, handle);
        },
        Step::Unwrap { handle } => {
            laws::law_release(memory, handle);
        },
        Step::Write { handle, value } => {
            laws::law_write(memory, handle.inner(), value);
        },
        Step::WriteUnchecked { handle, value } => {
            laws::law_write(memory, handle.inner(), value);
        },
    }
}

/// However the threads take turns, nothing ever dangles, and no block outlives
/// its pointers.
pub proof fn law_run<T>(memory: Memory<T>, steps: Seq<Step<T>>)
    requires
        memory.inv(),
        runs(memory, steps),
    ensures
        run(memory, steps).inv(),
    decreases steps.len(),
{
    if steps.len() > 0 {
        law_run(memory, steps.drop_last());
        law_step(run(memory, steps.drop_last()), steps.last());
    }
}

/// What a pointer points to changes under no other pointer's hands: a value that
/// is still pointed to after a step is the same as before, unless it was written
/// through this very pointer while it was the only one. The exception is an
/// unchecked write to the same block: to keep it off a shared block is the duty
/// of whoever makes it.
pub proof fn law_shared_is_immutable<T>(memory: Memory<T>, step: Step<T>, handle: Handle)
    requires
        memory.inv(),
        enabled(memory, step),
        memory.holds(handle),
        after(memory, step).holds(handle),
    ensures
        after(memory, step).values.contains_key(handle.inner()),
        after(memory, step).values[handle.inner()] == memory.values[handle.inner()] || (step matches
            Step::Write { handle: writer, .. } && writer == handle && memory.is_sole(handle)) || (
        step matches Step::WriteUnchecked { handle: writer, .. } && writer.inner()
            == handle.inner()),
{
    law_step(memory, step);
}

/// A pointer that is found to be the only one stays the only one whatever other
/// threads do: every step that changes this is a step of that pointer.
pub proof fn law_sole_is_stable<T>(memory: Memory<T>, step: Step<T>, handle: Handle)
    requires
        memory.inv(),
        enabled(memory, step),
        memory.holds(handle),
        memory.is_sole(handle),
        !after(memory, step).is_sole(handle),
    ensures
        match step {
            Step::New { .. } => false,
            Step::Clone { handle: actor } => actor == handle,
            Step::CloneAtomic { bark } => bark == handle,
            Step::Promote { inner, .. } => handle == (Handle::AtomicBark { inner }),
            Step::Demote { inner, thread } => handle == (Handle::Bark { thread, inner }),
            Step::Drop { handle: actor } => actor == handle,
            Step::Unwrap { handle: actor } => actor == handle,
            Step::Write { .. } => false,
            Step::WriteUnchecked { .. } => false,
        },
{
    let next = after(memory, step);
    match step {
        Step::New { handle: made, value } => {
            assert(made.inner() != handle.inner());
            assert forall|other: Handle| #[trigger] next.holds(other) implies other == made
                || memory.holds(other) by {}
            assert(next.is_sole(handle));
        },
        Step::Clone { handle: actor } => {
            if actor != handle {
                assert(actor.inner() != handle.inner());
                assert forall|other: Handle| #[trigger] next.holds(other) implies memory.holds(
                    other,
                ) by {}
                assert(next.is_sole(handle));
            }
        },
        Step::CloneAtomic { bark } => {
            if bark != handle {
                assert(bark.inner() != handle.inner());
                assert forall|other: Handle| #[trigger] next.holds(other) implies other.inner()
                    == bark.inner() || memory.holds(other) by {}
                assert(next.is_sole(handle));
            }
        },
        Step::Promote { inner, thread } => {
            if handle != (Handle::AtomicBark { inner }) {
                assert(inner != handle.inner());
                assert forall|other: Handle| #[trigger] next.holds(other) implies other.inner()
                    == inner || memory.holds(other) by {}
                assert(next.is_sole(handle));
            }
        },
        Step::Demote { inner, thread } => {
            if handle != (Handle::Bark { thread, inner }) {
                assert(memory.holds(Handle::Bark { thread, inner }));
                assert(inner != handle.inner());
                assert forall|other: Handle| #[trigger] next.holds(other) implies other.inner()
                    == inner || memory.holds(other) by {}
                assert(next.is_sole(handle));
            }
        },
        Step::Drop { handle: actor } | Step::Unwrap { handle: actor } => {
            if actor != handle {
                assert forall|other: Handle| #[trigger] next.holds(other) implies memory.holds(
                    other,
                ) by {}
                assert(next.is_sole(handle));
            }
        },
        Step::Write { handle: writer, value } => {
            laws::law_write(memory, writer.inner(), value);
        },
        Step::WriteUnchecked { handle: writer, value } => {
            laws::law_write(memory, writer.inner(), value);
        },
    }
}

/// A value that is taken out was nobody else's: no pointer on its block is left,
/// the block is gone, and every other block is as it was.
pub proof fn law_unwrap<T>(memory: Memory<T>, handle: Handle)
    requires
        memory.inv(),
        enabled(memory, Step::Unwrap { handle }),
    ensures
        memory.values.contains_key(handle.inner()),
        after(memory, Step::Unwrap { handle }).values == memory.values.remove(handle.inner()),
        !after(memory, Step::Unwrap { handle }).referenced(handle.inner()),
        forall|other: Handle|
            memory.holds(other) && other != handle ==> #[trigger] after(
                memory,
                Step::Unwrap { handle },
            ).holds(other),
{
    let next = after(memory, Step::Unwrap { handle });
    laws::law_release(memory, handle);
    assert forall|other: Handle| next.holds(other) implies #[trigger] other.inner()
        != handle.inner() by {
        assert(memory.holds(other));
    }
}

/// The steps that clone these pointers, one after the other.
pub open spec fn clones<T>(order: Seq<Handle>) -> Seq<Step<T>> {
    Seq::new(order.len(), |i: int| Step::Clone { handle: order[i] })
}

/// The steps that give these pointers up, one after the other.
pub open spec fn drops<T>(order: Seq<Handle>) -> Seq<Step<T>> {
    Seq::new(order.len(), |i: int| Step::Drop { handle: order[i] })
}

/// Clones made in any order count in full: a thread-local count grows by the
/// clones of its `Bark`s, a cross-thread count by the clones of `AtomicBark`s
/// alone, and no value changes.
pub proof fn law_clones<T>(memory: Memory<T>, order: Seq<Handle>)
    requires
        memory.inv(),
        forall|i: int| 0 <= i < order.len() ==> memory.holds(#[trigger] order[i]),
    ensures
        runs(memory, clones(order)),
        run(memory, clones(order)).inv(),
        run(memory, clones(order)).values == memory.values,
        run(memory, clones(order)).handles == memory.handles.add(order.to_multiset()),
        forall|inner: usize| #[trigger]
            run(memory, clones(order)).cross_count(inner) == memory.cross_count(inner)
                + order.to_multiset().count(Handle::AtomicBark { inner }),
    decreases order.len(),
{
    broadcast use vstd::seq_lib::group_to_multiset_ensures;

    let end = run(memory, clones(order));
    if order.len() == 0 {
        assert(end.handles =~= memory.handles.add(order.to_multiset()));
    } else {
        let init = order.drop_last();
        let last = order.last();
        let before = run(memory, clones(init));
        law_clones(memory, init);
        assert(clones::<T>(order).drop_last() =~= clones::<T>(init));
        assert(clones::<T>(order).last() == Step::<T>::Clone { handle: last });
        assert(init.push(last) =~= order);
        assert(memory.holds(last));
        assert(before.holds(last));
        law_step(before, Step::Clone { handle: last });
        assert(end == before.retain(last));
        assert(end.handles =~= memory.handles.add(order.to_multiset()));
        match last {
            Handle::Bark { .. } => {
                laws::law_retain_bark(before, last);
            },
            Handle::AtomicBark { inner } => {
                laws::law_retain_atomic(before, inner);
            },
        }
        assert forall|inner: usize| #[trigger] end.cross_count(inner) == memory.cross_count(inner)
            + order.to_multiset().count(Handle::AtomicBark { inner }) by {
            assert(before.cross_count(inner) == memory.cross_count(inner)
                + init.to_multiset().count(Handle::AtomicBark { inner }));
            assert(end.cross_moved(before, last.inner(), if last is Bark {
                0
            } else {
                1
            }));
        }
    }
}

/// Pointers given up in any order leave the others as they are: the blocks that
/// are left are those that the others point to, with the same values.
pub proof fn law_drops<T>(memory: Memory<T>, order: Seq<Handle>)
    requires
        memory.inv(),
        order.to_multiset().subset_of(memory.handles),
    ensures
        runs(memory, drops(order)),
        run(memory, drops(order)).inv(),
        run(memory, drops(order)).handles == memory.handles.sub(order.to_multiset()),
        run(memory, drops(order)).values.submap_of(memory.values),
        forall|inner: usize| #[trigger]
            run(memory, drops(order)).values.contains_key(inner) <==> run(
                memory,
                drops(order),
            ).referenced(inner),
    decreases order.len(),
{
    broadcast use vstd::seq_lib::group_to_multiset_ensures;

    let end = run(memory, drops(order));
    if order.len() == 0 {
        assert(end.handles =~= memory.handles.sub(order.to_multiset()));
    } else {
        let init = order.drop_last();
        let last = order.last();
        let before = run(memory, drops(init));
        assert(init.push(last) =~= order);
        assert(order.to_multiset() =~= init.to_multiset().insert(last));
        assert(init.to_multiset().subset_of(memory.handles)) by {
            assert forall|handle: Handle| init.to_multiset().count(handle) <= memory.handles.count(
                handle,
            ) by {
                assert(init.to_multiset().count(handle) <= order.to_multiset().count(handle));
            }
        }
        law_drops(memory, init);
        assert(drops::<T>(order).drop_last() =~= drops::<T>(init));
        assert(drops::<T>(order).last() == Step::<T>::Drop { handle: last });
        assert(order.to_multiset().count(last) <= memory.handles.count(last));
        assert(before.holds(last));
        law_step(before, Step::Drop { handle: last });
        laws::law_release(before, last);
        assert(end == before.release(last));
        assert(end.handles =~= memory.handles.sub(order.to_multiset()));
    }
    assert forall|inner: usize| end.referenced(inner) implies #[trigger] end.values.contains_key(
        inner,
    ) by {
        let handle = choose|handle: Handle| end.holds(handle) && #[trigger] handle.inner() == inner;
        assert(end.holds(handle));
    }
}

/// In whatever order all pointers go, nothing is left in the end.
pub proof fn law_drop_all<T>(memory: Memory<T>, order: Seq<Handle>)
    requires
        memory.inv(),
        order.to_multiset() == memory.handles,
    ensures
        runs(memory, drops(order)),
        run(memory, drops(order)) == Memory::<T>::empty(),
{
    law_drops(memory, order);
    laws::law_no_pointer_no_value(run(memory, drops(order)));
}

/// Each value is freed once: the drop at which a block goes is that of the only
/// pointer left on it, and the block does not come back.
pub proof fn law_freed_once<T>(
    memory: Memory<T>,
    order: Seq<Handle>,
    inner: usize,
    at: int,
    later: int,
)
    requires
        memory.inv(),
        order.to_multiset().subset_of(memory.handles),
        0 <= at < later <= order.len(),
        run(memory, drops(order.take(at))).values.contains_key(inner),
        !run(memory, drops(order.take(at + 1))).values.contains_key(inner),
    ensures
        order[at].inner() == inner,
        run(memory, drops(order.take(at))).is_sole(order[at]),
        run(memory, drops(order.take(at))).values[inner] == memory.values[inner],
        !run(memory, drops(order.take(later))).values.contains_key(inner),
{
    let before = run(memory, drops(order.take(at)));
    let next = run(memory, drops(order.take(at + 1)));
    let end = run(memory, drops(order.take(later)));
    lemma_prefix(order, at, order.len() as int);
    lemma_prefix(order, at + 1, order.len() as int);
    lemma_prefix(order, later, order.len() as int);
    lemma_prefix(order, at + 1, later);
    assert(order.take(order.len() as int) =~= order);
    law_drops(memory, order.take(at));
    law_drops(memory, order.take(at + 1));
    law_drops(memory, order.take(later));
    assert(drops::<T>(order.take(at + 1)).drop_last() =~= drops::<T>(order.take(at)));
    assert(drops::<T>(order.take(at + 1)).last() == Step::<T>::Drop { handle: order[at] });
    assert(next == before.release(order[at]));
    assert(enabled(before, Step::Drop { handle: order[at] }));
    assert(before.values.dom().contains(inner) && memory.values.dom().contains(inner));
    laws::law_release(before, order[at]);
    if end.values.contains_key(inner) {
        assert(end.referenced(inner));
        let handle = choose|handle: Handle| end.holds(handle) && #[trigger] handle.inner() == inner;
        assert(order.take(at + 1).to_multiset().count(handle) <= order.take(
            later,
        ).to_multiset().count(handle));
        assert(next.holds(handle));
        assert(next.referenced(inner));
    }
}

/// What is in the beginning of a sequence is in any longer beginning.
proof fn lemma_prefix(order: Seq<Handle>, shorter: int, longer: int)
    requires
        0 <= shorter <= longer <= order.len(),
    ensures
        order.take(shorter).to_multiset().subset_of(order.take(longer).to_multiset()),
{
    vstd::seq_lib::lemma_multiset_commutative(
        order.take(shorter),
        order.subrange(shorter, longer),
    );
    assert(order.take(shorter) + order.subrange(shorter, longer) =~= order.take(longer));
}

} // verus!
