# Bark

`Bark<T>` is a pointer type for reference-counted data, similar to `Arc<T>` or
`Rc<T>`. Unlike `Arc`, it works on shared counts only when it crosses threads, or
when all `Bark`s on a thread are gone. Clones and drops on one thread touch a plain
count of that thread.

- `src/` is the verified library. `Bark` and `AtomicBark` are keys into a `Heap`,
  which holds the counts and the values; the contracts say what each operation
  does to the whole heap, and `src/laws.rs` and `src/steps.rs` what follows for
  every sequence of operations of any number of threads. That a shared value does
  not change holds as long as nobody writes to it with `get_mut_unchecked`.
  A pointer is given up by `drop(heap)`: one that goes out of scope without it
  stays counted as alive.
- `src/counts.rs` decides what becomes of a single count.
- `app/` holds the smart pointers with `Drop`, `Deref`, `Debug` and `Pin`, over raw
  memory and atomics, which count by these decisions.
- `tests/` runs the library.
