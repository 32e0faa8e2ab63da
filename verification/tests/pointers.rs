use std::cell::Cell;
use std::rc::Rc;

use bark::{AtomicBark, Bark, Heap};

/// A value that tells when it is dropped, and how often it was cloned.
struct Watched {
    name: u32,
    drops: Rc<Cell<u32>>,
    clones: Rc<Cell<u32>>,
}

impl Clone for Watched {
    fn clone(&self) -> Self {
        self.clones.set(self.clones.get() + 1);
        Watched { name: self.name, drops: self.drops.clone(), clones: self.clones.clone() }
    }
}

impl Drop for Watched {
    fn drop(&mut self) {
        self.drops.set(self.drops.get() + 1);
    }
}

fn watched(name: u32) -> (Watched, Rc<Cell<u32>>, Rc<Cell<u32>>) {
    let drops = Rc::new(Cell::new(0));
    let clones = Rc::new(Cell::new(0));
    (Watched { name, drops: drops.clone(), clones: clones.clone() }, drops, clones)
}

fn is_send_and_sync<T: Send + Sync>() -> bool {
    true
}

#[test]
fn atomic_barks_may_cross_threads() {
    assert!(is_send_and_sync::<AtomicBark<u64>>());
    assert!(is_send_and_sync::<AtomicBark<String>>());
    assert!(is_send_and_sync::<Heap<String>>());
}

#[test]
fn new_bark_is_unique() {
    let mut heap = Heap::new();
    let mut bark = Bark::new(5u64, &mut heap);
    assert_eq!(*bark.deref(&heap), 5);
    assert!(bark.is_unique(&heap));
    bark.drop(&mut heap);
}

#[test]
fn from_makes_new_pointers() {
    let mut heap = Heap::new();
    let mut bark = Bark::from("here", &mut heap);
    let atomic = AtomicBark::from("there", &mut heap);
    assert!(bark.is_unique(&heap));
    assert_eq!(*bark.deref(&heap), "here");
    assert_eq!(*atomic.deref(&heap), "there");
    atomic.drop(&mut heap);
    bark.drop(&mut heap);
}

#[test]
fn clone_shares_the_value() {
    let mut heap = Heap::new();
    let (value, drops, clones) = watched(7);
    let mut a = Bark::new(value, &mut heap);
    let mut b = a.clone(&mut heap);
    assert_eq!(a.deref(&heap).name, 7);
    assert_eq!(b.deref(&heap).name, 7);
    assert!(!a.is_unique(&heap));
    assert!(!b.is_unique(&heap));
    a.drop(&mut heap);
    assert!(b.is_unique(&heap));
    assert_eq!(b.deref(&heap).name, 7);
    assert_eq!(drops.get(), 0);
    b.drop(&mut heap);
    assert_eq!(drops.get(), 1);
    assert_eq!(clones.get(), 0);
}

#[test]
fn last_of_many_barks_frees_the_value_once() {
    let mut heap = Heap::new();
    let (value, drops, _) = watched(1);
    let first = Bark::new(value, &mut heap);
    let mut barks: Vec<Bark<Watched>> = Vec::new();
    for _ in 0..100 {
        barks.push(first.clone(&mut heap));
    }
    first.drop(&mut heap);
    while let Some(bark) = barks.pop() {
        assert_eq!(drops.get(), 0);
        assert_eq!(bark.deref(&heap).name, 1);
        bark.drop(&mut heap);
    }
    assert_eq!(drops.get(), 1);
}

#[test]
fn single_bark_frees_the_value() {
    let mut heap = Heap::new();
    let (value, drops, _) = watched(1);
    let bark = Bark::new(value, &mut heap);
    bark.drop(&mut heap);
    assert_eq!(drops.get(), 1);
}

#[test]
fn clone_then_drop_leaves_a_unique_bark() {
    let mut heap = Heap::new();
    let mut bark = Bark::new(3u8, &mut heap);
    let clone = bark.clone(&mut heap);
    clone.drop(&mut heap);
    assert!(bark.is_unique(&heap));
    let atomic = bark.clone_atomic(&mut heap);
    assert!(!bark.is_unique(&heap));
    atomic.drop(&mut heap);
    assert!(bark.is_unique(&heap));
    assert_eq!(Bark::try_unwrap(bark, &mut heap).ok(), Some(3));
}

#[test]
fn drops_commute() {
    for order in 0..2 {
        let mut heap = Heap::new();
        let (value, drops, _) = watched(1);
        let atomic = AtomicBark::new(value, &mut heap);
        let bark = atomic.clone(&mut heap).promote(&mut heap);
        if order == 0 {
            atomic.drop(&mut heap);
            assert_eq!(drops.get(), 0);
            bark.drop(&mut heap);
        } else {
            bark.drop(&mut heap);
            assert_eq!(drops.get(), 0);
            atomic.drop(&mut heap);
        }
        assert_eq!(drops.get(), 1);
    }
}

#[test]
fn many_pointers_go_in_any_order() {
    for start in 0..4usize {
        let mut heap = Heap::new();
        let (value, drops, clones) = watched(1);
        let origin = AtomicBark::new(value, &mut heap);
        let mut atomics: Vec<AtomicBark<Watched>> = Vec::new();
        for _ in 0..3 {
            atomics.push(origin.clone(&mut heap));
        }
        let first = origin.promote(&mut heap);
        let mut barks: Vec<Bark<Watched>> = Vec::new();
        for _ in 0..3 {
            barks.push(first.clone(&mut heap));
        }
        first.drop(&mut heap);
        for turn in 0..6usize {
            assert_eq!(drops.get(), 0);
            let atomic = if start < 2 { turn % 2 == start % 2 } else { (turn < 3) == (start % 2 == 0) };
            if atomic {
                atomics.pop().unwrap().drop(&mut heap);
            } else {
                barks.pop().unwrap().drop(&mut heap);
            }
        }
        assert_eq!(drops.get(), 1);
        assert_eq!(clones.get(), 0);
    }
}

#[test]
fn promote_keeps_a_sole_value_alive() {
    let mut heap = Heap::new();
    let (value, drops, clones) = watched(9);
    let atomic = AtomicBark::new(value, &mut heap);
    let mut bark = atomic.promote(&mut heap);
    assert_eq!(drops.get(), 0);
    assert_eq!(clones.get(), 0);
    assert_eq!(bark.deref(&heap).name, 9);
    assert!(bark.is_unique(&heap));
    bark.drop(&mut heap);
    assert_eq!(drops.get(), 1);
}

#[test]
fn promoted_barks_have_counts_of_their_own() {
    let mut heap = Heap::new();
    let mut here = Bark::new(1u64, &mut heap);
    let mut there = here.clone_atomic(&mut heap).promote(&mut heap);
    assert!(!here.is_unique(&heap));
    assert!(!there.is_unique(&heap));
    let again = there.clone(&mut heap);
    here.drop(&mut heap);
    assert!(!there.is_unique(&heap));
    again.drop(&mut heap);
    assert!(there.is_unique(&heap));
    assert_eq!(*there.deref(&heap), 1);
    there.drop(&mut heap);
}

#[test]
fn barks_of_one_group_count_once_for_the_others() {
    let mut heap = Heap::new();
    let mut here = Bark::new(1u64, &mut heap);
    let there = here.clone_atomic(&mut heap).promote(&mut heap);
    let a = there.clone(&mut heap);
    let b = there.clone(&mut heap);
    a.drop(&mut heap);
    b.drop(&mut heap);
    assert!(!here.is_unique(&heap));
    there.drop(&mut heap);
    assert!(here.is_unique(&heap));
    here.drop(&mut heap);
}

#[test]
fn atomic_clones_share_the_value() {
    let mut heap = Heap::new();
    let (value, drops, clones) = watched(4);
    let a = AtomicBark::new(value, &mut heap);
    let b = a.clone(&mut heap);
    let c = b.clone(&mut heap);
    a.drop(&mut heap);
    c.drop(&mut heap);
    assert_eq!(b.deref(&heap).name, 4);
    assert_eq!(drops.get(), 0);
    b.drop(&mut heap);
    assert_eq!(drops.get(), 1);
    assert_eq!(clones.get(), 0);
}

#[test]
fn get_mut_needs_a_unique_bark() {
    let mut heap = Heap::new();
    let mut bark = Bark::new(1u64, &mut heap);
    *Bark::get_mut(&mut bark, &mut heap).unwrap() = 2;
    assert_eq!(*bark.deref(&heap), 2);
    let clone = bark.clone(&mut heap);
    assert!(Bark::get_mut(&mut bark, &mut heap).is_none());
    clone.drop(&mut heap);
    let atomic = bark.clone_atomic(&mut heap);
    assert!(Bark::get_mut(&mut bark, &mut heap).is_none());
    atomic.drop(&mut heap);
    assert_eq!(Bark::get_mut(&mut bark, &mut heap), Some(&mut 2));
    bark.drop(&mut heap);
}

#[test]
fn get_mut_unchecked_writes_for_all() {
    let mut heap = Heap::new();
    let mut bark = Bark::new(1u64, &mut heap);
    let clone = bark.clone(&mut heap);
    *Bark::get_mut_unchecked(&mut bark, &mut heap) = 8;
    assert_eq!(*clone.deref(&heap), 8);
    clone.drop(&mut heap);
    bark.drop(&mut heap);
}

#[test]
fn try_unwrap_moves_the_value_out_of_a_unique_bark() {
    let mut heap = Heap::new();
    let (value, drops, clones) = watched(6);
    let bark = Bark::new(value, &mut heap);
    match Bark::try_unwrap(bark, &mut heap) {
        Ok(value) => {
            assert_eq!(value.name, 6);
            assert_eq!(drops.get(), 0);
        }
        Err(_) => panic!("the bark was unique"),
    }
    assert_eq!(drops.get(), 1);
    assert_eq!(clones.get(), 0);
}

#[test]
fn try_unwrap_gives_a_shared_bark_back() {
    let mut heap = Heap::new();
    let bark = Bark::new(String::from("shared"), &mut heap);
    let clone = bark.clone(&mut heap);
    let bark = Bark::try_unwrap(bark, &mut heap).err().unwrap();
    clone.drop(&mut heap);
    let atomic = bark.clone_atomic(&mut heap);
    let bark = Bark::try_unwrap(bark, &mut heap).err().unwrap();
    assert_eq!(bark.deref(&heap), "shared");
    atomic.drop(&mut heap);
    assert_eq!(Bark::try_unwrap(bark, &mut heap).ok().unwrap(), "shared");
}

#[test]
fn make_mut_writes_in_place_when_unique() {
    let mut heap = Heap::new();
    let (value, drops, clones) = watched(1);
    let mut bark = Bark::new(value, &mut heap);
    Bark::make_mut(&mut bark, &mut heap).name = 2;
    assert_eq!(bark.deref(&heap).name, 2);
    assert_eq!(clones.get(), 0);
    assert_eq!(drops.get(), 0);
    bark.drop(&mut heap);
    assert_eq!(drops.get(), 1);
}

#[test]
fn make_mut_clones_when_shared() {
    let mut heap = Heap::new();
    let (value, drops, clones) = watched(1);
    let mut bark = Bark::new(value, &mut heap);
    let mut other = bark.clone(&mut heap);
    Bark::make_mut(&mut bark, &mut heap).name = 2;
    assert_eq!(clones.get(), 1);
    assert_eq!(bark.deref(&heap).name, 2);
    assert_eq!(other.deref(&heap).name, 1);
    assert!(bark.is_unique(&heap));
    assert!(other.is_unique(&heap));
    bark.drop(&mut heap);
    assert_eq!(drops.get(), 1);
    other.drop(&mut heap);
    assert_eq!(drops.get(), 2);
}

#[test]
fn make_mut_clones_when_another_thread_shares() {
    let mut heap = Heap::new();
    let mut bark = Bark::new(vec![1, 2], &mut heap);
    let atomic = bark.clone_atomic(&mut heap);
    Bark::make_mut(&mut bark, &mut heap).push(3);
    assert_eq!(*bark.deref(&heap), vec![1, 2, 3]);
    assert_eq!(*atomic.deref(&heap), vec![1, 2]);
    let mut last = atomic.promote(&mut heap);
    assert!(last.is_unique(&heap));
    last.drop(&mut heap);
    bark.drop(&mut heap);
}

#[test]
fn unwrap_or_clone_clones_only_when_shared() {
    let mut heap = Heap::new();
    let (value, drops, clones) = watched(3);
    let bark = Bark::new(value, &mut heap);
    let mut other = bark.clone(&mut heap);
    let copy = Bark::unwrap_or_clone(bark, &mut heap);
    assert_eq!(copy.name, 3);
    assert_eq!(clones.get(), 1);
    assert!(other.is_unique(&heap));
    let value = Bark::unwrap_or_clone(other, &mut heap);
    assert_eq!(value.name, 3);
    assert_eq!(clones.get(), 1);
    assert_eq!(drops.get(), 0);
}

/// A value whose clones start over.
#[derive(Debug, PartialEq)]
struct Fresh {
    name: u32,
    uses: u32,
}

impl Clone for Fresh {
    fn clone(&self) -> Self {
        Fresh { name: self.name, uses: 0 }
    }
}

#[test]
fn shared_barks_hand_out_what_clone_returns() {
    let mut heap = Heap::new();
    let mut bark = Bark::new(Fresh { name: 1, uses: 7 }, &mut heap);
    let other = bark.clone(&mut heap);
    assert_eq!(*Bark::make_mut(&mut bark, &mut heap), Fresh { name: 1, uses: 0 });
    assert_eq!(*other.deref(&heap), Fresh { name: 1, uses: 7 });
    let third = other.clone(&mut heap);
    assert_eq!(Bark::unwrap_or_clone(third, &mut heap), Fresh { name: 1, uses: 0 });
    assert_eq!(Bark::unwrap_or_clone(other, &mut heap), Fresh { name: 1, uses: 7 });
    bark.drop(&mut heap);
}

#[test]
fn pinned_values_stay_where_they_are() {
    let mut heap = Heap::new();
    let pinned = Bark::pin(String::from("a"), &mut heap);
    let before = format!("{:p}", pinned.deref(&heap));
    let clone = pinned.clone(&mut heap);
    let mut others: Vec<Bark<String>> = Vec::new();
    for i in 0..100 {
        others.push(Bark::new(i.to_string(), &mut heap));
    }
    assert_eq!(format!("{:p}", clone.deref(&heap)), before);
    assert_eq!(clone.deref(&heap), "a");
    pinned.drop(&mut heap);
    assert_eq!(clone.deref(&heap), "a");
    clone.drop(&mut heap);
    while let Some(other) = others.pop() {
        other.drop(&mut heap);
    }
}

#[test]
fn pinned_atomic_values_are_freed_with_the_last() {
    let mut heap = Heap::new();
    let (value, drops, _) = watched(2);
    let pinned = AtomicBark::pin(value, &mut heap);
    let clone = pinned.clone(&mut heap);
    pinned.drop(&mut heap);
    assert_eq!(drops.get(), 0);
    assert_eq!(clone.deref(&heap).name, 2);
    clone.drop(&mut heap);
    assert_eq!(drops.get(), 1);
}

#[test]
fn blocks_do_not_disturb_each_other() {
    let mut heap = Heap::new();
    let mut a = Bark::new(1u64, &mut heap);
    let mut b = Bark::new(2u64, &mut heap);
    let c = b.clone(&mut heap);
    *Bark::get_mut(&mut a, &mut heap).unwrap() = 10;
    assert!(a.is_unique(&heap));
    assert!(!b.is_unique(&heap));
    assert_eq!(*c.deref(&heap), 2);
    a.drop(&mut heap);
    assert_eq!(*b.deref(&heap), 2);
    let d = Bark::new(3u64, &mut heap);
    assert_eq!(*b.deref(&heap), 2);
    assert_eq!(*d.deref(&heap), 3);
    c.drop(&mut heap);
    assert!(b.is_unique(&heap));
    b.drop(&mut heap);
    d.drop(&mut heap);
}
