//! A store of values under integer keys, with freed keys used again.
use vstd::prelude::*;

verus! {

/// A place for a value. The vacant places form a list: each names the next one.
enum Slot<V> {
    Taken(V),
    Vacant(Option<usize>),
}

/// A store that hands out a key for each value put into it.
///
/// A key stands for its value until the value is taken out again; after that
/// the key may be handed out for another value.
pub struct Slab<V> {
    slots: Vec<Slot<V>>,
    head: Option<usize>,
    vacant: Ghost<Seq<usize>>,
}

/// How many places there are after one more value is put in: a new place is made
/// only where every old one is taken.
pub open spec fn grown<V>(extent: nat, taken: Map<usize, V>) -> nat {
    if forall|key: usize| key < extent ==> #[trigger] taken.contains_key(key) {
        extent + 1
    } else {
        extent
    }
}

impl<V> View for Slab<V> {
    type V = Map<usize, V>;

    closed spec fn view(&self) -> Map<usize, V> {
        Map::new(
            |key: usize| key < self.slots@.len() && self.slots@[key as int] is Taken,
            |key: usize| self.slots@[key as int]->Taken_0,
        )
    }
}

impl<V> Slab<V> {
    /// How many keys were ever handed out: the keys below are those in use and
    /// those to be used again.
    pub closed spec fn extent(&self) -> nat {
        self.slots@.len()
    }

    /// The list of vacant places runs through all of them, once each.
    pub closed spec fn wf(&self) -> bool {
        &&& self.vacant@.no_duplicates()
        &&& self.head == if self.vacant@.len() == 0 {
            None
        } else {
            Some(self.vacant@.last())
        }
        &&& forall|key: usize|
            key < self.slots@.len() && self.slots@[key as int] is Vacant
                ==> #[trigger] self.vacant@.contains(key)
        &&& forall|i: int|
            #![trigger self.vacant@[i]]
            0 <= i < self.vacant@.len() ==> {
                &&& self.vacant@[i] < self.slots@.len()
                &&& self.slots@[self.vacant@[i] as int] == Slot::<V>::Vacant(
                    if i == 0 {
                        None
                    } else {
                        Some(self.vacant@[i - 1])
                    },
                )
            }
    }

    /// An empty store.
    pub fn new() -> (slab: Self)
        ensures
            slab.wf(),
            slab@ == Map::<usize, V>::empty(),
            slab.extent() == 0,
    {
        let slab = Slab { slots: Vec::new(), head: None, vacant: Ghost(Seq::empty()) };
        assert(slab@ =~= Map::<usize, V>::empty());
        slab
    }

    /// Puts `value` into the store, under a key that no other value has. A new key
    /// is handed out only where every old one is in use.
    pub fn insert(&mut self, value: V) -> (key: usize)
        requires
            old(self).wf(),
        ensures
            final(self).wf(),
            !old(self)@.contains_key(key),
            final(self)@ == old(self)@.insert(key, value),
            key < final(self).extent(),
            final(self).extent() == if forall|other: usize|
                other < old(self).extent() ==> #[trigger] old(self)@.contains_key(other) {
                old(self).extent() + 1
            } else {
                old(self).extent()
            },
    {
        let key = match self.head {
            Some(key) => {
                assert(self.vacant@[self.vacant@.len() - 1] == key);
                assert(key < self.extent() && !self@.contains_key(key));
                self.head = match &self.slots[key] {
                    Slot::Vacant(next) => *next,
                    Slot::Taken(_) => None,
                };
                self.slots[key] = Slot::Taken(value);
                proof {
                    self.vacant@ = self.vacant@.drop_last();
                }
                key
            },
            None => {
                assert forall|other: usize| other < old(self).extent() implies #[trigger] old(
                    self,
                )@.contains_key(other) by {
                    assert(!old(self).vacant@.contains(other));
                }
                let key = self.slots.len();
                self.slots.push(Slot::Taken(value));
                key
            },
        };
        proof {
            assert forall|other: usize|
                other < self.slots@.len()
                    && self.slots@[other as int] is Vacant implies #[trigger] self.vacant@.contains(
                other,
            ) by {
                assert(old(self).vacant@.contains(other));
                let i = choose|i: int|
                    0 <= i < old(self).vacant@.len() && old(self).vacant@[i] == other;
                assert(self.vacant@[i] == other);
            }
            assert(self@ =~= old(self)@.insert(key, value));
        }
        key
    }

    /// Takes the value under `key` out of the store. The key is to be used again.
    pub fn remove(&mut self, key: usize) -> (value: V)
        requires
            old(self).wf(),
            old(self)@.contains_key(key),
        ensures
            final(self).wf(),
            value == old(self)@[key],
            final(self)@ == old(self)@.remove(key),
            final(self).extent() == old(self).extent(),
        no_unwind
    {
        let mut slot = Slot::Vacant(self.head);
        core::mem::swap(&mut self.slots[key], &mut slot);
        self.head = Some(key);
        proof {
            self.vacant@ = self.vacant@.push(key);
            assert forall|other: usize|
                other < self.slots@.len()
                    && self.slots@[other as int] is Vacant implies #[trigger] self.vacant@.contains(
                other,
            ) by {
                if other == key {
                    assert(self.vacant@[self.vacant@.len() - 1] == key);
                } else {
                    assert(old(self).vacant@.contains(other));
                    let i = choose|i: int|
                        0 <= i < old(self).vacant@.len() && old(self).vacant@[i] == other;
                    assert(self.vacant@[i] == other);
                }
            }
            assert(self@ =~= old(self)@.remove(key));
        }
        match slot {
            Slot::Taken(value) => value,
            Slot::Vacant(_) => unreached(),
        }
    }

    /// Reads the value under `key`.
    pub fn get(&self, key: usize) -> (value: &V)
        requires
            self.wf(),
            self@.contains_key(key),
        ensures
            *value == self@[key],
        no_unwind
    {
        match &self.slots[key] {
            Slot::Taken(value) => value,
            Slot::Vacant(_) => unreached(),
        }
    }

    /// Gives access to the value under `key`.
    pub fn get_mut(&mut self, key: usize) -> (value: &mut V)
        requires
            old(self).wf(),
            old(self)@.contains_key(key),
        ensures
            *value == old(self)@[key],
            final(self).wf(),
            final(self)@ == old(self)@.insert(key, *final(value)),
            final(self).extent() == old(self).extent(),
        no_unwind
    {
        match &mut self.slots[key] {
            Slot::Taken(value) => value,
            Slot::Vacant(_) => unreached(),
        }
    }
}

} // verus!
