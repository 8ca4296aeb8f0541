//! A table of values that are shared by counted handles.
//!
//! A slot holds one value and the number of handles to it. A handle is the
//! slot's key. The value leaves the table with its last handle, and the slot is
//! used again.
use vstd::prelude::*;

use crate::tally::place;

verus! {

/// An occupied slot: a value, and how many handles share it.
pub struct Slot<T> {
    pub value: T,
    pub handles: usize,
}

/// Whether slot `k` is occupied.
pub open spec fn live<T>(s: Seq<Option<T>>, k: int) -> bool {
    0 <= k < s.len() && s[k] is Some
}

/// The table. Its view lists the slots by key.
pub struct Slots<T> {
    slots: Vec<Option<Slot<T>>>,
    vacant: Vec<usize>,
}

impl<T> View for Slots<T> {
    type V = Seq<Option<Slot<T>>>;

    closed spec fn view(&self) -> Seq<Option<Slot<T>>> {
        self.slots@
    }
}

impl<T> Slots<T> {
    /// Occupied slots have handles; the keys kept for reuse are distinct and
    /// name empty slots.
    pub closed spec fn wf(&self) -> bool {
        &&& forall|k: int|
            0 <= k < self.slots@.len() && (#[trigger] self.slots@[k]) is Some
                ==> self.slots@[k]->0.handles >= 1
        &&& forall|i: int|
            0 <= i < self.vacant@.len() ==> {
                &&& (#[trigger] self.vacant@[i]) < self.slots@.len()
                &&& self.slots@[self.vacant@[i] as int] is None
            }
        &&& self.vacant@.no_duplicates()
    }

    /// Occupied slots have handles, and keys fit a machine word.
    pub proof fn lemma_wf(&self)
        requires
            self.wf(),
        ensures
            forall|k: int| #[trigger] live(self@, k) ==> self@[k]->0.handles >= 1,
            self@.len() <= usize::MAX,
    {
        assert(self.slots@.len() == self.slots.len());
    }

    /// An empty table.
    pub fn new() -> (table: Self)
        ensures
            table.wf(),
            table@ == Seq::<Option<Slot<T>>>::empty(),
    {
        Slots { slots: Vec::new(), vacant: Vec::new() }
    }

    /// Puts `value` into an empty slot, with one handle, and returns the key.
    pub fn insert(&mut self, value: T) -> (key: usize)
        requires
            old(self).wf(),
        ensures
            final(self).wf(),
            key <= old(self)@.len(),
            !live(old(self)@, key as int),
            final(self)@ == place(old(self)@, key as int, Some(Slot { value, handles: 1 })),
    {
        match self.vacant.pop() {
            Some(key) => {
                self.slots[key] = Some(Slot { value, handles: 1 });
                proof {
                    let old_vacant = old(self).vacant@;
                    assert(old_vacant[old_vacant.len() - 1] == key);
                }
                key
            },
            None => {
                let key: usize = self.slots.len();
                self.slots.push(Some(Slot { value, handles: 1 }));
                key
            },
        }
    }

    /// The value in an occupied slot.
    pub fn get(&self, key: usize) -> (value: &T)
        requires
            live(self@, key as int),
        ensures
            *value == self@[key as int]->0.value,
    {
        &self.slots[key].as_ref().unwrap().value
    }

    /// The value in an occupied slot, to be changed in place.
    pub fn get_mut(&mut self, key: usize) -> (value: &mut T)
        requires
            old(self).wf(),
            live(old(self)@, key as int),
        ensures
            *value == old(self)@[key as int]->0.value,
            final(self).wf(),
            final(self)@ == old(self)@.update(
                key as int,
                Some(Slot { value: *final(value), handles: old(self)@[key as int]->0.handles }),
            ),
    {
        let slot = self.slots[key].as_mut().unwrap();
        &mut slot.value
    }

    /// The number of handles that share an occupied slot.
    pub fn handles(&self, key: usize) -> (n: usize)
        requires
            live(self@, key as int),
        ensures
            n == self@[key as int]->0.handles,
    {
        self.slots[key].as_ref().unwrap().handles
    }

    /// Adds a handle to an occupied slot.
    pub fn retain(&mut self, key: usize)
        requires
            old(self).wf(),
            live(old(self)@, key as int),
            old(self)@[key as int]->0.handles < usize::MAX,
        ensures
            final(self).wf(),
            final(self)@ == old(self)@.update(
                key as int,
                Some(
                    Slot {
                        value: old(self)@[key as int]->0.value,
                        handles: (old(self)@[key as int]->0.handles + 1) as usize,
                    },
                ),
            ),
    {
        let slot = self.slots[key].as_mut().unwrap();
        slot.handles = slot.handles + 1;
    }

    /// Gives up one handle to an occupied slot. With the last handle the value
    /// leaves the table and is returned.
    pub fn release(&mut self, key: usize) -> (last: Option<T>)
        requires
            old(self).wf(),
            live(old(self)@, key as int),
        ensures
            final(self).wf(),
            old(self)@[key as int]->0.handles == 1 ==> {
                &&& last == Some(old(self)@[key as int]->0.value)
                &&& final(self)@ == old(self)@.update(key as int, None)
            },
            old(self)@[key as int]->0.handles != 1 ==> {
                &&& last is None
                &&& final(self)@ == old(self)@.update(
                    key as int,
                    Some(
                        Slot {
                            value: old(self)@[key as int]->0.value,
                            handles: (old(self)@[key as int]->0.handles - 1) as usize,
                        },
                    ),
                )
            },
    {
        let slot = self.slots[key].take().unwrap();
        if slot.handles == 1 {
            self.vacant.push(key);
            proof {
                let vacant = self.vacant@;
                assert forall|i: int, j: int|
                    0 <= i < vacant.len() && 0 <= j < vacant.len() && i != j implies vacant[i]
                    != vacant[j] by {
                    if i < vacant.len() - 1 {
                        assert(vacant[i] == old(self).vacant@[i]);
                    }
                    if j < vacant.len() - 1 {
                        assert(vacant[j] == old(self).vacant@[j]);
                    }
                }
            }
            Some(slot.value)
        } else {
            self.slots[key] = Some(Slot { value: slot.value, handles: slot.handles - 1 });
            None
        }
    }
}

} // verus!
