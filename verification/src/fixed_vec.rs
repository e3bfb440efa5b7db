//! A fixed store of slots with one occupancy flag for each slot.

use crate::clear::Clear;
use crate::ptr::Ptr;
use vstd::prelude::*;

verus! {

/// The number of flags of `flags` that are set.
pub open spec fn occupied_count(flags: Seq<bool>) -> nat
    decreases flags.len(),
{
    if flags.len() == 0 {
        0
    } else {
        occupied_count(flags.drop_last()) + if flags.last() {
            1nat
        } else {
            0nat
        }
    }
}

/// Slot `k` is the first slot whose flag is not set.
pub open spec fn is_first_unoccupied(flags: Seq<bool>, k: int) -> bool {
    &&& 0 <= k < flags.len()
    &&& !flags[k]
    &&& forall|j: int| 0 <= j < k ==> #[trigger] flags[j]
}

/// There are at most as many set flags as flags, and fewer exactly when
/// some flag is not set.
pub proof fn lemma_count_bound(flags: Seq<bool>)
    ensures
        occupied_count(flags) <= flags.len(),
        flags.contains(false) <==> occupied_count(flags) < flags.len(),
    decreases flags.len(),
{
    if flags.len() > 0 {
        let rest = flags.drop_last();
        lemma_count_bound(rest);
        if flags.contains(false) && flags.last() {
            let k = choose|k: int| 0 <= k < flags.len() && flags[k] == false;
            assert(rest[k] == false);
        }
        if rest.contains(false) {
            let k = choose|k: int| 0 <= k < rest.len() && rest[k] == false;
            assert(flags[k] == false);
        }
        if !flags.last() {
            assert(flags[flags.len() - 1] == false);
        }
    }
}

/// Changing one flag changes the count by that flag alone.
pub proof fn lemma_count_update(flags: Seq<bool>, k: int, flag: bool)
    requires
        0 <= k < flags.len(),
    ensures
        occupied_count(flags.update(k, flag)) + (if flags[k] { 1int } else { 0int })
            == occupied_count(flags) + (if flag { 1int } else { 0int }),
    decreases flags.len(),
{
    let changed = flags.update(k, flag);
    if k == flags.len() - 1 {
        assert(changed.drop_last() =~= flags.drop_last());
    } else {
        assert(changed.drop_last() =~= flags.drop_last().update(k, flag));
        lemma_count_update(flags.drop_last(), k, flag);
    }
}

/// What a [`FixedVec`] is: the content of every slot and whether it is
/// occupied.
pub struct FixedVecView<T> {
    pub items: Seq<T>,
    pub occupied: Seq<bool>,
}

/// Slots, flags and the number of set flags.
struct Slots<T> {
    items: Vec<T>,
    is_occupied: Vec<bool>,
    size: usize,
}

impl<T> Slots<T> {
    /// There is one flag for each slot, and the size counts the set flags.
    spec fn wf(&self) -> bool {
        &&& self.is_occupied.len() == self.items.len()
        &&& self.size == occupied_count(self.is_occupied@)
    }

    /// No slots at all.
    fn empty() -> (slots: Self)
        ensures
            slots.wf(),
    {
        Slots { items: Vec::new(), is_occupied: Vec::new(), size: 0 }
    }
}

/// A store of slots that are handed out first-fit and taken back by handle.
pub struct FixedVec<T: Clear> {
    slots: Slots<T>,
}

impl<T: Clear> View for FixedVec<T> {
    type V = FixedVecView<T>;

    closed spec fn view(&self) -> FixedVecView<T> {
        FixedVecView { items: self.slots.items@, occupied: self.slots.is_occupied@ }
    }
}

impl<T: Clear> FixedVec<T> {
    #[verifier::type_invariant]
    spec fn inv(&self) -> bool {
        self.slots.wf()
    }

    /// A store over `items` in which no slot is occupied.
    pub fn new(items: Vec<T>) -> (store: Self)
        ensures
            store@.items == items@,
            store@.occupied == Seq::new(items@.len(), |i: int| false),
    {
        let mut is_occupied: Vec<bool> = Vec::with_capacity(items.len());
        let mut i: usize = 0;
        while i < items.len()
            invariant
                i <= items.len(),
                is_occupied@ == Seq::new(i as nat, |i: int| false),
                occupied_count(is_occupied@) == 0,
            decreases items.len() - i,
        {
            is_occupied.push(false);
            proof {
                assert(is_occupied@.drop_last() =~= Seq::new(i as nat, |i: int| false));
            }
            i = i + 1;
        }
        FixedVec { slots: Slots { items, is_occupied, size: 0 } }
    }

    /// The number of occupied slots.
    pub fn len(&self) -> (n: usize)
        ensures
            n == occupied_count(self@.occupied),
            n <= self@.occupied.len(),
    {
        proof {
            use_type_invariant(self);
            lemma_count_bound(self.slots.is_occupied@);
        }
        self.slots.size
    }

    /// The number of slots.
    pub fn capacity(&self) -> (n: usize)
        ensures
            n == self@.items.len(),
            n == self@.occupied.len(),
    {
        proof {
            use_type_invariant(self);
        }
        self.slots.items.len()
    }

    /// Occupies the first slot that is not occupied and returns its handle.
    /// The store must have such a slot.
    pub fn allocate(&mut self) -> (p: Ptr)
        requires
            old(self)@.occupied.contains(false),
        ensures
            is_first_unoccupied(old(self)@.occupied, p.index as int),
            final(self)@.occupied == old(self)@.occupied.update(p.index as int, true),
            final(self)@.items == old(self)@.items,
    {
        proof {
            use_type_invariant(&*self);
        }
        let mut slots = Slots::empty();
        std::mem::swap(&mut slots, &mut self.slots);
        let mut i: usize = 0;
        while slots.is_occupied[i]
            invariant
                slots == old(self).slots,
                slots.is_occupied@.contains(false),
                i < slots.is_occupied.len(),
                forall|j: int| 0 <= j < i ==> #[trigger] slots.is_occupied[j],
            decreases slots.is_occupied.len() - i,
        {
            proof {
                let k = choose|k: int| 0 <= k < slots.is_occupied.len() && slots.is_occupied[k] == false;
                assert(k > i);
            }
            i = i + 1;
        }
        proof {
            lemma_count_bound(slots.is_occupied@);
            lemma_count_update(slots.is_occupied@, i as int, true);
        }
        slots.is_occupied[i] = true;
        slots.size = slots.size + 1;
        self.slots = slots;
        Ptr { index: i }
    }

    /// Resets the slot that `p` names and marks it as not occupied. The
    /// handle must name a slot of the store.
    pub fn free(&mut self, p: Ptr)
        requires
            p.index < old(self)@.occupied.len(),
        ensures
            final(self)@.occupied == old(self)@.occupied.update(p.index as int, false),
            final(self)@.items[p.index as int].is_clear(),
            final(self)@.items == old(self)@.items.update(p.index as int, final(self)@.items[p.index as int]),
    {
        proof {
            use_type_invariant(&*self);
        }
        let mut slots = Slots::empty();
        std::mem::swap(&mut slots, &mut self.slots);
        let i = p.index;
        proof {
            lemma_count_update(slots.is_occupied@, i as int, false);
        }
        slots.items[i].clear();
        if slots.is_occupied[i] {
            slots.is_occupied[i] = false;
            slots.size = slots.size - 1;
        }
        proof {
            assert(slots.is_occupied@ =~= old(self)@.occupied.update(i as int, false));
            assert(slots.items@ =~= old(self)@.items.update(i as int, slots.items@[i as int]));
        }
        self.slots = slots;
    }

    /// The content of the slot that `p` names, or `None` if the slot is not
    /// occupied.
    pub fn get(&self, p: Ptr) -> (r: Option<&T>)
        ensures
            match r {
                Some(item) => p.index < self@.occupied.len() && self@.occupied[p.index as int] && *item
                    == self@.items[p.index as int],
                None => p.index >= self@.occupied.len() || !self@.occupied[p.index as int],
            },
    {
        proof {
            use_type_invariant(self);
        }
        if p.index < self.slots.items.len() && self.slots.is_occupied[p.index] {
            Some(&self.slots.items[p.index])
        } else {
            None
        }
    }

    /// The content of the slot that `p` names, for writing, or `None` if the
    /// slot is not occupied. Only the content of that slot can change.
    pub fn get_mut(&mut self, p: Ptr) -> (r: Option<&mut T>)
        ensures
            final(self)@.occupied == old(self)@.occupied,
            match r {
                Some(item) => {
                    &&& p.index < old(self)@.occupied.len()
                    &&& old(self)@.occupied[p.index as int]
                    &&& *item == old(self)@.items[p.index as int]
                    &&& final(self)@.items == old(self)@.items.update(p.index as int, *final(item))
                },
                None => {
                    &&& p.index >= old(self)@.occupied.len() || !old(self)@.occupied[p.index as int]
                    &&& final(self)@.items == old(self)@.items
                },
            },
    {
        proof {
            use_type_invariant(&*self);
        }
        if p.index < self.slots.items.len() && self.slots.is_occupied[p.index] {
            Some(&mut self.slots.items[p.index])
        } else {
            None
        }
    }
}

} // verus!
