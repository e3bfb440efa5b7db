//! A set of slot handles with a fixed number of places.

use crate::ptr::Ptr;
use vstd::prelude::*;

verus! {

/// Place `k` is the first empty place of `places`.
pub open spec fn is_first_vacant(places: Seq<Option<Ptr>>, k: int) -> bool {
    &&& 0 <= k < places.len()
    &&& places[k] is None
    &&& forall|j: int| 0 <= j < k ==> (#[trigger] places[j]) is Some
}

/// Place `k` is the first place of `places` that holds `v`.
pub open spec fn is_first_holding(places: Seq<Option<Ptr>>, v: Ptr, k: int) -> bool {
    &&& 0 <= k < places.len()
    &&& places[k] == Some(v)
    &&& forall|j: int| 0 <= j < k ==> #[trigger] places[j] != Some(v)
}

/// The places after `v` was put into the first empty one; the same places
/// when none is empty.
pub open spec fn added(places: Seq<Option<Ptr>>, v: Ptr) -> Seq<Option<Ptr>> {
    if exists|k: int| is_first_vacant(places, k) {
        places.update(choose|k: int| is_first_vacant(places, k), Some(v))
    } else {
        places
    }
}

/// The places after the first one that holds `v` was emptied; the same
/// places when none holds `v`.
pub open spec fn removed(places: Seq<Option<Ptr>>, v: Ptr) -> Seq<Option<Ptr>> {
    if exists|k: int| is_first_holding(places, v, k) {
        places.update(choose|k: int| is_first_holding(places, v, k), None)
    } else {
        places
    }
}

/// The handles that `places` hold, in the order of the places.
pub open spec fn present(places: Seq<Option<Ptr>>) -> Seq<Ptr>
    decreases places.len(),
{
    if places.len() == 0 {
        Seq::empty()
    } else {
        match places.last() {
            Some(p) => present(places.drop_last()).push(p),
            None => present(places.drop_last()),
        }
    }
}

/// No handle is present in places that are all empty.
pub proof fn lemma_present_none(places: Seq<Option<Ptr>>)
    requires
        forall|j: int| 0 <= j < places.len() ==> (#[trigger] places[j]) is None,
    ensures
        present(places) == Seq::<Ptr>::empty(),
    decreases places.len(),
{
    if places.len() > 0 {
        lemma_present_none(places.drop_last());
    }
}

/// While the filled places come before the empty ones, a handle that is
/// added comes last in the order of the handles.
pub proof fn lemma_present_added(places: Seq<Option<Ptr>>, k: int, v: Ptr)
    requires
        0 <= k < places.len(),
        forall|j: int| 0 <= j < k ==> (#[trigger] places[j]) is Some,
        forall|j: int| k <= j < places.len() ==> (#[trigger] places[j]) is None,
    ensures
        added(places, v) == places.update(k, Some(v)),
        present(added(places, v)) == present(places).push(v),
    decreases places.len(),
{
    assert(is_first_vacant(places, k));
    let first = choose|i: int| is_first_vacant(places, i);
    assert(first == k);
    lemma_present_filled(places, k, v);
}

/// Filling place `k`, behind which every place is empty, appends to the
/// order of the handles.
proof fn lemma_present_filled(places: Seq<Option<Ptr>>, k: int, v: Ptr)
    requires
        0 <= k < places.len(),
        forall|j: int| k <= j < places.len() ==> (#[trigger] places[j]) is None,
    ensures
        present(places.update(k, Some(v))) == present(places).push(v),
    decreases places.len(),
{
    let filled = places.update(k, Some(v));
    if k == places.len() - 1 {
        assert(filled.drop_last() =~= places.drop_last());
    } else {
        assert(filled.drop_last() =~= places.drop_last().update(k, Some(v)));
        lemma_present_filled(places.drop_last(), k, v);
    }
}

/// A fixed number of places, each empty or holding one handle.
///
/// A handle is added to the first empty place and removed from the first
/// place that holds it, so a handle that was added twice is held twice.
pub struct RefSet {
    items: Vec<Option<Ptr>>,
}

impl View for RefSet {
    type V = Seq<Option<Ptr>>;

    closed spec fn view(&self) -> Seq<Option<Ptr>> {
        self.items@
    }
}

impl RefSet {
    /// A set of `capacity` empty places.
    pub fn new(capacity: usize) -> (set: Self)
        ensures
            set@ == Seq::new(capacity as nat, |i: int| None::<Ptr>),
    {
        let mut items: Vec<Option<Ptr>> = Vec::with_capacity(capacity);
        let mut i: usize = 0;
        while i < capacity
            invariant
                i <= capacity,
                items@ == Seq::new(i as nat, |i: int| None::<Ptr>),
            decreases capacity - i,
        {
            items.push(None);
            i = i + 1;
        }
        RefSet { items }
    }

    /// Puts `v` into the first empty place. Fails, and changes nothing, when
    /// no place is empty.
    pub fn add(&mut self, v: Ptr) -> (r: Result<(), &'static str>)
        ensures
            final(self)@ == added(old(self)@, v),
            match r {
                Ok(()) => exists|k: int| is_first_vacant(old(self)@, k) && final(self)@ == old(self)@.update(k, Some(v)),
                Err(text) => {
                    &&& text@ == "Out of space!"@
                    &&& forall|k: int| 0 <= k < old(self)@.len() ==> (#[trigger] old(self)@[k]) is Some
                    &&& final(self)@ == old(self)@
                },
            },
    {
        let mut i: usize = 0;
        while i < self.items.len()
            invariant
                i <= self.items.len(),
                self.items@ == old(self).items@,
                forall|j: int| 0 <= j < i ==> (#[trigger] self.items@[j]) is Some,
            decreases self.items.len() - i,
        {
            if self.items[i].is_none() {
                self.items[i] = Some(v);
                proof {
                    assert(is_first_vacant(old(self)@, i as int));
                    let k = choose|k: int| is_first_vacant(old(self)@, k);
                    assert(k == i);
                }
                return Ok(());
            }
            i = i + 1;
        }
        Err("Out of space!")
    }

    /// Empties the first place that holds `v`. Fails, and changes nothing,
    /// when no place holds `v`.
    pub fn remove(&mut self, v: Ptr) -> (r: Result<(), &'static str>)
        ensures
            final(self)@ == removed(old(self)@, v),
            match r {
                Ok(()) => exists|k: int| is_first_holding(old(self)@, v, k) && final(self)@ == old(self)@.update(k, None),
                Err(text) => {
                    &&& text@ == "Item not in set!"@
                    &&& !old(self)@.contains(Some(v))
                    &&& final(self)@ == old(self)@
                },
            },
    {
        let mut i: usize = 0;
        while i < self.items.len()
            invariant
                i <= self.items.len(),
                self.items@ == old(self).items@,
                forall|j: int| 0 <= j < i ==> #[trigger] self.items@[j] != Some(v),
            decreases self.items.len() - i,
        {
            let held = match self.items[i] {
                Some(a) => a == v,
                None => false,
            };
            if held {
                self.items[i] = None;
                proof {
                    assert(is_first_holding(old(self)@, v, i as int));
                    let k = choose|k: int| is_first_holding(old(self)@, v, k);
                    assert(k == i);
                }
                return Ok(());
            }
            i = i + 1;
        }
        Err("Item not in set!")
    }

    /// The handles in the set, in the order of their places.
    pub fn iter(&self) -> (held: Vec<Ptr>)
        ensures
            held@ == present(self@),
    {
        let mut held: Vec<Ptr> = Vec::new();
        let mut i: usize = 0;
        while i < self.items.len()
            invariant
                i <= self.items.len(),
                held@ == present(self.items@.take(i as int)),
            decreases self.items.len() - i,
        {
            proof {
                assert(self.items@.take(i + 1).drop_last() =~= self.items@.take(i as int));
            }
            match self.items[i] {
                Some(p) => {
                    held.push(p);
                },
                None => {},
            }
            i = i + 1;
        }
        proof {
            assert(self.items@.take(i as int) =~= self.items@);
        }
        held
    }

    /// The number of places.
    pub fn capacity(&self) -> (n: usize)
        ensures
            n == self@.len(),
    {
        self.items.len()
    }
}

impl Clone for RefSet {
    /// A set with the same handles in the same places.
    fn clone(&self) -> (set: Self)
        ensures
            set@ == self@,
    {
        let mut items: Vec<Option<Ptr>> = Vec::with_capacity(self.items.len());
        let mut i: usize = 0;
        while i < self.items.len()
            invariant
                i <= self.items.len(),
                items@ == self.items@.take(i as int),
            decreases self.items.len() - i,
        {
            items.push(self.items[i]);
            proof {
                assert(items@ =~= self.items@.take(i + 1));
            }
            i = i + 1;
        }
        proof {
            assert(self.items@.take(i as int) =~= self.items@);
        }
        RefSet { items }
    }
}

impl Default for RefSet {
    /// A set of ten empty places.
    fn default() -> (set: Self)
        ensures
            set@ == Seq::new(10, |i: int| None::<Ptr>),
    {
        RefSet::new(10)
    }
}

} // verus!
