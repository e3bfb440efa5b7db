//! The mathematical model of a slot pool, its transitions, and the proofs
//! that the transitions keep it valid.

use crate::error::PoolError;
use crate::ptr::Ptr;
use vstd::prelude::*;

verus! {

/// What a pool is, seen from outside: the content of every slot, the live
/// slots in allocation order, and the free slots in the order in which they
/// will be handed out.
#[verifier::ext_equal]
pub struct PoolView<T> {
    pub items: Seq<T>,
    pub live: Seq<Ptr>,
    pub free: Seq<Ptr>,
}

/// Whether `p` names one of the slots `0 .. capacity`.
pub open spec fn is_slot(p: Ptr, capacity: nat) -> bool {
    p.index < capacity
}

/// The two lists share out the slots `0 .. capacity`: every slot is on
/// exactly one of them, and on that list once.
pub open spec fn partition(live: Seq<Ptr>, free: Seq<Ptr>, capacity: nat) -> bool {
    &&& live.no_duplicates()
    &&& free.no_duplicates()
    &&& live.len() + free.len() == capacity
    &&& forall|p: Ptr| #[trigger] live.contains(p) ==> is_slot(p, capacity) && !free.contains(p)
    &&& forall|p: Ptr| #[trigger] free.contains(p) ==> is_slot(p, capacity)
    &&& forall|p: Ptr| #[trigger] is_slot(p, capacity) ==> live.contains(p) || free.contains(p)
}

impl<T> PoolView<T> {
    /// The number of slots.
    pub open spec fn capacity(self) -> nat {
        self.items.len()
    }

    /// Whether `p` names a slot of this pool.
    pub open spec fn in_range(self, p: Ptr) -> bool {
        is_slot(p, self.capacity())
    }

    /// Every slot is on exactly one of the two lists, and on that list once.
    pub open spec fn valid(self) -> bool {
        partition(self.live, self.free, self.capacity())
    }

    /// The pool over `items` in which no slot is live and the free list holds
    /// the slots in index order.
    pub open spec fn fresh(items: Seq<T>) -> Self {
        PoolView {
            items,
            live: Seq::empty(),
            free: Seq::new(items.len(), |i: int| Ptr { index: i as usize }),
        }
    }

    /// What an allocation returns: the head of the free list, or
    /// `PoolExhausted` when no slot is free.
    pub open spec fn allocate_result(self) -> Result<Ptr, PoolError> {
        if self.free.len() > 0 {
            Ok(self.free[0])
        } else {
            Err(PoolError::PoolExhausted)
        }
    }

    /// What releasing `p` returns: `InvalidReference` when `p` names no slot
    /// of this pool, `DoubleRelease` when the slot is not live, and success
    /// otherwise.
    pub open spec fn free_result(self, p: Ptr) -> Result<(), PoolError> {
        if !self.in_range(p) {
            Err(PoolError::InvalidReference)
        } else if !self.live.contains(p) {
            Err(PoolError::DoubleRelease)
        } else {
            Ok(())
        }
    }

    /// The pool after the head of the free list became the newest live slot.
    pub open spec fn allocate(self) -> Self
        recommends
            self.free.len() > 0,
    {
        PoolView {
            items: self.items,
            live: self.live.push(self.free[0]),
            free: self.free.drop_first(),
        }
    }

    /// The pool after `n` allocations in a row.
    pub open spec fn allocate_n(self, n: nat) -> Self
        recommends
            n <= self.free.len(),
        decreases n,
    {
        if n == 0 {
            self
        } else {
            self.allocate_n((n - 1) as nat).allocate()
        }
    }

    /// The pool after the live slot `p` was released: it left the live list,
    /// its content became `reset`, and it is the new head of the free list.
    pub open spec fn release(self, p: Ptr, reset: T) -> Self
        recommends
            self.live.contains(p),
    {
        PoolView {
            items: self.items.update(p.index as int, reset),
            live: self.live.remove(self.live.index_of(p)),
            free: seq![p] + self.free,
        }
    }
}

/// A fresh pool is valid, has no live slot, and all its slots are free.
pub proof fn lemma_fresh_valid<T>(items: Seq<T>)
    requires
        items.len() <= usize::MAX + 1,
    ensures
        PoolView::fresh(items).valid(),
        PoolView::fresh(items).live.len() == 0,
        PoolView::fresh(items).free.len() == items.len(),
{
    let v = PoolView::fresh(items);
    assert forall|p: Ptr| #[trigger] is_slot(p, v.capacity()) implies v.free.contains(p) by {
        assert(v.free[p.index as int] == p);
    }
}

/// Allocation keeps the pool valid and yields a slot that was not live: no
/// two live slots share a handle.
pub proof fn lemma_allocate_valid<T>(v: PoolView<T>)
    requires
        v.valid(),
        v.free.len() > 0,
    ensures
        v.allocate().valid(),
        !v.live.contains(v.free[0]),
        v.allocate().live.contains(v.free[0]),
        v.allocate().live.len() == v.live.len() + 1,
        v.allocate().free.len() == v.free.len() - 1,
        v.allocate().capacity() == v.capacity(),
{
    let w = v.allocate();
    let p = v.free[0];
    assert(v.free.contains(p));
    assert(w.live[v.live.len() as int] == p);
    assert forall|q: Ptr| #[trigger] w.live.contains(q) implies w.in_range(q) && !w.free.contains(q) by {
        let i = choose|i: int| 0 <= i < w.live.len() && w.live[i] == q;
        if i < v.live.len() {
            assert(v.live[i] == q);
            assert(v.live.contains(q));
            if w.free.contains(q) {
                let j = choose|j: int| 0 <= j < w.free.len() && w.free[j] == q;
                assert(v.free[j + 1] == q);
                assert(v.free.contains(q));
            }
        } else {
            assert(q == p);
            if w.free.contains(q) {
                let j = choose|j: int| 0 <= j < w.free.len() && w.free[j] == q;
                assert(v.free[j + 1] == v.free[0]);
            }
        }
    }
    assert forall|q: Ptr| #[trigger] w.free.contains(q) implies w.in_range(q) by {
        let j = choose|j: int| 0 <= j < w.free.len() && w.free[j] == q;
        assert(v.free[j + 1] == q);
        assert(v.free.contains(q));
    }
    assert forall|q: Ptr| #[trigger] is_slot(q, w.capacity()) implies w.live.contains(q) || w.free.contains(q) by {
        assert(v.in_range(q));
        if v.live.contains(q) {
            let i = choose|i: int| 0 <= i < v.live.len() && v.live[i] == q;
            assert(w.live[i] == q);
        } else {
            let j = choose|j: int| 0 <= j < v.free.len() && v.free[j] == q;
            if j == 0 {
                assert(w.live[v.live.len() as int] == q);
            } else {
                assert(w.free[j - 1] == q);
            }
        }
    }
    assert(w.live.no_duplicates()) by {
        assert forall|i: int, j: int| 0 <= i < w.live.len() && 0 <= j < w.live.len() && i != j implies w.live[i] != w.live[j] by {
            if i < v.live.len() && j < v.live.len() {
            } else if i < v.live.len() {
                assert(v.live.contains(v.live[i]));
            } else {
                assert(v.live.contains(v.live[j]));
            }
        }
    }
    assert(w.free.no_duplicates()) by {
        assert forall|i: int, j: int| 0 <= i < w.free.len() && 0 <= j < w.free.len() && i != j implies w.free[i] != w.free[j] by {
            assert(w.free[i] == v.free[i + 1]);
            assert(w.free[j] == v.free[j + 1]);
        }
    }
}

/// Releasing a live slot keeps the pool valid. The slot leaves the live list,
/// the other live slots keep their order, and the slot heads the free list.
pub proof fn lemma_release_valid<T>(v: PoolView<T>, p: Ptr, reset: T)
    requires
        v.valid(),
        v.live.contains(p),
    ensures
        v.release(p, reset).valid(),
        !v.release(p, reset).live.contains(p),
        v.release(p, reset).free[0] == p,
        v.release(p, reset).live.len() == v.live.len() - 1,
        v.release(p, reset).free.len() == v.free.len() + 1,
        v.release(p, reset).capacity() == v.capacity(),
        forall|q: Ptr| q != p ==> (v.release(p, reset).live.contains(q) <==> v.live.contains(q)),
{
    let w = v.release(p, reset);
    let k = v.live.index_of(p);
    assert(0 <= k < v.live.len() && v.live[k] == p);
    assert forall|i: int| 0 <= i < w.live.len() implies #[trigger] w.live[i] == v.live[if i < k { i } else { i + 1 }] by {}
    assert(w.free[0] == p);
    assert forall|j: int| 1 <= j < w.free.len() implies #[trigger] w.free[j] == v.free[j - 1] by {}
    assert(!w.live.contains(p)) by {
        if w.live.contains(p) {
            let i = choose|i: int| 0 <= i < w.live.len() && w.live[i] == p;
            assert(v.live[if i < k { i } else { i + 1 }] == p);
        }
    }
    assert forall|q: Ptr| q != p implies (w.live.contains(q) <==> v.live.contains(q)) by {
        if w.live.contains(q) {
            let i = choose|i: int| 0 <= i < w.live.len() && w.live[i] == q;
            assert(v.live[if i < k { i } else { i + 1 }] == q);
        }
        if v.live.contains(q) {
            let i = choose|i: int| 0 <= i < v.live.len() && v.live[i] == q;
            assert(w.live[if i < k { i } else { i - 1 }] == q);
        }
    }
    assert forall|q: Ptr| q != p implies (w.free.contains(q) <==> v.free.contains(q)) by {
        if w.free.contains(q) {
            let j = choose|j: int| 0 <= j < w.free.len() && w.free[j] == q;
            assert(v.free[j - 1] == q);
        }
        if v.free.contains(q) {
            let j = choose|j: int| 0 <= j < v.free.len() && v.free[j] == q;
            assert(w.free[j + 1] == q);
        }
    }
    assert(w.free.contains(p));
    assert(w.live.no_duplicates()) by {
        assert forall|i: int, j: int| 0 <= i < w.live.len() && 0 <= j < w.live.len() && i != j implies w.live[i] != w.live[j] by {
            assert(w.live[i] == v.live[if i < k { i } else { i + 1 }]);
            assert(w.live[j] == v.live[if j < k { j } else { j + 1 }]);
        }
    }
    assert(w.free.no_duplicates()) by {
        assert forall|i: int, j: int| 0 <= i < w.free.len() && 0 <= j < w.free.len() && i != j implies w.free[i] != w.free[j] by {
            if i >= 1 {
                assert(w.free[i] == v.free[i - 1]);
                assert(v.free.contains(w.free[i]));
            }
            if j >= 1 {
                assert(w.free[j] == v.free[j - 1]);
                assert(v.free.contains(w.free[j]));
            }
        }
    }
    assert forall|q: Ptr| #[trigger] w.live.contains(q) implies w.in_range(q) && !w.free.contains(q) by {
        assert(v.live.contains(q));
    }
    assert forall|q: Ptr| #[trigger] w.free.contains(q) implies w.in_range(q) by {
        if q != p {
            assert(v.free.contains(q));
        }
    }
    assert forall|q: Ptr| #[trigger] is_slot(q, w.capacity()) implies w.live.contains(q) || w.free.contains(q) by {
        assert(v.in_range(q));
    }
}

/// Any number of allocations that the free list can serve keeps the pool
/// valid and moves that many slots from the free list to the live list.
pub proof fn lemma_allocate_n_valid<T>(v: PoolView<T>, n: nat)
    requires
        v.valid(),
        n <= v.free.len(),
    ensures
        v.allocate_n(n).valid(),
        v.allocate_n(n).live.len() == v.live.len() + n,
        v.allocate_n(n).free.len() == v.free.len() - n,
        v.allocate_n(n).capacity() == v.capacity(),
    decreases n,
{
    if n > 0 {
        lemma_allocate_n_valid(v, (n - 1) as nat);
        lemma_allocate_valid(v.allocate_n((n - 1) as nat));
    }
}

} // verus!
