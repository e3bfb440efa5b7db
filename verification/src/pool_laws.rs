//! Laws of the slot pool, stated over its model and proved from the
//! definitions of the transitions.

use crate::error::PoolError;
use crate::pool_model::lemma_allocate_n_valid;
use crate::pool_model::lemma_allocate_valid;
use crate::pool_model::lemma_fresh_valid;
use crate::pool_model::lemma_release_valid;
use crate::pool_model::PoolView;
use crate::ptr::Ptr;
use vstd::prelude::*;

verus! {

/// Capacity bound. From a fresh pool of `N` slots, each of the first `N`
/// allocations in a row succeeds, and the one after them fails with
/// `PoolExhausted`.
pub proof fn lemma_capacity_bound<T>(items: Seq<T>, n: nat)
    requires
        items.len() <= usize::MAX,
        n <= items.len(),
    ensures
        PoolView::fresh(items).allocate_n(n).valid(),
        PoolView::fresh(items).allocate_n(n).live.len() == n,
        n < items.len() ==> PoolView::fresh(items).allocate_n(n).allocate_result() is Ok,
        n == items.len() ==> PoolView::fresh(items).allocate_n(n).allocate_result() == Err::<Ptr, PoolError>(
            PoolError::PoolExhausted,
        ),
{
    lemma_fresh_valid(items);
    lemma_allocate_n_valid(PoolView::fresh(items), n);
}

/// Exhaustion. A valid pool serves exactly as many allocations in a row as
/// it has free slots.
pub proof fn lemma_exhaustion<T>(v: PoolView<T>, n: nat)
    requires
        v.valid(),
        n <= v.free.len(),
    ensures
        v.allocate_n(n).allocate_result() is Ok <==> n < v.free.len(),
        v.allocate_n(n).allocate_result() is Ok <==> v.live.len() + n < v.capacity(),
{
    lemma_allocate_n_valid(v, n);
}

/// Identity uniqueness. Two positions of the live list never hold the same
/// handle, and an allocation yields a handle that no live slot has.
pub proof fn lemma_identity_unique<T>(v: PoolView<T>, i: int, j: int)
    requires
        v.valid(),
        0 <= i < v.live.len(),
        0 <= j < v.live.len(),
        i != j,
    ensures
        v.live[i] != v.live[j],
        v.live[i].index != v.live[j].index,
        v.allocate_result() matches Ok(p) ==> !v.live.contains(p),
{
    if v.free.len() > 0 {
        lemma_allocate_valid(v);
    }
}

/// Free/live partition. Every transition leads from a valid pool to a valid
/// pool, so at every point each slot is on exactly one list and the lengths
/// of the lists add up to the capacity.
pub proof fn lemma_partition_kept<T>(v: PoolView<T>, p: Ptr, reset: T, items: Seq<T>)
    requires
        v.valid(),
        items.len() == v.capacity(),
    ensures
        v.live.len() + v.free.len() == v.capacity(),
        v.in_range(p) ==> (v.live.contains(p) <==> !v.free.contains(p)),
        !v.in_range(p) ==> !v.live.contains(p) && !v.free.contains(p),
        v.allocate_result() is Ok ==> v.allocate().valid(),
        v.free_result(p) is Ok ==> v.release(p, reset).valid(),
        PoolView::fresh(items).valid(),
{
    if v.free.len() > 0 {
        lemma_allocate_valid(v);
    }
    if v.live.contains(p) {
        lemma_release_valid(v, p, reset);
    }
    lemma_index_bound(v);
    lemma_fresh_valid(items);
}

/// The capacity of a valid pool fits the index type of its handles.
pub proof fn lemma_index_bound<T>(v: PoolView<T>)
    requires
        v.valid(),
    ensures
        v.capacity() <= usize::MAX + 1,
    decreases v.capacity(),
{
    if v.capacity() > usize::MAX + 1 {
        // More slots than handles: two positions of the lists would hold
        // the same handle.
        let all = v.live + v.free;
        assert(all.len() == v.capacity());
        assert forall|i: int, j: int| 0 <= i < all.len() && 0 <= j < all.len() && i != j implies all[i] != all[j] by {
            if i < v.live.len() && j >= v.live.len() {
                assert(v.live.contains(all[i]));
                assert(v.free.contains(all[j]));
            }
            if j < v.live.len() && i >= v.live.len() {
                assert(v.live.contains(all[j]));
                assert(v.free.contains(all[i]));
            }
        }
        assert(all.no_duplicates());
        let indices = all.map_values(|p: Ptr| p.index as int);
        assert forall|i: int, j: int| 0 <= i < indices.len() && 0 <= j < indices.len() && i != j implies indices[i] != indices[j] by {
            assert(all[i] != all[j]);
        }
        assert(indices.no_duplicates());
        indices.unique_seq_to_set();
        let bound = vstd::set_lib::set_int_range(0, usize::MAX + 1);
        vstd::set_lib::lemma_int_range(0, usize::MAX + 1);
        assert forall|x: int| indices.to_set().contains(x) implies bound.contains(x) by {
            let i = choose|i: int| 0 <= i < indices.len() && indices[i] == x;
            assert(indices[i] == all[i].index);
        }
        vstd::set_lib::lemma_len_subset(indices.to_set(), bound);
    }
}

/// Insertion order. Three allocations on a pool without live slots give a
/// live list of the three handles in the order of their allocation, and
/// releasing the middle one leaves the other two in that order.
pub proof fn lemma_insertion_order<T>(v: PoolView<T>, reset: T)
    requires
        v.valid(),
        v.live.len() == 0,
        v.free.len() >= 3,
    ensures
        ({
            let a = v.free[0];
            let b = v.free[1];
            let c = v.free[2];
            let w = v.allocate().allocate().allocate();
            &&& v.allocate_result() == Ok::<Ptr, PoolError>(a)
            &&& v.allocate().allocate_result() == Ok::<Ptr, PoolError>(b)
            &&& v.allocate().allocate().allocate_result() == Ok::<Ptr, PoolError>(c)
            &&& w.live == seq![a, b, c]
            &&& w.release(b, reset).live == seq![a, c]
        }),
{
    let a = v.free[0];
    let b = v.free[1];
    let c = v.free[2];
    let w = v.allocate().allocate().allocate();
    assert(w.live =~= seq![a, b, c]);
    lemma_allocate_valid(v);
    lemma_allocate_valid(v.allocate());
    lemma_allocate_valid(v.allocate().allocate());
    assert(w.live[1] == b);
    assert(w.live.contains(b));
    let k = w.live.index_of(b);
    assert(k == 1);
    assert(w.release(b, reset).live =~= seq![a, c]);
}

/// An allocation appends to the live list, and a release removes one
/// handle from it: the live slots that stay keep their order.
pub proof fn lemma_order_kept<T>(v: PoolView<T>, p: Ptr, reset: T, i: int, j: int)
    requires
        v.valid(),
        v.live.contains(p),
        0 <= i < j < v.live.len(),
        v.live[i] != p,
        v.live[j] != p,
    ensures
        v.free.len() > 0 ==> v.allocate().live == v.live.push(v.free[0]),
        ({
            let w = v.release(p, reset);
            &&& w.live.contains(v.live[i])
            &&& w.live.contains(v.live[j])
            &&& w.live.index_of(v.live[i]) < w.live.index_of(v.live[j])
        }),
{
    let w = v.release(p, reset);
    let k = v.live.index_of(p);
    lemma_release_valid(v, p, reset);
    let i2 = if i < k { i } else { i - 1 };
    let j2 = if j < k { j } else { j - 1 };
    assert(w.live[i2] == v.live[i]);
    assert(w.live[j2] == v.live[j]);
    assert(w.live.index_of(v.live[i]) == i2);
    assert(w.live.index_of(v.live[j]) == j2);
}

/// Reuse after release. Once a live slot was released, the next allocation
/// succeeds, yields that very slot, and finds in it the reset content.
pub proof fn lemma_reuse_after_release<T>(v: PoolView<T>, p: Ptr, reset: T)
    requires
        v.valid(),
        v.live.contains(p),
    ensures
        ({
            let w = v.release(p, reset);
            &&& w.allocate_result() == Ok::<Ptr, PoolError>(p)
            &&& w.allocate().valid()
            &&& w.allocate().live.last() == p
            &&& w.allocate().items[p.index as int] == reset
            &&& w.allocate().free == v.free
            &&& w.allocate().live.len() == v.live.len()
        }),
{
    let w = v.release(p, reset);
    lemma_release_valid(v, p, reset);
    lemma_allocate_valid(w);
    assert(v.in_range(p));
    assert(w.allocate().free =~= v.free);
}

/// Double release. Releasing a live slot succeeds; releasing it again is
/// refused with `DoubleRelease`, and the pool it is refused on is valid and
/// still serves as many allocations as it has free slots.
pub proof fn lemma_double_release<T>(v: PoolView<T>, p: Ptr, reset: T)
    requires
        v.valid(),
        v.live.contains(p),
    ensures
        v.free_result(p) is Ok,
        v.release(p, reset).free_result(p) == Err::<(), PoolError>(PoolError::DoubleRelease),
        v.release(p, reset).valid(),
        v.release(p, reset).allocate_n(v.release(p, reset).free.len()).live.len() == v.capacity(),
{
    let w = v.release(p, reset);
    lemma_release_valid(v, p, reset);
    lemma_allocate_n_valid(w, w.free.len());
}

/// Clearing is idempotent on the lists: a fresh pool that is cleared again
/// is the same fresh pool, whatever content the slots are reset to.
pub proof fn lemma_clear_idempotent<T>(items: Seq<T>, again: Seq<T>)
    requires
        again.len() == items.len(),
    ensures
        PoolView::fresh(again).live == PoolView::fresh(items).live,
        PoolView::fresh(again).free == PoolView::fresh(items).free,
        PoolView::fresh(PoolView::fresh(items).items) == PoolView::fresh(items),
{
}

/// Clearing a pool without live slots shows nothing: the live list stays
/// empty, the capacity stays, and the same slots are free.
pub proof fn lemma_clear_empty<T>(v: PoolView<T>, items: Seq<T>, p: Ptr)
    requires
        v.valid(),
        v.live.len() == 0,
        items.len() == v.capacity(),
    ensures
        PoolView::fresh(items).live == v.live,
        PoolView::fresh(items).capacity() == v.capacity(),
        PoolView::fresh(items).free.len() == v.free.len(),
        PoolView::fresh(items).free.contains(p) <==> v.free.contains(p),
{
    lemma_index_bound(v);
    lemma_fresh_valid(items);
    let w = PoolView::fresh(items);
    assert(w.live =~= v.live);
    assert(w.in_range(p) <==> v.in_range(p));
    if v.free.contains(p) {
        assert(w.in_range(p));
    }
    if w.free.contains(p) {
        assert(v.in_range(p));
        assert(!v.live.contains(p));
    }
}

/// After a clear the live list is empty, and on a pool with at least one
/// slot the next allocation succeeds and yields the first slot.
pub proof fn lemma_clear_then_allocate<T>(items: Seq<T>)
    requires
        items.len() <= usize::MAX,
    ensures
        PoolView::fresh(items).valid(),
        PoolView::fresh(items).live == Seq::<Ptr>::empty(),
        items.len() > 0 ==> PoolView::fresh(items).allocate_result() == Ok::<Ptr, PoolError>(Ptr { index: 0 }),
        items.len() == 0 ==> PoolView::fresh(items).allocate_result() == Err::<Ptr, PoolError>(
            PoolError::PoolExhausted,
        ),
{
    lemma_fresh_valid(items);
}

} // verus!
