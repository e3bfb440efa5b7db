//! The slot pool.

use crate::clear::Clear;
use crate::error::PoolError;
use crate::pool_model::lemma_allocate_valid;
use crate::pool_model::lemma_fresh_valid;
use crate::pool_model::lemma_release_valid;
use crate::pool_model::PoolView;
use crate::ptr::Ptr;
use crate::utils::decr;
use vstd::prelude::*;

verus! {

/// Slot contents with their links.
///
/// `next` links the free list from `first_free` and the live list from
/// `first`; `prev` links the live list backwards. The index one past the
/// last slot stands for "no slot". A free slot has no predecessor; the head
/// of the live list is its own predecessor.
struct Store<T> {
    items: Vec<T>,
    prev: Vec<usize>,
    next: Vec<usize>,
    first_free: usize,
    first: usize,
    last: usize,
    size: usize,
    live: Ghost<Seq<Ptr>>,
    free: Ghost<Seq<Ptr>>,
}

impl<T> Store<T> {
    spec fn view(&self) -> PoolView<T> {
        PoolView { items: self.items@, live: self.live@, free: self.free@ }
    }

    /// The index that follows `list[k]` on `list`, or `cap` at its end.
    spec fn after(list: Seq<Ptr>, k: int, cap: usize) -> usize {
        if k + 1 < list.len() {
            list[k + 1].index
        } else {
            cap
        }
    }

    /// The index of the head of `list`, or `cap` if it is empty.
    spec fn head(list: Seq<Ptr>, cap: usize) -> usize {
        if list.len() > 0 {
            list[0].index
        } else {
            cap
        }
    }

    /// Slot `free[k]` is linked to its successor on the free list.
    spec fn free_linked(prev: Seq<usize>, next: Seq<usize>, free: Seq<Ptr>, cap: usize, k: int) -> bool {
        let i = free[k].index as int;
        &&& next[i] == Self::after(free, k, cap)
        &&& prev[i] == cap
    }

    /// Slot `live[k]` is linked to both its neighbours on the live list.
    spec fn live_linked(prev: Seq<usize>, next: Seq<usize>, live: Seq<Ptr>, cap: usize, k: int) -> bool {
        let i = live[k].index as int;
        &&& next[i] == Self::after(live, k, cap)
        &&& prev[i] == (if k > 0 {
            live[k - 1].index
        } else {
            live[0].index
        })
    }

    /// The links spell out the two lists.
    spec fn linked(prev: Seq<usize>, next: Seq<usize>, live: Seq<Ptr>, free: Seq<Ptr>, cap: usize) -> bool {
        &&& prev.len() == cap
        &&& next.len() == cap
        &&& forall|k: int| 0 <= k < free.len() ==> #[trigger] Self::free_linked(prev, next, free, cap, k)
        &&& forall|k: int| 0 <= k < live.len() ==> #[trigger] Self::live_linked(prev, next, live, cap, k)
    }

    spec fn wf(&self) -> bool {
        let cap = self.items.len();
        let live = self.live@;
        let free = self.free@;
        &&& self.size == live.len()
        &&& self.view().valid()
        &&& self.first_free == Self::head(free, cap)
        &&& self.first == Self::head(live, cap)
        &&& live.len() > 0 ==> self.last == live[live.len() - 1].index
        &&& Self::linked(self.prev@, self.next@, live, free, cap as usize)
    }

    /// A store without slots.
    fn empty() -> (s: Self)
        ensures
            s.wf(),
            s.view().items.len() == 0,
    {
        let s = Store {
            items: Vec::new(),
            prev: Vec::new(),
            next: Vec::new(),
            first_free: 0,
            first: 0,
            last: 0,
            size: 0,
            live: Ghost(Seq::empty()),
            free: Ghost(Seq::empty()),
        };
        proof {
            lemma_fresh_valid(s.items@);
            assert(s.view() =~= PoolView::fresh(s.items@));
        }
        s
    }

    /// A store of `capacity` default-valued slots, all of them free.
    fn new(capacity: usize) -> (s: Self) where T: Default
        ensures
            s.wf(),
            s.view() == PoolView::fresh(s.view().items),
            s.view().items.len() == capacity,
            forall|i: int| 0 <= i < capacity ==> call_ensures(T::default, (), #[trigger] s.view().items[i]),
    {
        let mut items: Vec<T> = Vec::with_capacity(capacity);
        let mut prev: Vec<usize> = Vec::with_capacity(capacity);
        let mut next: Vec<usize> = Vec::with_capacity(capacity);
        let mut i: usize = 0;
        while i < capacity
            invariant
                i <= capacity,
                items.len() == i,
                prev.len() == i,
                next.len() == i,
                forall|j: int| 0 <= j < i ==> call_ensures(T::default, (), #[trigger] items[j]),
                forall|j: int| 0 <= j < i ==> #[trigger] prev[j] == capacity,
                forall|j: int| 0 <= j < i ==> #[trigger] next[j] == j + 1,
            decreases capacity - i,
        {
            items.push(T::default());
            prev.push(capacity);
            next.push(i + 1);
            i = i + 1;
        }
        let ghost free = PoolView::fresh(items@).free;
        let s = Store {
            items,
            prev,
            next,
            first_free: 0,
            first: capacity,
            last: 0,
            size: 0,
            live: Ghost(Seq::empty()),
            free: Ghost(free),
        };
        proof {
            lemma_fresh_valid(s.items@);
            assert(s.view() == PoolView::fresh(s.items@));
        }
        s
    }

    /// The number of slots.
    fn capacity(&self) -> (n: usize)
        requires
            self.wf(),
        ensures
            n == self.view().capacity(),
            self.view().valid(),
    {
        self.items.len()
    }

    /// The number of live slots.
    fn len(&self) -> (n: usize)
        requires
            self.wf(),
        ensures
            n == self.view().live.len(),
            self.view().valid(),
    {
        self.size
    }

    /// Linking the head of the free list behind the tail of the live list
    /// spells out the lists after an allocation.
    proof fn lemma_allocate_linked(prev: Seq<usize>, next: Seq<usize>, v: PoolView<T>, cap: usize)
        requires
            v.valid(),
            v.capacity() == cap,
            v.free.len() > 0,
            Self::linked(prev, next, v.live, v.free, cap),
        ensures
            ({
                let index = v.free[0].index;
                let tail = v.live[v.live.len() - 1].index;
                let prev2 = prev.update(index as int, if v.live.len() == 0 { index } else { tail });
                let next1 = if v.live.len() == 0 { next } else { next.update(tail as int, index) };
                let next2 = next1.update(index as int, cap);
                &&& index < cap
                &&& v.live.len() > 0 ==> tail < cap
                &&& Self::linked(prev2, next2, v.allocate().live, v.allocate().free, cap)
            }),
    {
        let p = v.free[0];
        let index = p.index;
        let tail = v.live[v.live.len() - 1].index;
        let prev2 = prev.update(index as int, if v.live.len() == 0 { index } else { tail });
        let next1 = if v.live.len() == 0 { next } else { next.update(tail as int, index) };
        let next2 = next1.update(index as int, cap);
        let live = v.allocate().live;
        let free = v.allocate().free;
        let n = v.live.len() as int;
        assert(v.free.contains(p));
        if n > 0 {
            assert(v.live.contains(v.live[n - 1]));
        }
        assert forall|k: int| 0 <= k < free.len() implies #[trigger] Self::free_linked(prev2, next2, free, cap, k) by {
            assert(free[k] == v.free[k + 1]);
            assert(Self::free_linked(prev, next, v.free, cap, k + 1));
            assert(v.free.contains(v.free[k + 1]));
            assert(v.free[k + 1] != v.free[0]);
        }
        assert forall|k: int| 0 <= k < live.len() implies #[trigger] Self::live_linked(prev2, next2, live, cap, k) by {
            if k < n {
                assert(live[k] == v.live[k]);
                assert(Self::live_linked(prev, next, v.live, cap, k));
                assert(v.live.contains(v.live[k]));
                if k + 1 < n {
                    assert(v.live[k] != v.live[n - 1]);
                }
            } else {
                assert(live[k] == p);
            }
        }
    }

    /// Moves the head of the free list to the tail of the live list.
    fn allocate(&mut self) -> (r: Result<Ptr, PoolError>)
        requires
            old(self).wf(),
        ensures
            final(self).wf(),
            old(self).view().valid(),
            r == old(self).view().allocate_result(),
            r is Ok ==> final(self).view() == old(self).view().allocate(),
            r is Err ==> final(self).view() == old(self).view(),
    {
        let cap = self.items.len();
        if self.size >= cap {
            return Err(PoolError::PoolExhausted);
        }
        let index = self.first_free;
        let ghost v = self.view();
        proof {
            lemma_allocate_valid(v);
            Self::lemma_allocate_linked(self.prev@, self.next@, v, cap);
            assert(Self::free_linked(self.prev@, self.next@, v.free, cap, 0));
        }
        self.first_free = self.next[index];
        if self.size == 0 {
            self.first = index;
            self.prev[index] = index;
        } else {
            let tail = self.last;
            self.next[tail] = index;
            self.prev[index] = tail;
        }
        self.next[index] = cap;
        self.last = index;
        self.size = self.size + 1;
        self.live = Ghost(v.allocate().live);
        self.free = Ghost(v.allocate().free);
        Ok(Ptr { index })
    }

    /// Unlinking a live slot and pushing it on the free list spells out the
    /// lists after its release.
    proof fn lemma_release_linked(prev: Seq<usize>, next: Seq<usize>, v: PoolView<T>, cap: usize, p: Ptr)
        requires
            v.valid(),
            v.capacity() == cap,
            v.live.contains(p),
            Self::linked(prev, next, v.live, v.free, cap),
        ensures
            ({
                let i = p.index;
                let pv = prev[i as int];
                let n = next[i as int];
                let next1 = if pv == i { next } else { next.update(pv as int, n) };
                let prev1 = if n >= cap { prev } else { prev.update(n as int, if pv == i { n } else { pv }) };
                let prev2 = prev1.update(i as int, cap);
                let next2 = next1.update(i as int, Self::head(v.free, cap));
                let w = v.release(p, v.items[i as int]);
                &&& i < cap
                &&& pv < cap
                &&& n <= cap
                &&& Self::linked(prev2, next2, w.live, w.free, cap)
                &&& Self::head(w.live, cap) == (if pv == i { n } else { Self::head(v.live, cap) })
                &&& w.live.len() > 0 ==> w.live[w.live.len() - 1].index == (if n >= cap { pv } else { v.live[v.live.len() - 1].index })
            }),
    {
        let i = p.index;
        let pv = prev[i as int];
        let n = next[i as int];
        let next1 = if pv == i { next } else { next.update(pv as int, n) };
        let prev1 = if n >= cap { prev } else { prev.update(n as int, if pv == i { n } else { pv }) };
        let prev2 = prev1.update(i as int, cap);
        let next2 = next1.update(i as int, Self::head(v.free, cap));
        let w = v.release(p, v.items[i as int]);
        let live = v.live;
        let len = live.len() as int;
        let k = live.index_of(p);
        lemma_release_valid(v, p, v.items[i as int]);
        assert(0 <= k < len && live[k] == p);
        assert(Self::live_linked(prev, next, live, cap, k));
        if k > 0 {
            assert(live.contains(live[k - 1]));
            assert(live[k - 1] != live[k]);
        }
        if k + 1 < len {
            assert(live.contains(live[k + 1]));
            assert(live[k + 1] != live[k]);
        }
        assert(pv == i <==> k == 0);
        assert(n >= cap <==> k + 1 == len);
        assert forall|j: int| 0 <= j < w.live.len() implies #[trigger] w.live[j] == live[if j < k { j } else { j + 1 }] by {}
        assert forall|j: int| 0 <= j < w.live.len() implies #[trigger] Self::live_linked(prev2, next2, w.live, cap, j) by {
            let jj = if j < k { j } else { j + 1 };
            assert(w.live[j] == live[jj]);
            assert(Self::live_linked(prev, next, live, cap, jj));
            assert(live.contains(live[jj]));
            assert(live[jj] != live[k]);
            if j + 1 < w.live.len() {
                assert(w.live[j + 1] == live[if j + 1 < k { j + 1 } else { j + 2 }]);
            }
            if j > 0 {
                assert(w.live[j - 1] == live[if j - 1 < k { j - 1 } else { j }]);
            }
            if k > 0 && jj != k - 1 {
                assert(live[jj] != live[k - 1]);
            }
            if k + 1 < len && jj != k + 1 {
                assert(live[jj] != live[k + 1]);
            }
        }
        assert forall|j: int| 0 <= j < w.free.len() implies #[trigger] Self::free_linked(prev2, next2, w.free, cap, j) by {
            if j > 0 {
                let q = v.free[j - 1];
                assert(w.free[j] == q);
                assert(Self::free_linked(prev, next, v.free, cap, j - 1));
                assert(v.free.contains(q));
                assert(!live.contains(q));
                if j + 1 < w.free.len() {
                    assert(w.free[j + 1] == v.free[j]);
                }
            } else {
                if w.free.len() > 1 {
                    assert(w.free[1] == v.free[0]);
                }
            }
        }
        if w.live.len() > 0 {
            assert(w.live[0] == live[if 0 < k { 0int } else { 1int }]);
            let t = w.live.len() - 1;
            assert(w.live[t] == live[if t < k { t } else { t + 1 }]);
        }
    }

    /// Releases the slot that `p` names: unlinks it from the live list, resets
    /// its content and makes it the head of the free list.
    fn free(&mut self, p: Ptr) -> (r: Result<(), PoolError>) where T: Clear
        requires
            old(self).wf(),
        ensures
            final(self).wf(),
            old(self).view().valid(),
            r == old(self).view().free_result(p),
            r is Ok ==> final(self).view().items[p.index as int].is_clear() && final(self).view()
                == old(self).view().release(p, final(self).view().items[p.index as int]),
            r is Err ==> final(self).view() == old(self).view(),
    {
        let cap = self.items.len();
        let i = p.index;
        if i >= cap {
            return Err(PoolError::InvalidReference);
        }
        if !self.is_live(i) {
            return Err(PoolError::DoubleRelease);
        }
        let ghost v = self.view();
        let before = self.prev[i];
        let after = self.next[i];
        proof {
            Self::lemma_release_linked(self.prev@, self.next@, v, cap, p);
        }
        if before == i {
            self.first = after;
        } else {
            self.next[before] = after;
        }
        if after >= cap {
            self.last = before;
        } else {
            self.prev[after] = if before == i {
                after
            } else {
                before
            };
        }
        self.items[i].clear();
        self.prev[i] = cap;
        self.next[i] = self.first_free;
        self.first_free = i;
        decr(&mut self.size);
        let ghost w = v.release(p, self.items@[i as int]);
        self.live = Ghost(w.live);
        self.free = Ghost(w.free);
        proof {
            lemma_release_valid(v, p, self.items@[i as int]);
            assert(self.view() =~= w);
        }
        Ok(())
    }

    /// Whether the slot at `index` is live.
    fn is_live(&self, index: usize) -> (b: bool)
        requires
            self.wf(),
        ensures
            b == self.view().live.contains(Ptr { index }),
            b ==> index < self.view().capacity(),
            self.view().valid(),
    {
        let cap = self.items.len();
        if index >= cap {
            return false;
        }
        let b = self.prev[index] < cap;
        proof {
            let p = Ptr { index };
            assert(self.view().in_range(p));
            if self.live@.contains(p) {
                let k = self.live@.index_of(p);
                assert(Self::live_linked(self.prev@, self.next@, self.live@, cap, k));
                assert(self.live@.contains(self.live@[if k > 0 { k - 1 } else { 0 }]));
            } else {
                let k = self.free@.index_of(p);
                assert(Self::free_linked(self.prev@, self.next@, self.free@, cap, k));
            }
        }
        b
    }

    /// Resets every slot and rebuilds the free list in index order.
    fn clear(&mut self) where T: Clear
        requires
            old(self).wf(),
        ensures
            final(self).wf(),
            final(self).view() == PoolView::fresh(final(self).view().items),
            final(self).view().items.len() == old(self).view().items.len(),
            forall|i: int| 0 <= i < final(self).view().items.len() ==> (#[trigger] final(self).view().items[i]).is_clear(),
    {
        let cap = self.items.len();
        let mut i: usize = 0;
        while i < cap
            invariant
                i <= cap,
                self.items.len() == cap,
                self.prev.len() == cap,
                self.next.len() == cap,
                forall|j: int| 0 <= j < i ==> (#[trigger] self.items[j]).is_clear(),
                forall|j: int| 0 <= j < i ==> #[trigger] self.prev[j] == cap,
                forall|j: int| 0 <= j < i ==> #[trigger] self.next[j] == j + 1,
            decreases cap - i,
        {
            self.items[i].clear();
            self.prev[i] = cap;
            self.next[i] = i + 1;
            i = i + 1;
        }
        self.first_free = 0;
        self.first = cap;
        self.last = 0;
        self.size = 0;
        self.live = Ghost(Seq::empty());
        self.free = Ghost(PoolView::fresh(self.items@).free);
        proof {
            lemma_fresh_valid(self.items@);
        }
    }

    /// The content of the slot that `p` names, if the slot is live.
    fn get(&self, p: Ptr) -> (r: Option<&T>)
        requires
            self.wf(),
        ensures
            self.view().valid(),
            match r {
                Some(item) => self.view().live.contains(p) && *item == self.view().items[p.index as int],
                None => !self.view().live.contains(p),
            },
    {
        if self.is_live(p.index) {
            Some(&self.items[p.index])
        } else {
            None
        }
    }

    /// The content of the slot that `p` names, for writing, if the slot is live.
    fn get_mut(&mut self, p: Ptr) -> (r: Option<&mut T>)
        requires
            old(self).wf(),
        ensures
            old(self).view().valid(),
            final(self).wf(),
            match r {
                Some(item) => {
                    &&& old(self).view().live.contains(p)
                    &&& *item == old(self).view().items[p.index as int]
                    &&& final(self).view() == (PoolView {
                        items: old(self).view().items.update(p.index as int, *final(item)),
                        ..old(self).view()
                    })
                },
                None => !old(self).view().live.contains(p) && final(self).view() == old(self).view(),
            },
    {
        if self.is_live(p.index) {
            Some(&mut self.items[p.index])
        } else {
            None
        }
    }

    /// The oldest live slot, if any slot is live.
    fn first_live(&self) -> (index: usize)
        requires
            self.wf(),
        ensures
            self.view().valid(),
            self.view().live.len() > 0 ==> index == self.view().live[0].index,
            self.view().live.len() == 0 ==> index == self.view().capacity(),
    {
        self.first
    }

    /// The live slot that was allocated next after the live slot at `index`,
    /// or the capacity if that slot is the newest.
    fn next_live(&self, index: usize) -> (following: usize)
        requires
            self.wf(),
            self.view().live.contains(Ptr { index }),
        ensures
            ({
                let live = self.view().live;
                let k = live.index_of(Ptr { index });
                &&& 0 <= k < live.len()
                &&& live[k] == Ptr { index }
                &&& k + 1 < live.len() ==> following == live[k + 1].index
                &&& k + 1 == live.len() ==> following == self.view().capacity()
            }),
    {
        proof {
            let k = self.live@.index_of(Ptr { index });
            assert(Self::live_linked(self.prev@, self.next@, self.live@, self.items.len(), k));
            assert(self.view().in_range(Ptr { index }));
        }
        self.next[index]
    }

    /// The content of the live slot at `index`.
    fn item(&self, index: usize) -> (r: &T)
        requires
            self.wf(),
            self.view().live.contains(Ptr { index }),
        ensures
            *r == self.view().items[index as int],
    {
        proof {
            assert(self.view().in_range(Ptr { index }));
        }
        &self.items[index]
    }
}

/// A pool of a fixed number of slots.
///
/// A slot is either free or live. [`CellPool::allocate`] makes the head of
/// the free list live and hands out its handle, [`CellPool::free`] takes a
/// live slot back and resets its content, and [`CellPool::iter`] walks the
/// live slots from the oldest allocation to the newest. The slots are never
/// moved, so a handle stays good until its slot is released.
pub struct CellPool<T> {
    store: Store<T>,
}

impl<T> View for CellPool<T> {
    type V = PoolView<T>;

    closed spec fn view(&self) -> PoolView<T> {
        self.store.view()
    }
}

impl<T> CellPool<T> {
    #[verifier::type_invariant]
    spec fn inv(&self) -> bool {
        self.store.wf()
    }

    /// Makes the first free slot live and returns its handle. Fails with
    /// `PoolExhausted` when every slot is live, and then changes nothing.
    pub fn allocate(&mut self) -> (r: Result<Ptr, PoolError>)
        ensures
            old(self)@.valid(),
            final(self)@.valid(),
            r == old(self)@.allocate_result(),
            r is Ok <==> old(self)@.live.len() < old(self)@.capacity(),
            r is Ok ==> final(self)@ == old(self)@.allocate(),
            r is Err ==> final(self)@ == old(self)@,
    {
        proof {
            use_type_invariant(&*self);
        }
        let mut store = Store::empty();
        std::mem::swap(&mut store, &mut self.store);
        let r = store.allocate();
        proof {
            if r is Ok {
                lemma_allocate_valid(old(self)@);
            }
        }
        self.store = store;
        r
    }

    /// Walks the live slots in allocation order.
    pub fn iter(&self) -> (it: PoolIter<'_, T>)
        ensures
            self@.valid(),
            it.pool_view() == self@,
            it.remaining() == self@.live,
    {
        proof {
            use_type_invariant(self);
        }
        let index = self.store.first_live();
        let it = PoolIter { pool: self, index };
        proof {
            let live = self@.live;
            if live.len() > 0 {
                assert(live[0] == Ptr { index });
                assert(live.contains(Ptr { index }));
                assert(live.index_of(Ptr { index }) == 0);
                assert(it.remaining() =~= live);
            } else {
                assert(!self@.in_range(Ptr { index }));
                assert(it.remaining() =~= live);
            }
        }
        it
    }

    /// The handles of the live slots in allocation order.
    pub fn handles(&self) -> (live: Vec<Ptr>)
        ensures
            self@.valid(),
            live@ == self@.live,
    {
        let mut live: Vec<Ptr> = Vec::new();
        let mut it = self.iter();
        loop
            invariant
                it.pool_view() == self@,
                live@ + it.remaining() == self@.live,
            ensures
                live@ == self@.live,
            decreases it.remaining().len(),
        {
            match it.next() {
                Some((p, _)) => {
                    live.push(p);
                },
                None => {
                    break ;
                },
            }
        }
        live
    }

    /// The number of slots.
    pub fn capacity(&self) -> (n: usize)
        ensures
            self@.valid(),
            n == self@.capacity(),
    {
        proof {
            use_type_invariant(self);
        }
        self.store.capacity()
    }

    /// The number of live slots.
    pub fn len(&self) -> (n: usize)
        ensures
            self@.valid(),
            n == self@.live.len(),
    {
        proof {
            use_type_invariant(self);
        }
        self.store.len()
    }

    /// Whether the slot that `p` names is live.
    pub fn is_live(&self, p: Ptr) -> (b: bool)
        ensures
            self@.valid(),
            b == self@.live.contains(p),
    {
        proof {
            use_type_invariant(self);
        }
        self.store.is_live(p.index)
    }

    /// The content of the slot that `p` names, or `None` if the slot is not live.
    pub fn get(&self, p: Ptr) -> (r: Option<&T>)
        ensures
            self@.valid(),
            match r {
                Some(item) => self@.live.contains(p) && *item == self@.items[p.index as int],
                None => !self@.live.contains(p),
            },
    {
        proof {
            use_type_invariant(self);
        }
        self.store.get(p)
    }

    /// The content of the slot that `p` names, for writing, or `None` if the
    /// slot is not live. Only the content of that slot can change.
    pub fn get_mut(&mut self, p: Ptr) -> (r: Option<&mut T>)
        ensures
            old(self)@.valid(),
            match r {
                Some(item) => {
                    &&& old(self)@.live.contains(p)
                    &&& *item == old(self)@.items[p.index as int]
                    &&& final(self)@ == (PoolView {
                        items: old(self)@.items.update(p.index as int, *final(item)),
                        ..old(self)@
                    })
                },
                None => !old(self)@.live.contains(p) && final(self)@ == old(self)@,
            },
    {
        proof {
            use_type_invariant(&*self);
        }
        if self.store.is_live(p.index) {
            Some(&mut self.store.items[p.index])
        } else {
            None
        }
    }
}

impl<T: Default> CellPool<T> {
    /// A pool of `capacity` slots, each holding a default value, none of
    /// them live, with the free list in index order.
    pub fn new(capacity: usize) -> (pool: Self)
        ensures
            pool@.valid(),
            pool@ == PoolView::fresh(pool@.items),
            pool@.capacity() == capacity,
            forall|i: int| 0 <= i < capacity ==> call_ensures(T::default, (), #[trigger] pool@.items[i]),
    {
        let store = Store::new(capacity);
        proof {
            lemma_fresh_valid(store.view().items);
        }
        CellPool { store }
    }
}

impl<T: Clear> CellPool<T> {
    /// Releases the slot that `p` names. The slot leaves the live list, its
    /// content is reset, and it becomes the head of the free list.
    ///
    /// Fails with `InvalidReference` when `p` names no slot of this pool and
    /// with `DoubleRelease` when the slot is not live; a failed release
    /// changes nothing.
    pub fn free(&mut self, p: Ptr) -> (r: Result<(), PoolError>)
        ensures
            old(self)@.valid(),
            final(self)@.valid(),
            r == old(self)@.free_result(p),
            r is Ok ==> final(self)@.items[p.index as int].is_clear() && final(self)@ == old(self)@.release(
                p,
                final(self)@.items[p.index as int],
            ),
            r is Err ==> final(self)@ == old(self)@,
    {
        proof {
            use_type_invariant(&*self);
        }
        let mut store = Store::empty();
        std::mem::swap(&mut store, &mut self.store);
        let r = store.free(p);
        proof {
            if r is Ok {
                lemma_release_valid(old(self)@, p, store.view().items[p.index as int]);
            }
        }
        self.store = store;
        r
    }
}

impl<T: Clear> Clear for CellPool<T> {
    /// No slot is live and every slot holds a reset value.
    open spec fn is_clear(&self) -> bool {
        &&& self@.live.len() == 0
        &&& forall|i: int| 0 <= i < self@.items.len() ==> (#[trigger] self@.items[i]).is_clear()
    }

    /// Resets every slot and returns the pool to its state after
    /// construction: no slot is live and the free list is in index order.
    fn clear(&mut self)
        ensures
            final(self)@.valid(),
            final(self)@ == PoolView::fresh(final(self)@.items),
            final(self)@.capacity() == old(self)@.capacity(),
    {
        proof {
            use_type_invariant(&*self);
        }
        let mut store = Store::empty();
        std::mem::swap(&mut store, &mut self.store);
        store.clear();
        proof {
            lemma_fresh_valid(store.view().items);
        }
        self.store = store;
    }
}

/// A walk over the live slots of a pool, from the oldest to the newest.
pub struct PoolIter<'t, T> {
    pool: &'t CellPool<T>,
    index: usize,
}

impl<'t, T> PoolIter<'t, T> {
    #[verifier::type_invariant]
    spec fn inv(&self) -> bool {
        &&& self.pool.store.wf()
        &&& self.index == self.pool@.capacity() || self.pool@.live.contains(Ptr { index: self.index })
    }

    /// The pool that is walked.
    pub closed spec fn pool_view(&self) -> PoolView<T> {
        self.pool@
    }

    /// The live slots that the walk has yet to yield, in order.
    pub closed spec fn remaining(&self) -> Seq<Ptr> {
        let live = self.pool@.live;
        let p = Ptr { index: self.index };
        if live.contains(p) {
            live.subrange(live.index_of(p), live.len() as int)
        } else {
            Seq::empty()
        }
    }

    /// Yields the next live slot, its handle and its content, or `None` once
    /// every live slot was yielded.
    pub fn next(&mut self) -> (r: Option<(Ptr, &'t T)>)
        ensures
            final(self).pool_view() == old(self).pool_view(),
            match r {
                Some((p, item)) => {
                    &&& old(self).remaining().len() > 0
                    &&& p == old(self).remaining()[0]
                    &&& *item == old(self).pool_view().items[p.index as int]
                    &&& final(self).remaining() == old(self).remaining().drop_first()
                },
                None => old(self).remaining().len() == 0 && final(self).remaining().len() == 0,
            },
    {
        proof {
            use_type_invariant(&*self);
        }
        let pool = self.pool;
        let index = self.index;
        if index >= pool.store.capacity() {
            proof {
                assert(!pool@.in_range(Ptr { index }));
            }
            None
        } else {
            let following = pool.store.next_live(index);
            let item = pool.store.item(index);
            proof {
                let live = pool@.live;
                let k = live.index_of(Ptr { index });
                if k + 1 < live.len() {
                    assert(live[k + 1] == Ptr { index: following });
                    assert(live.contains(Ptr { index: following }));
                    assert(live.index_of(Ptr { index: following }) == k + 1);
                    assert(live.subrange(k + 1, live.len() as int) =~= live.subrange(k, live.len() as int).drop_first());
                } else {
                    assert(!pool@.in_range(Ptr { index: following }));
                    assert(live.subrange(k, live.len() as int).drop_first() =~= Seq::<Ptr>::empty());
                }
            }
            self.index = following;
            Some((Ptr { index }, item))
        }
    }
}

} // verus!
