//! A bounded ring buffer that drops its oldest item when full.

use vstd::arithmetic::div_mod::lemma_add_mod_noop_right;
use vstd::arithmetic::div_mod::lemma_mod_add_multiples_vanish;
use vstd::arithmetic::div_mod::lemma_mod_bound;
use vstd::arithmetic::div_mod::lemma_small_mod;
use vstd::prelude::*;

verus! {

/// The slot that follows `i` slots after the start of a ring of `capacity`
/// slots, for `i` below twice the capacity.
pub open spec fn wrap(i: int, capacity: int) -> int {
    if i < capacity {
        i
    } else {
        i - capacity
    }
}

/// For an index below twice the capacity, wrapping is the remainder.
pub proof fn lemma_wrap_is_mod(i: int, capacity: int)
    requires
        0 <= i < 2 * capacity,
    ensures
        i % capacity == wrap(i, capacity),
{
    if i < capacity {
        lemma_small_mod(i as nat, capacity as nat);
    } else {
        lemma_small_mod((i - capacity) as nat, capacity as nat);
        lemma_mod_add_multiples_vanish(i - capacity, capacity);
    }
}

/// The items among the first `upto` that a request for a range starting at
/// `start` picks from a ring of `capacity` slots holding `items`: the item
/// at offset `(start + i) % capacity` for each `i`, where there is one.
pub open spec fn picked_upto<T>(items: Seq<T>, capacity: int, start: int, upto: int) -> Seq<T>
    decreases upto,
{
    if upto <= 0 || capacity <= 0 {
        Seq::empty()
    } else {
        let before = picked_upto(items, capacity, start, upto - 1);
        let at = (start + upto - 1) % capacity;
        if at < items.len() {
            before.push(items[at])
        } else {
            before
        }
    }
}

/// The smaller of two numbers.
pub open spec fn spec_min(a: int, b: int) -> int {
    if a <= b {
        a
    } else {
        b
    }
}

/// A vector of `n` empty slots.
fn empty_slots<T>(n: usize) -> (v: Vec<Option<T>>)
    ensures
        v@.len() == n,
        forall|i: int| 0 <= i < n ==> (#[trigger] v@[i]) is None,
{
    let mut v: Vec<Option<T>> = Vec::new();
    let mut i: usize = 0;
    while i < n
        invariant
            i <= n,
            v@.len() == i,
            forall|j: int| 0 <= j < i ==> (#[trigger] v@[j]) is None,
        decreases n - i,
    {
        v.push(None);
        i += 1;
    }
    v
}

/// The slot after `i` in a ring of `capacity` slots.
fn next_slot(i: usize, capacity: usize) -> (r: usize)
    requires
        i < capacity,
    ensures
        r == wrap(i + 1, capacity as int),
        r < capacity,
{
    proof {
        lemma_wrap_is_mod(i + 1, capacity as int);
    }
    (i + 1) % capacity
}

/// A ring buffer with a fixed number of slots. Items leave in the order in
/// which they came; when the buffer is full, a new item takes the place of
/// the oldest one, which is counted as dropped.
pub struct CircularBuffer<T> {
    data: Vec<Option<T>>,
    head: usize,
    tail: usize,
    capacity: usize,
    size: usize,
    dropped_count: u64,
    total_inserted: u64,
}

impl<T> View for CircularBuffer<T> {
    type V = Seq<T>;

    /// The items held, oldest first.
    closed spec fn view(&self) -> Seq<T> {
        Seq::new(
            self.size as nat,
            |i: int| self.data@[wrap(self.tail + i, self.capacity as int)]->0,
        )
    }
}

impl<T: Clone> CircularBuffer<T> {
    /// Consistency of the representation. Every buffer that this module
    /// hands out is well formed.
    pub closed spec fn wf(&self) -> bool {
        &&& self.data@.len() == self.capacity
        &&& self.size <= self.capacity
        &&& self.capacity == 0 ==> self.head == 0 && self.tail == 0
        &&& self.capacity > 0 ==> self.tail < self.capacity && self.head == wrap(
            self.tail + self.size,
            self.capacity as int,
        )
        &&& forall|i: int|
            0 <= i < self.size ==> (#[trigger] self.data@[wrap(
                self.tail + i,
                self.capacity as int,
            )]) is Some
        &&& forall|i: int|
            self.size <= i < self.capacity ==> (#[trigger] self.data@[wrap(
                self.tail + i,
                self.capacity as int,
            )]) is None
        &&& self.dropped_count <= self.total_inserted
    }

    pub closed spec fn spec_capacity(&self) -> usize {
        self.capacity
    }

    pub closed spec fn spec_dropped_count(&self) -> u64 {
        self.dropped_count
    }

    pub closed spec fn spec_total_inserted(&self) -> u64 {
        self.total_inserted
    }

    /// A well-formed buffer holds no more items than it has slots, and has
    /// dropped no more items than it took.
    pub proof fn lemma_bounds(&self)
        requires
            self.wf(),
        ensures
            self@.len() <= self.spec_capacity(),
            self.spec_dropped_count() <= self.spec_total_inserted(),
    {
    }

    /// An empty buffer with `capacity` slots.
    pub fn new(capacity: usize) -> (b: Self)
        ensures
            b.wf(),
            b@ == Seq::<T>::empty(),
            b.spec_capacity() == capacity,
            b.spec_dropped_count() == 0,
            b.spec_total_inserted() == 0,
    {
        let b = CircularBuffer {
            data: empty_slots(capacity),
            head: 0,
            tail: 0,
            capacity,
            size: 0,
            dropped_count: 0,
            total_inserted: 0,
        };
        assert(b@ =~= Seq::<T>::empty());
        b
    }

    /// Adds `item` as the newest. A full buffer drops its oldest item to make
    /// room and counts it.
    pub fn push(&mut self, item: T)
        requires
            old(self).wf(),
            old(self).spec_capacity() > 0,
            old(self).spec_total_inserted() < u64::MAX,
        ensures
            final(self).wf(),
            final(self).spec_capacity() == old(self).spec_capacity(),
            final(self).spec_total_inserted() == old(self).spec_total_inserted() + 1,
            old(self)@.len() == old(self).spec_capacity() ==> final(self)@ == old(self)@.drop_first().push(item) && final(self).spec_dropped_count() == old(self).spec_dropped_count() + 1,
            old(self)@.len() < old(self).spec_capacity() ==> final(self)@ == old(self)@.push(item)
                && final(self).spec_dropped_count() == old(self).spec_dropped_count(),
    {
        let ghost before = *self;
        let ghost cap = self.capacity as int;
        if self.size == self.capacity {
            self.tail = next_slot(self.tail, self.capacity);
            self.dropped_count += 1;
        } else {
            self.size += 1;
        }
        self.data[self.head] = Some(item);
        self.head = next_slot(self.head, self.capacity);
        self.total_inserted += 1;
        proof {
            if before.size == before.capacity {
                assert forall|i: int| 0 <= i < self.size implies (#[trigger] self.data@[wrap(
                    self.tail + i,
                    cap,
                )]) is Some by {
                    if i < self.size - 1 {
                        assert(before.data@[wrap(before.tail + (i + 1), cap)] is Some);
                    }
                }
                assert(self@ =~= before@.drop_first().push(item)) by {
                    assert forall|i: int| 0 <= i < self.size implies self@[i]
                        == before@.drop_first().push(item)[i] by {
                        if i < self.size - 1 {
                            assert(wrap(self.tail + i, cap) == wrap(before.tail + (i + 1), cap));
                        }
                    }
                }
            } else {
                assert forall|i: int| 0 <= i < self.size implies (#[trigger] self.data@[wrap(
                    self.tail + i,
                    cap,
                )]) is Some by {
                    if i < self.size - 1 {
                        assert(before.data@[wrap(before.tail + i, cap)] is Some);
                    }
                }
                assert forall|i: int| self.size <= i < self.capacity implies (
                #[trigger] self.data@[wrap(self.tail + i, cap)]) is None by {
                    assert(before.data@[wrap(before.tail + i, cap)] is None);
                }
                assert(self@ =~= before@.push(item));
            }
        }
    }

    /// Takes out the oldest item, if there is one.
    pub fn pop(&mut self) -> (r: Option<T>)
        requires
            old(self).wf(),
        ensures
            final(self).wf(),
            final(self).spec_capacity() == old(self).spec_capacity(),
            final(self).spec_dropped_count() == old(self).spec_dropped_count(),
            final(self).spec_total_inserted() == old(self).spec_total_inserted(),
            old(self)@.len() == 0 ==> r is None && final(self)@ == old(self)@,
            old(self)@.len() > 0 ==> r == Some(old(self)@[0]) && final(self)@ == old(self)@.drop_first(),
    {
        if self.size == 0 {
            return None;
        }
        let ghost before = *self;
        let ghost cap = self.capacity as int;
        let item = self.data[self.tail].take();
        self.tail = next_slot(self.tail, self.capacity);
        self.size -= 1;
        proof {
            assert(before.data@[wrap(before.tail + 0, cap)] is Some);
            assert forall|i: int| 0 <= i < self.size implies (#[trigger] self.data@[wrap(
                self.tail + i,
                cap,
            )]) is Some by {
                assert(before.data@[wrap(before.tail + (i + 1), cap)] is Some);
            }
            assert forall|i: int| self.size <= i < self.capacity implies (#[trigger] self.data@[wrap(
                self.tail + i,
                cap,
            )]) is None by {
                if i < self.capacity - 1 {
                    assert(before.data@[wrap(before.tail + (i + 1), cap)] is None);
                }
            }
            assert(self@ =~= before@.drop_first()) by {
                assert forall|i: int| 0 <= i < self.size implies self@[i]
                    == before@.drop_first()[i] by {
                    assert(wrap(self.tail + i, cap) == wrap(before.tail + (i + 1), cap));
                }
            }
        }
        item
    }

    /// The oldest item, if there is one.
    pub fn peek(&self) -> (r: Option<&T>)
        requires
            self.wf(),
        ensures
            self@.len() == 0 ==> r is None,
            self@.len() > 0 ==> r == Some(&self@[0]),
    {
        if self.size == 0 {
            return None;
        }
        assert(self.data@[wrap(self.tail + 0, self.capacity as int)] is Some);
        self.data[self.tail].as_ref()
    }

    /// Copies of up to `count` items, never more than the buffer holds,
    /// starting `start` places after the oldest and going round the ring:
    /// the `i`-th candidate is the item at offset `(start + i) % capacity`,
    /// and offsets at which the buffer holds nothing are passed over.
    pub fn get_range(&self, start: usize, count: usize) -> (r: Vec<T>)
        requires
            self.wf(),
        ensures
            r@.len() == picked_upto(
                self@,
                self.spec_capacity() as int,
                start as int,
                spec_min(count as int, self@.len() as int),
            ).len(),
            forall|k: int|
                0 <= k < r@.len() ==> cloned(
                    picked_upto(
                        self@,
                        self.spec_capacity() as int,
                        start as int,
                        spec_min(count as int, self@.len() as int),
                    )[k],
                    #[trigger] r@[k],
                ),
    {
        let mut result: Vec<T> = Vec::new();
        let actual_count: usize = if count < self.size {
            count
        } else {
            self.size
        };
        let ghost cap = self.capacity as int;
        let mut i: usize = 0;
        while i < actual_count
            invariant
                self.wf(),
                i <= actual_count <= self.size,
                cap == self.capacity,
                result@.len() == picked_upto(self@, cap, start as int, i as int).len(),
                forall|k: int|
                    0 <= k < result@.len() ==> cloned(
                        picked_upto(self@, cap, start as int, i as int)[k],
                        #[trigger] result@[k],
                    ),
            decreases actual_count - i,
        {
            let sum: u128 = self.tail as u128 + start as u128 + i as u128;
            let index: usize = (sum % (self.capacity as u128)) as usize;
            proof {
                let offset = (start + i) % cap;
                lemma_mod_bound(start + i, cap);
                lemma_add_mod_noop_right(self.tail as int, start + i, cap);
                lemma_wrap_is_mod(self.tail + offset, cap);
                assert(index == wrap(self.tail + offset, cap));
                if offset < self.size {
                    assert(self.data@[wrap(self.tail + offset, cap)] is Some);
                    assert(self@[offset] == self.data@[index as int]->0);
                } else {
                    assert(self.data@[wrap(self.tail + offset, cap)] is None);
                }
            }
            match &self.data[index] {
                Some(item) => {
                    result.push(item.clone());
                },
                None => {},
            }
            i += 1;
        }
        result
    }

    /// Number of items held.
    pub fn len(&self) -> (n: usize)
        requires
            self.wf(),
        ensures
            n == self@.len(),
    {
        self.size
    }

    /// Number of slots.
    #[verifier::when_used_as_spec(spec_capacity)]
    pub fn capacity(&self) -> (n: usize)
        ensures
            n == self.spec_capacity(),
    {
        self.capacity
    }

    /// Whether the buffer holds nothing.
    pub fn is_empty(&self) -> (r: bool)
        requires
            self.wf(),
        ensures
            r == (self@.len() == 0),
    {
        self.size == 0
    }

    /// Whether every slot is taken.
    pub fn is_full(&self) -> (r: bool)
        requires
            self.wf(),
        ensures
            r == (self@.len() == self.spec_capacity()),
    {
        self.size == self.capacity
    }

    /// Number of items that were dropped to make room.
    #[verifier::when_used_as_spec(spec_dropped_count)]
    pub fn dropped_count(&self) -> (n: u64)
        ensures
            n == self.spec_dropped_count(),
    {
        self.dropped_count
    }

    /// Number of items that were ever added.
    #[verifier::when_used_as_spec(spec_total_inserted)]
    pub fn total_inserted(&self) -> (n: u64)
        ensures
            n == self.spec_total_inserted(),
    {
        self.total_inserted
    }

    /// Empties the buffer. The counters stay.
    pub fn clear(&mut self)
        requires
            old(self).wf(),
        ensures
            final(self).wf(),
            final(self)@ == Seq::<T>::empty(),
            final(self).spec_capacity() == old(self).spec_capacity(),
            final(self).spec_dropped_count() == old(self).spec_dropped_count(),
            final(self).spec_total_inserted() == old(self).spec_total_inserted(),
    {
        let mut i: usize = 0;
        while i < self.data.len()
            invariant
                i <= self.data@.len(),
                self.data@.len() == old(self).data@.len(),
                self.capacity == old(self).capacity,
                self.dropped_count == old(self).dropped_count,
                self.total_inserted == old(self).total_inserted,
                forall|j: int| 0 <= j < i ==> (#[trigger] self.data@[j]) is None,
            decreases self.data@.len() - i,
        {
            self.data[i] = None;
            i += 1;
        }
        self.head = 0;
        self.tail = 0;
        self.size = 0;
        assert(self@ =~= Seq::<T>::empty());
    }

    /// Takes out every item, oldest first.
    pub fn drain_all(&mut self) -> (r: Vec<T>)
        requires
            old(self).wf(),
        ensures
            final(self).wf(),
            r@ == old(self)@,
            final(self)@ == Seq::<T>::empty(),
            final(self).spec_capacity() == old(self).spec_capacity(),
            final(self).spec_dropped_count() == old(self).spec_dropped_count(),
            final(self).spec_total_inserted() == old(self).spec_total_inserted(),
    {
        let mut result: Vec<T> = Vec::new();
        while self.size > 0
            invariant
                self.wf(),
                self.capacity == old(self).capacity,
                self.dropped_count == old(self).dropped_count,
                self.total_inserted == old(self).total_inserted,
                result@ + self@ == old(self)@,
            decreases self.size,
        {
            let ghost held = self@;
            let ghost taken = result@;
            let item = self.pop();
            match item {
                Some(x) => {
                    result.push(x);
                    assert(result@ + self@ =~= taken + held);
                },
                None => {},
            }
        }
        assert(self@ =~= Seq::<T>::empty());
        assert(result@ =~= result@ + self@);
        result
    }

    /// Gives the buffer `new_capacity` slots. With the capacity it has
    /// nothing happens. Otherwise the oldest items are kept, as many as fit,
    /// and each of them is counted as added once more.
    pub fn resize(&mut self, new_capacity: usize)
        requires
            old(self).wf(),
            old(self).spec_total_inserted() + spec_min(
                old(self)@.len() as int,
                new_capacity as int,
            ) <= u64::MAX,
        ensures
            final(self).wf(),
            final(self).spec_capacity() == new_capacity,
            final(self).spec_dropped_count() == old(self).spec_dropped_count(),
            new_capacity == old(self).spec_capacity() ==> final(self)@ == old(self)@ && final(self).spec_total_inserted() == old(self).spec_total_inserted(),
            new_capacity != old(self).spec_capacity() ==> final(self)@ == old(self)@.take(
                spec_min(old(self)@.len() as int, new_capacity as int),
            ) && final(self).spec_total_inserted() == old(self).spec_total_inserted() + spec_min(
                old(self)@.len() as int,
                new_capacity as int,
            ),
    {
        if new_capacity == self.capacity {
            return;
        }
        let ghost held = self@;
        let ghost kept = spec_min(held.len() as int, new_capacity as int);
        let current_data = self.drain_all();
        self.data = empty_slots(new_capacity);
        self.capacity = new_capacity;
        self.head = 0;
        self.tail = 0;
        self.size = 0;
        assert(self@ =~= Seq::<T>::empty());
        for item in it: current_data
            invariant
                self.wf(),
                it.seq() == held,
                kept == spec_min(held.len() as int, new_capacity as int),
                self.capacity == new_capacity,
                self.dropped_count == old(self).dropped_count,
                self.total_inserted == old(self).total_inserted + spec_min(
                    it.index() as int,
                    kept,
                ),
                old(self).total_inserted + kept <= u64::MAX,
                self@ == held.take(spec_min(it.index() as int, kept)),
        {
            if self.size < new_capacity {
                assert(self@.len() == self.size);
                assert(it.index() < held.len());
                assert(it.index() < kept);
                self.push(item);
                assert(self@ =~= held.take(it.index() + 1));
            }
        }
    }
}

} // verus!
