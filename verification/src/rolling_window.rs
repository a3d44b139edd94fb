//! Fixed-capacity ring buffer for price and volume history.

use vstd::prelude::*;

verus! {

/// Ring buffer that keeps the most recent `capacity` items and overwrites the
/// oldest one when it is full.
///
/// The view is the sequence of items held, oldest first.
pub struct RollingWindow<T: Clone> {
    buf: Vec<T>,
    capacity: usize,
    len: usize,
    write_pos: usize,
}

/// Contents of a window of the given capacity after one more item.
pub open spec fn pushed<T>(held: Seq<T>, capacity: nat, item: T) -> Seq<T> {
    if held.len() < capacity {
        held.push(item)
    } else {
        held.drop_first().push(item)
    }
}

/// Contents of a fresh window of the given capacity after a run of items.
pub open spec fn pushed_all<T>(capacity: nat, items: Seq<T>) -> Seq<T>
    decreases items.len(),
{
    if items.len() == 0 {
        Seq::empty()
    } else {
        pushed(pushed_all(capacity, items.drop_last()), capacity, items.last())
    }
}

/// Items that a window made with this capacity holds at most.
pub open spec fn room_for(capacity: usize) -> nat {
    if capacity == 0 {
        1
    } else {
        capacity as nat
    }
}

impl<T: Clone> View for RollingWindow<T> {
    type V = Seq<T>;

    closed spec fn view(&self) -> Seq<T> {
        if self.len < self.capacity {
            self.buf@
        } else {
            self.buf@.skip(self.write_pos as int) + self.buf@.take(self.write_pos as int)
        }
    }
}

impl<T: Clone> RollingWindow<T> {
    /// The bookkeeping fields agree with the buffer.
    pub closed spec fn wf(&self) -> bool {
        &&& self.capacity >= 1
        &&& self.len == self.buf@.len()
        &&& self.len <= self.capacity
        &&& self.write_pos < self.capacity
        &&& self.len < self.capacity ==> self.write_pos == self.len
    }

    /// The most items that the window holds at once.
    pub closed spec fn limit(&self) -> nat {
        self.capacity as nat
    }

    /// Slot of the buffer that the next item goes to.
    pub closed spec fn next_slot(&self) -> nat {
        self.write_pos as nat
    }

    /// Items that the first of the two slices holds: all of them until the
    /// window is full, and from then on those behind the next slot.
    pub open spec fn first_part(&self) -> int {
        if self@.len() < self.limit() {
            self@.len() as int
        } else {
            self.limit() - self.next_slot()
        }
    }

    /// The window is what a fresh one has become after these pushes.
    pub open spec fn has_taken(&self, items: Seq<T>) -> bool {
        &&& self@ == pushed_all(self.limit(), items)
        &&& self.next_slot() == items.len() % self.limit()
    }

    /// A well-formed window has room for at least one item and never holds
    /// more than its limit.
    pub proof fn law_within_limit(&self)
        requires
            self.wf(),
        ensures
            1 <= self.limit(),
            self@.len() <= self.limit(),
            self.next_slot() < self.limit(),
    {
    }

    /// Creates an empty window. A capacity of zero is treated as one.
    pub fn new(capacity: usize) -> (window: Self)
        ensures
            window.wf(),
            window@ == Seq::<T>::empty(),
            window.limit() == room_for(capacity),
            window.next_slot() == 0,
            window.has_taken(Seq::<T>::empty()),
    {
        let capacity: usize = if capacity == 0 { 1 } else { capacity };
        assert(0nat % capacity as nat == 0) by (nonlinear_arith)
            requires
                capacity >= 1,
        ;
        RollingWindow { buf: Vec::with_capacity(capacity), capacity, len: 0, write_pos: 0 }
    }

    /// Adds an item; a full window drops its oldest item first.
    pub fn push(&mut self, item: T)
        requires
            old(self).wf(),
        ensures
            final(self).wf(),
            final(self).limit() == old(self).limit(),
            final(self)@ == pushed(old(self)@, old(self).limit(), item),
            final(self).next_slot() == (old(self).next_slot() + 1) % old(self).limit(),
            forall|items: Seq<T>| #[trigger]
                old(self).has_taken(items) ==> final(self).has_taken(items.push(item)),
    {
        let ghost before = self.buf@;
        if self.buf.len() < self.capacity {
            self.buf.push(item);
            self.len = self.buf.len();
            self.write_pos = if self.len == self.capacity { 0 } else { self.len };
        } else {
            self.buf.set(self.write_pos, item);
            self.write_pos = if self.write_pos + 1 == self.capacity { 0 } else { self.write_pos + 1 };
            self.len = self.capacity;
        }
        assert(self@ =~= pushed(old(self)@, old(self).limit(), item));
        proof {
            let limit = self.limit() as int;
            let next = old(self).next_slot() as int;
            assert((next + 1) % limit == if next + 1 == limit { 0 } else { next + 1 }) by (nonlinear_arith)
                requires
                    0 <= next < limit,
            ;
            assert forall|items: Seq<T>| #[trigger] old(self).has_taken(items) implies self.has_taken(
                items.push(item),
            ) by {
                assert(items.push(item).drop_last() =~= items);
                vstd::arithmetic::div_mod::lemma_add_mod_noop(items.len() as int, 1, limit);
                vstd::arithmetic::div_mod::lemma_add_mod_noop(next, 1, limit);
                vstd::arithmetic::div_mod::lemma_small_mod(next as nat, limit as nat);
            }
        }
    }

    /// The contents as two consecutive slices, oldest item first.
    pub fn as_slices(&self) -> (slices: (&[T], &[T]))
        requires
            self.wf(),
        ensures
            slices.0@ == self@.take(self.first_part()),
            slices.1@ == self@.skip(self.first_part()),
            slices.0@ + slices.1@ == self@,
    {
        if self.len < self.capacity {
            let (first, second) = self.buf.as_slice().split_at(self.len);
            assert(first@ + second@ =~= self@);
            assert(first@ =~= self@.take(self.first_part()));
            assert(second@ =~= self@.skip(self.first_part()));
            (first, second)
        } else {
            let (second, first) = self.buf.as_slice().split_at(self.write_pos);
            assert(first@ + second@ =~= self@);
            assert(first@ =~= self@.take(self.first_part()));
            assert(second@ =~= self@.skip(self.first_part()));
            (first, second)
        }
    }

    /// A contiguous copy of the contents, oldest item first.
    pub fn to_vec(&self) -> (items: Vec<T>)
        requires
            self.wf(),
        ensures
            items@.len() == self@.len(),
            forall|i: int| 0 <= i < items@.len() ==> cloned(self@[i], #[trigger] items@[i]),
    {
        let (a, b) = self.as_slices();
        let mut items: Vec<T> = Vec::with_capacity(self.len);
        items.extend_from_slice(a);
        items.extend_from_slice(b);
        assert forall|i: int| 0 <= i < items@.len() implies cloned(self@[i], #[trigger] items@[i]) by {
            if i < a@.len() {
                assert(self@[i] == a@[i]);
            } else {
                assert(self@[i] == b@[i - a@.len()]);
            }
        }
        items
    }

    /// Number of items held.
    pub fn len(&self) -> (n: usize)
        requires
            self.wf(),
        ensures
            n == self@.len(),
    {
        self.len
    }

    /// Whether the window holds nothing.
    pub fn is_empty(&self) -> (empty: bool)
        requires
            self.wf(),
        ensures
            empty == (self@.len() == 0),
    {
        self.len == 0
    }

    /// The most recently pushed item, if any.
    pub fn last(&self) -> (item: Option<&T>)
        requires
            self.wf(),
        ensures
            item == if self@.len() == 0 { None } else { Some(&self@.last()) },
    {
        if self.is_empty() {
            None
        } else if self.write_pos == 0 {
            Some(&self.buf[self.len - 1])
        } else {
            Some(&self.buf[self.write_pos - 1])
        }
    }
}

/// A window holds exactly the most recent items that fit: after any run of
/// pushes its contents are the last `capacity` items, or all of them while
/// fewer were pushed.
pub proof fn law_window_keeps_the_latest<T>(capacity: nat, items: Seq<T>)
    requires
        capacity >= 1,
    ensures
        pushed_all(capacity, items) == if items.len() <= capacity {
            items
        } else {
            items.skip(items.len() - capacity)
        },
    decreases items.len(),
{
    if items.len() > 0 {
        let before = items.drop_last();
        law_window_keeps_the_latest(capacity, before);
        let held = pushed_all(capacity, before);
        if items.len() <= capacity {
            assert(held.push(items.last()) =~= items);
        } else {
            assert(pushed(held, capacity, items.last()) =~= items.skip(items.len() - capacity));
        }
    } else {
        assert(items =~= Seq::empty());
    }
}

/// Two windows with the same room that have taken the same items hold the
/// same and part it into the same two slices.
pub proof fn law_same_pushes_give_the_same_window<T: Clone>(
    a: RollingWindow<T>,
    b: RollingWindow<T>,
    items: Seq<T>,
)
    requires
        a.limit() == b.limit(),
        a.has_taken(items),
        b.has_taken(items),
    ensures
        a@ == b@,
        a.next_slot() == b.next_slot(),
        a.first_part() == b.first_part(),
{
}

/// A window made with a capacity of zero behaves like one made with a
/// capacity of one: it holds the last item that it took.
pub proof fn law_zero_capacity_counts_as_one<T: Clone>(a: RollingWindow<T>, b: RollingWindow<T>, items: Seq<T>)
    requires
        a.limit() == room_for(0),
        b.limit() == room_for(1),
        a.has_taken(items),
        b.has_taken(items),
    ensures
        a@ == b@,
        a.first_part() == b.first_part(),
        items.len() == 0 ==> a@ == Seq::<T>::empty(),
        items.len() > 0 ==> a@ == seq![items.last()],
{
    law_window_keeps_the_latest(1, items);
    law_same_pushes_give_the_same_window(a, b, items);
    if items.len() > 0 {
        assert(a@ =~= seq![items.last()]);
    }
}

} // verus!
