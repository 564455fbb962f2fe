//! A queue of bounded length between the request path and what follows it.
//! Putting an item in never waits: where the queue is full, either the oldest
//! item makes room or the new item is turned away.

use std::collections::VecDeque;
use vstd::prelude::*;

verus! {

/// A first-in, first-out queue that never holds more than `capacity` items.
pub struct BoundedQueue<T> {
    capacity: usize,
    items: VecDeque<T>,
}

/// The last `n` items of `s`, or all of `s` where it has fewer.
pub open spec fn last_n<T>(s: Seq<T>, n: int) -> Seq<T> {
    if s.len() <= n {
        s
    } else {
        s.subrange(s.len() - n, s.len() as int)
    }
}

/// The queue after `x` was put in and, where the queue was full, the oldest
/// item was dropped.
pub open spec fn pushed_dropping_oldest<T>(q: Seq<T>, capacity: int, x: T) -> Seq<T> {
    if q.len() < capacity {
        q.push(x)
    } else {
        q.drop_first().push(x)
    }
}

/// The queue after the items of `xs` were put in one after the other, the
/// oldest item making room whenever the queue was full.
pub open spec fn pushed_all<T>(q: Seq<T>, capacity: int, xs: Seq<T>) -> Seq<T>
    decreases xs.len(),
{
    if xs.len() == 0 {
        q
    } else {
        pushed_dropping_oldest(pushed_all(q, capacity, xs.drop_last()), capacity, xs.last())
    }
}

impl<T> BoundedQueue<T> {
    /// The items, oldest first.
    pub closed spec fn view(&self) -> Seq<T> {
        self.items@
    }

    /// The greatest number of items that the queue holds.
    pub closed spec fn capacity(&self) -> int {
        self.capacity as int
    }

    /// The queue is in order: it holds at most `capacity` items, and the
    /// capacity is at least 1.
    pub open spec fn wf(&self) -> bool {
        1 <= self.capacity() && self@.len() <= self.capacity()
    }

    /// An empty queue. A capacity of 0 counts as 1.
    pub fn new(capacity: usize) -> (q: BoundedQueue<T>)
        ensures
            q.wf(),
            q@.len() == 0,
            q.capacity() == if capacity == 0 {
                1
            } else {
                capacity as int
            },
    {
        BoundedQueue {
            capacity: if capacity == 0 {
                1
            } else {
                capacity
            },
            items: VecDeque::new(),
        }
    }

    /// How many items wait in the queue.
    pub fn len(&self) -> (n: usize)
        ensures
            n == self@.len(),
    {
        self.items.len()
    }

    /// Puts `x` in. Where the queue is full the oldest item is dropped, and
    /// returned, to make room: the newest items are the ones that stay.
    pub fn push_dropping_oldest(&mut self, x: T) -> (dropped: Option<T>)
        requires
            old(self).wf(),
        ensures
            final(self).wf(),
            final(self).capacity() == old(self).capacity(),
            final(self)@ == pushed_dropping_oldest(old(self)@, old(self).capacity(), x),
            dropped == if old(self)@.len() < old(self).capacity() {
                None
            } else {
                Some(old(self)@[0])
            },
    {
        let dropped = if self.items.len() < self.capacity {
            None
        } else {
            self.items.pop_front()
        };
        self.items.push_back(x);
        dropped
    }

    /// Puts `x` in where there is room. Where the queue is full nothing
    /// changes and `x` is handed back: the items that wait are the ones that stay.
    pub fn push_or_reject(&mut self, x: T) -> (rejected: Option<T>)
        requires
            old(self).wf(),
        ensures
            final(self).wf(),
            final(self).capacity() == old(self).capacity(),
            old(self)@.len() < old(self).capacity() ==> rejected is None && final(self)@
                == old(self)@.push(x),
            old(self)@.len() >= old(self).capacity() ==> rejected == Some(x) && final(self)@
                == old(self)@,
    {
        if self.items.len() < self.capacity {
            self.items.push_back(x);
            None
        } else {
            Some(x)
        }
    }

    /// Takes up to `max` items out, oldest first.
    pub fn take_batch(&mut self, max: usize) -> (batch: Vec<T>)
        requires
            old(self).wf(),
        ensures
            final(self).wf(),
            final(self).capacity() == old(self).capacity(),
            batch@ == old(self)@.take(
                if max <= old(self)@.len() {
                    max as int
                } else {
                    old(self)@.len() as int
                },
            ),
            final(self)@ == old(self)@.skip(batch@.len() as int),
    {
        let mut batch: Vec<T> = Vec::new();
        while batch.len() < max && self.items.len() > 0
            invariant
                self.wf(),
                self.capacity() == old(self).capacity(),
                batch@.len() <= max,
                batch@.len() <= old(self)@.len(),
                batch@ == old(self)@.take(batch@.len() as int),
                self@ == old(self)@.skip(batch@.len() as int),
            decreases self.items@.len(),
        {
            match self.items.pop_front() {
                Some(x) => {
                    batch.push(x);
                },
                None => {},
            }
        }
        batch
    }
}

/// Bounded loss: whatever is put into a queue with room for `capacity` items,
/// the newest `capacity` items of all that ever waited are the ones it holds.
pub proof fn lemma_newest_items_stay<T>(q: Seq<T>, capacity: int, xs: Seq<T>)
    requires
        1 <= capacity,
        q.len() <= capacity,
    ensures
        pushed_all(q, capacity, xs) == last_n(q + xs, capacity),
        pushed_all(q, capacity, xs).len() <= capacity,
    decreases xs.len(),
{
    if xs.len() > 0 {
        lemma_newest_items_stay(q, capacity, xs.drop_last());
    }
}

} // verus!
