//! The two kinds of task queue: the unbounded global queue that every worker
//! shares, and the bounded local queue that one worker owns and its peers
//! steal from.
//!
//! A local queue is written as a sequence that runs from its cold end (the
//! oldest item, at index 0) to its hot end (the newest item). The owner
//! pushes and pops at the hot end; stealers take from the cold end.

use std::collections::VecDeque;
use vstd::prelude::*;

verus! {

/// The capacity of a worker's local queue.
pub const LOCAL_QUEUE_CAPACITY: usize = 512;

/// The smaller of two numbers.
pub open spec fn min(a: int, b: int) -> int {
    if a <= b {
        a
    } else {
        b
    }
}

/// How many items one `steal_global` moves: at most half the local queue's
/// capacity, and no more than the global queue holds or the local queue has
/// room for.
pub open spec fn global_batch(capacity: int, local_len: int, global_len: int) -> int {
    min(min(capacity / 2, global_len), capacity - local_len)
}

/// How many items one `steal_local` moves: half of what the peer holds,
/// rounded up, and no more than the local queue has room for.
pub open spec fn peer_batch(capacity: int, local_len: int, peer_len: int) -> int {
    min(peer_len - peer_len / 2, capacity - local_len)
}

/// A local queue after a stolen batch landed on it. The batch is in the order
/// in which it was taken, oldest first, and its oldest item ends up at the
/// hot end: the owner pops the batch in the order in which it was queued.
pub open spec fn landed<T>(items: Seq<T>, batch: Seq<T>) -> Seq<T> {
    items + batch.reverse()
}

/// A local queue after `push(must_yield, item)` found room: the item goes to
/// the hot end, or, with `must_yield` and something else queued, one place
/// below it, so that it is not the next item popped.
pub open spec fn pushed<T>(items: Seq<T>, must_yield: bool, item: T) -> Seq<T> {
    if must_yield && items.len() > 0 {
        items.insert(items.len() - 1, item)
    } else {
        items.push(item)
    }
}

/// Reversing one more item of a sequence's tail puts that item at the end.
proof fn lemma_reverse_skip<T>(s: Seq<T>, k: int)
    requires
        0 < k <= s.len(),
    ensures
        s.skip(k - 1).reverse() == s.skip(k).reverse().push(s[k - 1]),
{
    assert(s.skip(k - 1).reverse() =~= s.skip(k).reverse().push(s[k - 1]));
}

/// An unbounded first-in, first-out queue.
#[derive(Debug)]
pub struct GlobalQueue<T> {
    items: VecDeque<T>,
}

impl<T> GlobalQueue<T> {
    /// The queued items, oldest first.
    pub closed spec fn view(&self) -> Seq<T> {
        self.items@
    }

    /// Creates an empty queue.
    pub fn new() -> (queue: Self)
        ensures
            queue@ == Seq::<T>::empty(),
    {
        GlobalQueue { items: VecDeque::new() }
    }

    /// Number of queued items.
    pub fn len(&self) -> (n: usize)
        ensures
            n == self@.len(),
    {
        self.items.len()
    }

    /// Returns `true` if nothing is queued.
    pub fn is_empty(&self) -> (empty: bool)
        ensures
            empty == (self@.len() == 0),
    {
        self.items.len() == 0
    }

    /// Appends an item.
    pub fn push(&mut self, item: T)
        ensures
            final(self)@ == old(self)@.push(item),
    {
        self.items.push_back(item);
    }

    /// Takes the oldest item.
    pub fn pop(&mut self) -> (item: Option<T>)
        ensures
            old(self)@.len() == 0 ==> item is None && final(self)@ == old(self)@,
            old(self)@.len() > 0 ==> item == Some(old(self)@[0]) && final(self)@ == old(
                self,
            )@.drop_first(),
    {
        self.items.pop_front()
    }

    /// Takes the `limit` oldest items, or all of them if there are fewer.
    pub fn take(&mut self, limit: usize) -> (batch: Vec<T>)
        ensures
            batch@ == old(self)@.take(min(limit as int, old(self)@.len() as int)),
            final(self)@ == old(self)@.skip(min(limit as int, old(self)@.len() as int)),
    {
        take_front(&mut self.items, limit)
    }
}

/// Moves the `limit` front items of `source`, or all of them if there are
/// fewer, into a vector, front item first.
fn take_front<T>(source: &mut VecDeque<T>, limit: usize) -> (batch: Vec<T>)
    ensures
        batch@ == old(source)@.take(min(limit as int, old(source)@.len() as int)),
        final(source)@ == old(source)@.skip(min(limit as int, old(source)@.len() as int)),
{
    let ghost before = source@;
    let mut batch: Vec<T> = Vec::new();
    let mut taken: usize = 0;
    while taken < limit && source.len() > 0
        invariant
            taken <= limit,
            taken <= before.len(),
            batch@ == before.take(taken as int),
            source@ == before.skip(taken as int),
        decreases limit - taken,
    {
        let item = source.pop_front();
        match item {
            Some(item) => {
                batch.push(item);
                taken += 1;
                assert(batch@ =~= before.take(taken as int));
                assert(source@ =~= before.skip(taken as int));
            },
            None => {},
        }
    }
    batch
}

/// A bounded queue owned by one worker.
#[derive(Debug)]
pub struct LocalQueue<T> {
    ring: VecDeque<T>,
    capacity: usize,
}

impl<T> LocalQueue<T> {
    /// The queued items, from the cold end to the hot end.
    pub closed spec fn view(&self) -> Seq<T> {
        self.ring@
    }

    /// The most items the queue holds.
    pub closed spec fn cap(&self) -> nat {
        self.capacity as nat
    }

    /// The queue's invariant: it holds no more than its capacity, and its
    /// capacity is at least two, so that half of it is at least one.
    pub open spec fn wf(&self) -> bool {
        self.cap() >= 2 && self@.len() <= self.cap()
    }

    /// Creates an empty queue of the default capacity.
    pub fn new() -> (queue: Self)
        ensures
            queue.wf(),
            queue@ == Seq::<T>::empty(),
            queue.cap() == LOCAL_QUEUE_CAPACITY,
    {
        LocalQueue { ring: VecDeque::new(), capacity: LOCAL_QUEUE_CAPACITY }
    }

    /// Creates an empty queue that holds up to `capacity` items.
    pub fn with_capacity(capacity: usize) -> (queue: Self)
        requires
            capacity >= 2,
        ensures
            queue.wf(),
            queue@ == Seq::<T>::empty(),
            queue.cap() == capacity,
    {
        LocalQueue { ring: VecDeque::new(), capacity }
    }

    /// The most items the queue holds.
    pub fn capacity(&self) -> (n: usize)
        ensures
            n == self.cap(),
    {
        self.capacity
    }

    /// Number of queued items.
    pub fn len(&self) -> (n: usize)
        ensures
            n == self@.len(),
    {
        self.ring.len()
    }

    /// Returns `true` if nothing is queued.
    pub fn is_empty(&self) -> (empty: bool)
        ensures
            empty == (self@.len() == 0),
    {
        self.ring.len() == 0
    }

    /// Queues an item at the hot end, or hands it back if the queue is full.
    ///
    /// With `must_yield` the item goes one place below the hot end, if
    /// anything else is queued: a task that has just yielded is then not the
    /// very next one popped.
    pub fn push(&mut self, must_yield: bool, item: T) -> (spilled: Result<(), T>)
        requires
            old(self).wf(),
        ensures
            final(self).wf(),
            final(self).cap() == old(self).cap(),
            old(self)@.len() == old(self).cap() ==> spilled == Err::<(), T>(item) && final(self)@
                == old(self)@,
            old(self)@.len() < old(self).cap() ==> spilled == Ok::<(), T>(()) && final(self)@
                == pushed(old(self)@, must_yield, item),
    {
        if self.ring.len() >= self.capacity {
            return Err(item);
        }
        if must_yield {
            let ghost before = self.ring@;
            match self.ring.pop_back() {
                Some(top) => {
                    self.ring.push_back(item);
                    self.ring.push_back(top);
                    assert(self.ring@ =~= before.insert(before.len() - 1, item));
                },
                None => {
                    self.ring.push_back(item);
                },
            }
        } else {
            self.ring.push_back(item);
        }
        Ok(())
    }

    /// Takes the item at the hot end.
    pub fn pop(&mut self) -> (item: Option<T>)
        requires
            old(self).wf(),
        ensures
            final(self).wf(),
            final(self).cap() == old(self).cap(),
            old(self)@.len() == 0 ==> item is None && final(self)@ == old(self)@,
            old(self)@.len() > 0 ==> item == Some(old(self)@.last()) && final(self)@ == old(
                self,
            )@.drop_last(),
    {
        let item = self.ring.pop_back();
        proof {
            if old(self)@.len() > 0 {
                assert(self.ring@ =~= old(self)@.drop_last());
            }
        }
        item
    }

    /// Takes the `limit` items at the cold end, or all items if there are
    /// fewer: what a stealer gets.
    pub fn take_oldest(&mut self, limit: usize) -> (batch: Vec<T>)
        requires
            old(self).wf(),
        ensures
            final(self).wf(),
            final(self).cap() == old(self).cap(),
            batch@ == old(self)@.take(min(limit as int, old(self)@.len() as int)),
            final(self)@ == old(self)@.skip(min(limit as int, old(self)@.len() as int)),
    {
        take_front(&mut self.ring, limit)
    }

    /// Puts a stolen batch on the hot end, its first item last.
    fn absorb(&mut self, batch: Vec<T>)
        requires
            old(self).wf(),
            old(self)@.len() + batch@.len() <= old(self).cap(),
        ensures
            final(self).wf(),
            final(self).cap() == old(self).cap(),
            final(self)@ == landed(old(self)@, batch@),
    {
        let ghost before = self.ring@;
        let ghost all = batch@;
        let mut batch = batch;
        assert(all.skip(all.len() as int) =~= Seq::<T>::empty());
        assert(self.ring@ =~= before + all.skip(all.len() as int).reverse());
        while batch.len() > 0
            invariant
                self.capacity == old(self).capacity,
                batch@.len() <= all.len(),
                batch@ == all.take(batch@.len() as int),
                self.ring@ == before + all.skip(batch@.len() as int).reverse(),
            decreases batch.len(),
        {
            let ghost left = batch@.len() as int;
            match batch.pop() {
                Some(item) => {
                    self.ring.push_back(item);
                    proof {
                        assert(item == all[left - 1]);
                        assert(batch@ =~= all.take(left - 1));
                        lemma_reverse_skip(all, left);
                        assert(self.ring@ =~= before + all.skip(left - 1).reverse());
                    }
                },
                None => {},
            }
        }
        assert(all.skip(0) =~= all);
    }

    /// Moves up to half this queue's capacity from the global queue to the
    /// hot end of this queue, as far as there is room. The owner then pops
    /// the moved items oldest first.
    pub fn steal_global(&mut self, global: &mut GlobalQueue<T>)
        requires
            old(self).wf(),
        ensures
            final(self).wf(),
            final(self).cap() == old(self).cap(),
            final(self)@ == landed(
                old(self)@,
                old(global)@.take(
                    global_batch(
                        old(self).cap() as int,
                        old(self)@.len() as int,
                        old(global)@.len() as int,
                    ),
                ),
            ),
            final(global)@ == old(global)@.skip(
                global_batch(
                    old(self).cap() as int,
                    old(self)@.len() as int,
                    old(global)@.len() as int,
                ),
            ),
    {
        let room = self.capacity - self.ring.len();
        let half = self.capacity / 2;
        let limit = if half < room {
            half
        } else {
            room
        };
        let batch = global.take(limit);
        self.absorb(batch);
    }

    /// Moves half of what `peer` holds, rounded up, from the cold end of
    /// `peer` to the hot end of this queue, as far as there is room. The
    /// owner then pops the moved items oldest first.
    pub fn steal_local(&mut self, peer: &mut LocalQueue<T>)
        requires
            old(self).wf(),
            old(peer).wf(),
        ensures
            final(self).wf(),
            final(peer).wf(),
            final(self).cap() == old(self).cap(),
            final(peer).cap() == old(peer).cap(),
            final(self)@ == landed(
                old(self)@,
                old(peer)@.take(
                    peer_batch(
                        old(self).cap() as int,
                        old(self)@.len() as int,
                        old(peer)@.len() as int,
                    ),
                ),
            ),
            final(peer)@ == old(peer)@.skip(
                peer_batch(
                    old(self).cap() as int,
                    old(self)@.len() as int,
                    old(peer)@.len() as int,
                ),
            ),
    {
        let room = self.capacity - self.ring.len();
        let held = peer.len();
        let half = held - held / 2;
        let limit = if half < room {
            half
        } else {
            room
        };
        let batch = peer.take_oldest(limit);
        self.absorb(batch);
    }
}

} // verus!
