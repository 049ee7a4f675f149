//! The table of local queues. Each worker registers a queue under a small
//! number and works on it through the table; its peers reach it there to
//! steal from it.

use crate::queue::{
    global_batch, landed, peer_batch, pushed, GlobalQueue, LocalQueue, LOCAL_QUEUE_CAPACITY,
};
use vstd::prelude::*;

verus! {

/// What one slot of the table holds: `None` if no queue is registered there,
/// or the items of the queue, from its cold end to its hot end.
pub type Slot<T> = Option<Seq<T>>;

/// The ids registered in the first `upto` slots, in ascending order.
pub open spec fn ids_below<T>(slots: Seq<Slot<T>>, upto: int) -> Seq<usize>
    decreases upto,
{
    if upto <= 0 {
        Seq::empty()
    } else if slots[upto - 1] is Some {
        ids_below(slots, upto - 1).push((upto - 1) as usize)
    } else {
        ids_below(slots, upto - 1)
    }
}

/// The registered ids, in ascending order.
pub open spec fn registered_ids<T>(slots: Seq<Slot<T>>) -> Seq<usize> {
    ids_below(slots, slots.len() as int)
}

/// The smallest id that is not registered.
pub open spec fn first_vacant<T>(slots: Seq<Slot<T>>) -> int {
    if exists|i: int| 0 <= i < slots.len() && slots[i] is None {
        choose|i: int|
            0 <= i < slots.len() && slots[i] is None && forall|j: int|
                0 <= j < i ==> slots[j] is Some
    } else {
        slots.len() as int
    }
}

/// True if a queue is registered under `id`.
pub open spec fn is_registered<T>(slots: Seq<Slot<T>>, id: int) -> bool {
    0 <= id < slots.len() && slots[id] is Some
}

/// The table of local queues.
#[derive(Debug)]
pub struct Registry<T> {
    slots: Vec<Option<LocalQueue<T>>>,
}

impl<T> Registry<T> {
    /// The slots of the table, by id.
    pub closed spec fn view(&self) -> Seq<Slot<T>> {
        Seq::new(
            self.slots@.len(),
            |i: int|
                match self.slots@[i] {
                    Some(queue) => Some(queue@),
                    None => None,
                },
        )
    }

    /// The table's invariant: every registered queue has the default capacity
    /// and holds no more than that.
    pub closed spec fn wf(&self) -> bool {
        forall|i: int|
            0 <= i < self.slots@.len() ==> match #[trigger] self.slots@[i] {
                Some(queue) => queue.wf() && queue.cap() == LOCAL_QUEUE_CAPACITY,
                None => true,
            }
    }

    /// A registered queue holds no more than the default capacity.
    pub proof fn lemma_bounded(&self, id: int)
        requires
            self.wf(),
            is_registered(self@, id),
        ensures
            self@[id].unwrap().len() <= LOCAL_QUEUE_CAPACITY,
    {
        assert(self.slots@[id] is Some);
    }

    /// Creates an empty table.
    pub fn new() -> (table: Self)
        ensures
            table.wf(),
            table@ == Seq::<Slot<T>>::empty(),
    {
        let table = Registry { slots: Vec::new() };
        assert(table@ =~= Seq::<Slot<T>>::empty());
        table
    }

    /// Returns `true` if a queue is registered under `id`.
    pub fn contains(&self, id: usize) -> (found: bool)
        ensures
            found == is_registered(self@, id as int),
    {
        id < self.slots.len() && self.slots[id].is_some()
    }

    /// Number of items in the queue registered under `id`, or `None` if no
    /// queue is registered there.
    pub fn len(&self, id: usize) -> (n: Option<usize>)
        ensures
            n == match (if id < self@.len() {
                self@[id as int]
            } else {
                None
            }) {
                Some(items) => Some(items.len() as usize),
                None => None,
            },
    {
        if id < self.slots.len() {
            match &self.slots[id] {
                Some(queue) => Some(queue.len()),
                None => None,
            }
        } else {
            None
        }
    }

    /// Queues an item on the queue registered under `id`, as
    /// `LocalQueue::push` does.
    pub fn push(&mut self, id: usize, must_yield: bool, item: T) -> (spilled: Result<(), T>)
        requires
            old(self).wf(),
            is_registered(old(self)@, id as int),
        ensures
            final(self).wf(),
            old(self)@[id as int].unwrap().len() == LOCAL_QUEUE_CAPACITY ==> spilled == Err::<(), T>(
                item,
            ) && final(self)@ == old(self)@,
            old(self)@[id as int].unwrap().len() < LOCAL_QUEUE_CAPACITY ==> spilled == Ok::<(), T>(())
                && final(self)@ == old(self)@.update(
                id as int,
                Some(pushed(old(self)@[id as int].unwrap(), must_yield, item)),
            ),
    {
        let spilled = match &mut self.slots[id] {
            Some(queue) => queue.push(must_yield, item),
            None => Err(item),
        };
        proof {
            assert(final(self)@ =~= if spilled is Ok {
                old(self)@.update(
                    id as int,
                    Some(pushed(old(self)@[id as int].unwrap(), must_yield, item)),
                )
            } else {
                old(self)@
            });
        }
        spilled
    }

    /// Takes the item at the hot end of the queue registered under `id`.
    pub fn pop(&mut self, id: usize) -> (item: Option<T>)
        requires
            old(self).wf(),
            is_registered(old(self)@, id as int),
        ensures
            final(self).wf(),
            old(self)@[id as int].unwrap().len() == 0 ==> item is None && final(self)@ == old(
                self,
            )@,
            old(self)@[id as int].unwrap().len() > 0 ==> item == Some(
                old(self)@[id as int].unwrap().last(),
            ) && final(self)@ == old(self)@.update(
                id as int,
                Some(old(self)@[id as int].unwrap().drop_last()),
            ),
    {
        let item = match &mut self.slots[id] {
            Some(queue) => queue.pop(),
            None => None,
        };
        proof {
            assert(final(self)@ =~= if item is Some {
                old(self)@.update(id as int, Some(old(self)@[id as int].unwrap().drop_last()))
            } else {
                old(self)@
            });
        }
        item
    }

    /// Moves items from the global queue to the queue registered under `id`,
    /// as `LocalQueue::steal_global` does.
    pub fn steal_global(&mut self, id: usize, global: &mut GlobalQueue<T>)
        requires
            old(self).wf(),
            is_registered(old(self)@, id as int),
        ensures
            final(self).wf(),
            final(self)@ == old(self)@.update(
                id as int,
                Some(
                    landed(
                        old(self)@[id as int].unwrap(),
                        old(global)@.take(
                            global_batch(
                                LOCAL_QUEUE_CAPACITY as int,
                                old(self)@[id as int].unwrap().len() as int,
                                old(global)@.len() as int,
                            ),
                        ),
                    ),
                ),
            ),
            final(global)@ == old(global)@.skip(
                global_batch(
                    LOCAL_QUEUE_CAPACITY as int,
                    old(self)@[id as int].unwrap().len() as int,
                    old(global)@.len() as int,
                ),
            ),
    {
        match &mut self.slots[id] {
            Some(queue) => queue.steal_global(global),
            None => {},
        }
        proof {
            assert(final(self)@ =~= old(self)@.update(
                id as int,
                Some(
                    landed(
                        old(self)@[id as int].unwrap(),
                        old(global)@.take(
                            global_batch(
                                LOCAL_QUEUE_CAPACITY as int,
                                old(self)@[id as int].unwrap().len() as int,
                                old(global)@.len() as int,
                            ),
                        ),
                    ),
                ),
            ));
        }
    }

    /// Moves items from the queue registered under `peer` to the queue
    /// registered under `id`, as `LocalQueue::steal_local` does.
    pub fn steal_local(&mut self, id: usize, peer: usize)
        requires
            old(self).wf(),
            is_registered(old(self)@, id as int),
            is_registered(old(self)@, peer as int),
            id != peer,
        ensures
            final(self).wf(),
            final(self)@ == old(self)@.update(
                id as int,
                Some(
                    landed(
                        old(self)@[id as int].unwrap(),
                        old(self)@[peer as int].unwrap().take(
                            peer_batch(
                                LOCAL_QUEUE_CAPACITY as int,
                                old(self)@[id as int].unwrap().len() as int,
                                old(self)@[peer as int].unwrap().len() as int,
                            ),
                        ),
                    ),
                ),
            ).update(
                peer as int,
                Some(
                    old(self)@[peer as int].unwrap().skip(
                        peer_batch(
                            LOCAL_QUEUE_CAPACITY as int,
                            old(self)@[id as int].unwrap().len() as int,
                            old(self)@[peer as int].unwrap().len() as int,
                        ),
                    ),
                ),
            ),
    {
        let ghost before = self@;
        let mut own = self.slots[id].take().unwrap();
        match &mut self.slots[peer] {
            Some(victim) => own.steal_local(victim),
            None => {},
        }
        self.slots[id] = Some(own);
        proof {
            let count = peer_batch(
                LOCAL_QUEUE_CAPACITY as int,
                before[id as int].unwrap().len() as int,
                before[peer as int].unwrap().len() as int,
            );
            assert(self@ =~= before.update(
                id as int,
                Some(landed(before[id as int].unwrap(), before[peer as int].unwrap().take(count))),
            ).update(peer as int, Some(before[peer as int].unwrap().skip(count))));
        }
    }

    /// Registers a new, empty queue under the smallest id that is not in use.
    pub fn register(&mut self) -> (id: usize)
        requires
            old(self).wf(),
        ensures
            final(self).wf(),
            id == first_vacant(old(self)@),
            !is_registered(old(self)@, id as int),
            id <= old(self)@.len(),
            final(self)@.len() <= usize::MAX,
            id < old(self)@.len() ==> final(self)@ == old(self)@.update(
                id as int,
                Some(Seq::empty()),
            ),
            id == old(self)@.len() ==> final(self)@ == old(self)@.push(Some(Seq::empty())),
    {
        let ghost before = self@;
        let mut id: usize = 0;
        while id < self.slots.len()
            invariant
                id <= self.slots.len(),
                self@ == before,
                self.wf(),
                *self == *old(self),
                forall|j: int| 0 <= j < id ==> before[j] is Some,
            decreases self.slots.len() - id,
        {
            if self.slots[id].is_none() {
                assert(before[id as int] is None);
                self.slots[id] = Some(LocalQueue::new());
                assert(self@ =~= before.update(id as int, Some(Seq::empty())));
                return id;
            }
            id += 1;
        }
        self.slots.push(Some(LocalQueue::new()));
        assert(self@ =~= before.push(Some(Seq::empty())));
        assert(self.slots.len() == self@.len());
        id
    }

    /// Takes the queue registered under `id` out of the table, with what it
    /// still holds. The id is free afterwards.
    pub fn unregister(&mut self, id: usize) -> (queue: LocalQueue<T>)
        requires
            old(self).wf(),
            is_registered(old(self)@, id as int),
        ensures
            final(self).wf(),
            queue.wf(),
            queue@ == old(self)@[id as int].unwrap(),
            final(self)@ == old(self)@.update(id as int, None),
    {
        let queue = self.slots[id].take().unwrap();
        assert(self@ =~= old(self)@.update(id as int, None));
        queue
    }

    /// The registered ids, in ascending order.
    pub fn ids(&self) -> (ids: Vec<usize>)
        ensures
            ids@ == registered_ids(self@),
    {
        let mut ids: Vec<usize> = Vec::new();
        let mut i: usize = 0;
        while i < self.slots.len()
            invariant
                i <= self.slots.len(),
                ids@ == ids_below(self@, i as int),
            decreases self.slots.len() - i,
        {
            if self.slots[i].is_some() {
                ids.push(i);
            }
            i += 1;
        }
        ids
    }
}

} // verus!
