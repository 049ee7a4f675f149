//! The state that all workers of one executor share: the global queue, the
//! table of local queues, the sleepers and the active tasks.

use crate::active::{active_entries, active_new, active_vacant, no_entries};
use crate::queue::{
    global_batch, landed, peer_batch, pushed, GlobalQueue, LocalQueue, LOCAL_QUEUE_CAPACITY,
};
use crate::registry::{first_vacant, is_registered, registered_ids, Registry, Slot};
use crate::sleepers::{lemma_notified_wf, Sleepers, SleepersView};
use async_task::Runnable;
use slab::Slab;
use std::task::Waker;
use vstd::prelude::*;

verus! {

/// The state of an executor.
#[derive(Debug)]
pub struct State {
    /// Tells this state from the states of other executors.
    pub(crate) id: usize,
    /// The global queue.
    pub(crate) queue: GlobalQueue<Runnable>,
    /// Count of searching runners.
    pub(crate) searching_count: usize,
    /// Local queues created by runners.
    pub(crate) local_queues: Registry<Runnable>,
    /// Set to `true` when a sleeping ticker is notified or no tickers are sleeping.
    pub(crate) notified: bool,
    /// A list of sleeping tickers.
    pub(crate) sleepers: Sleepers,
    /// Currently active tasks.
    pub(crate) active: Slab<Waker>,
}

/// What a `State` holds.
pub struct StateView {
    pub id: usize,
    pub queue: Seq<Runnable>,
    pub searching_count: usize,
    pub local_queues: Seq<Slot<Runnable>>,
    pub notified: bool,
    pub sleepers: SleepersView,
    pub active: Map<usize, Waker>,
    /// The index that the next spawned task gets.
    pub vacant: usize,
}

impl StateView {
    /// The state's invariant: the table of sleepers is well-formed, the
    /// `notified` flag says what the table says, and the ids of the local
    /// queues are machine integers.
    pub open spec fn wf(self) -> bool {
        &&& self.sleepers.wf()
        &&& self.notified == self.sleepers.is_notified()
        &&& self.local_queues.len() <= usize::MAX
    }

    /// The waker that `notify` returns: none if the flag is set already,
    /// else the one that the table of sleepers gives up.
    pub open spec fn notify_waker(self) -> Option<Waker> {
        if self.notified {
            None
        } else {
            self.sleepers.notify_waker()
        }
    }

    /// The state after `notify`.
    pub open spec fn notified(self) -> StateView {
        if self.notified {
            self
        } else {
            StateView { notified: true, sleepers: self.sleepers.notified(), ..self }
        }
    }

    /// The state after the runner `id` moved a batch from the global queue to
    /// its own queue.
    pub open spec fn stole_global(self, id: usize) -> StateView {
        let own = self.local_queues[id as int].unwrap();
        let count = global_batch(
            LOCAL_QUEUE_CAPACITY as int,
            own.len() as int,
            self.queue.len() as int,
        );
        StateView {
            queue: self.queue.skip(count),
            local_queues: self.local_queues.update(
                id as int,
                Some(landed(own, self.queue.take(count))),
            ),
            ..self
        }
    }

    /// The state after the runner `id` moved a batch from the queue of `peer`
    /// to its own queue.
    pub open spec fn stole_local(self, id: usize, peer: usize) -> StateView {
        let own = self.local_queues[id as int].unwrap();
        let theirs = self.local_queues[peer as int].unwrap();
        let count = peer_batch(LOCAL_QUEUE_CAPACITY as int, own.len() as int, theirs.len() as int);
        StateView {
            local_queues: self.local_queues.update(
                id as int,
                Some(landed(own, theirs.take(count))),
            ).update(peer as int, Some(theirs.skip(count))),
            ..self
        }
    }

    /// The state with another table of sleepers, and the `notified` flag
    /// brought in line with it.
    pub open spec fn with_sleepers(self, sleepers: SleepersView) -> StateView {
        StateView { sleepers, notified: sleepers.is_notified(), ..self }
    }

    /// The waker that a ticker gets to wake when it has found a runnable and
    /// hands the search over: the one that `notify` returns if no runner is
    /// searching, none if one is.
    pub open spec fn handover_waker(self) -> Option<Waker> {
        if self.searching_count == 0 {
            self.notify_waker()
        } else {
            None
        }
    }

    /// The state after a ticker that has found a runnable handed the search
    /// over: as after `notify` if no runner is searching, unchanged if one is.
    pub open spec fn handed_over(self) -> StateView {
        if self.searching_count == 0 {
            self.notified()
        } else {
            self
        }
    }

    /// The waker that goes with the state `released(id)`.
    pub open spec fn release_waker(self, id: usize) -> Option<Waker> {
        if id != 0 && !self.sleepers.has_waker(id) {
            self.woken(id).notify_waker()
        } else {
            None
        }
    }

    /// The state after the ticker that sleeps under `id` (0 if it is awake)
    /// was dropped: it has left the table of sleepers, and if a notification
    /// had been directed at it, the notification was passed on.
    pub open spec fn released(self, id: usize) -> StateView {
        if id != 0 && !self.sleepers.has_waker(id) {
            self.woken(id).notified()
        } else {
            self.woken(id)
        }
    }

    /// The state after the ticker that sleeps under `id` woke up; `id` is 0
    /// for a ticker that is awake.
    pub open spec fn woken(self, id: usize) -> StateView {
        if id == 0 {
            self
        } else {
            self.with_sleepers(self.sleepers.removed(id))
        }
    }
}

impl State {
    pub closed spec fn view(&self) -> StateView {
        StateView {
            id: self.id,
            queue: self.queue@,
            searching_count: self.searching_count,
            local_queues: self.local_queues@,
            notified: self.notified,
            sleepers: self.sleepers@,
            active: active_entries(self.active),
            vacant: active_vacant(self.active),
        }
    }

    /// The invariant of the table of local queues.
    pub closed spec fn local_queues_wf(&self) -> bool {
        self.local_queues.wf()
    }

    /// The invariant of the state and of what it is made of.
    pub open spec fn wf(&self) -> bool {
        self@.wf() && self.local_queues_wf()
    }

    /// What the view and the invariant say of the fields.
    pub(crate) proof fn lemma_view(&self)
        ensures
            self@.id == self.id,
            self@.queue == self.queue@,
            self@.searching_count == self.searching_count,
            self@.local_queues == self.local_queues@,
            self@.notified == self.notified,
            self@.sleepers == self.sleepers@,
            self@.active == active_entries(self.active),
            self@.vacant == active_vacant(self.active),
            self.local_queues_wf() == self.local_queues.wf(),
    {
    }

    /// Creates state for a new executor: nothing is queued, no worker is
    /// registered, nobody sleeps, and the `notified` flag is set.
    pub fn new(id: usize) -> (state: State)
        ensures
            state.wf(),
            state@ == (StateView {
                id,
                queue: Seq::empty(),
                searching_count: 0,
                local_queues: Seq::empty(),
                notified: true,
                sleepers: SleepersView::empty(),
                active: no_entries(),
                vacant: 0,
            }),
    {
        State {
            id,
            queue: GlobalQueue::new(),
            searching_count: 0,
            local_queues: Registry::new(),
            notified: true,
            sleepers: Sleepers::new(),
            active: active_new(),
        }
    }

    /// The number that tells this state from others.
    pub fn id(&self) -> (id: usize)
        ensures
            id == self@.id,
    {
        self.id
    }

    /// The table of sleeping tickers.
    pub fn sleepers(&self) -> (sleepers: &Sleepers)
        ensures
            sleepers@ == self@.sleepers,
    {
        &self.sleepers
    }

    /// Returns `true` if a sleeping ticker is notified or no tickers are sleeping.
    pub fn is_notified(&self) -> (notified: bool)
        ensures
            notified == self@.notified,
    {
        self.notified
    }

    /// Count of searching runners.
    pub fn searching(&self) -> (n: usize)
        ensures
            n == self@.searching_count,
    {
        self.searching_count
    }

    /// Number of runnables in the global queue.
    pub fn queued(&self) -> (n: usize)
        ensures
            n == self@.queue.len(),
    {
        self.queue.len()
    }

    /// Appends a runnable to the global queue.
    pub fn push_global(&mut self, runnable: Runnable)
        requires
            old(self).wf(),
        ensures
            final(self).wf(),
            final(self)@ == (StateView { queue: old(self)@.queue.push(runnable), ..old(self)@ }),
    {
        self.queue.push(runnable);
    }

    /// Takes the oldest runnable of the global queue.
    pub fn pop_global(&mut self) -> (runnable: Option<Runnable>)
        requires
            old(self).wf(),
        ensures
            final(self).wf(),
            old(self)@.queue.len() == 0 ==> runnable is None && final(self)@ == old(self)@,
            old(self)@.queue.len() > 0 ==> runnable == Some(old(self)@.queue[0]) && final(self)@
                == (StateView { queue: old(self)@.queue.drop_first(), ..old(self)@ }),
    {
        self.queue.pop()
    }

    /// Notifies a sleeping ticker.
    ///
    /// If the `notified` flag is clear, sets it and takes the waker of the
    /// sleeper registered last out of the table: the caller wakes it. If the
    /// flag is set, a notification is under way or nobody sleeps, and nothing
    /// happens.
    pub fn notify(&mut self) -> (waker: Option<Waker>)
        requires
            old(self).wf(),
        ensures
            final(self).wf(),
            final(self)@.notified,
            waker == old(self)@.notify_waker(),
            final(self)@ == old(self)@.notified(),
    {
        if !self.notified {
            self.notified = true;
            proof {
                lemma_notified_wf(self.sleepers@);
            }
            self.sleepers.notify()
        } else {
            None
        }
    }

    /// Number of runnables in the local queue of the runner `id`, or `None`
    /// if no runner is registered under `id`.
    pub fn local_queued(&self, id: usize) -> (n: Option<usize>)
        ensures
            n == match (if id < self@.local_queues.len() {
                self@.local_queues[id as int]
            } else {
                None
            }) {
                Some(items) => Some(items.len() as usize),
                None => None,
            },
    {
        self.local_queues.len(id)
    }

    /// Number of registered runners.
    pub fn runners(&self) -> (n: usize)
        ensures
            n == registered_ids(self@.local_queues).len(),
    {
        self.local_queues.ids().len()
    }

    /// The ids of the registered runners, in ascending order.
    pub(crate) fn local_ids(&self) -> (ids: Vec<usize>)
        ensures
            ids@ == registered_ids(self@.local_queues),
    {
        self.local_queues.ids()
    }

    /// Registers a new local queue.
    pub(crate) fn register(&mut self) -> (id: usize)
        requires
            old(self).wf(),
        ensures
            final(self).wf(),
            id == first_vacant(old(self)@.local_queues),
            !is_registered(old(self)@.local_queues, id as int),
            is_registered(final(self)@.local_queues, id as int),
            final(self)@ == (StateView {
                local_queues: if id < old(self)@.local_queues.len() {
                    old(self)@.local_queues.update(id as int, Some(Seq::empty()))
                } else {
                    old(self)@.local_queues.push(Some(Seq::empty()))
                },
                ..old(self)@
            }),
    {
        self.local_queues.register()
    }

    /// Takes a local queue out of the table.
    pub(crate) fn unregister(&mut self, id: usize) -> (queue: LocalQueue<Runnable>)
        requires
            old(self).wf(),
            is_registered(old(self)@.local_queues, id as int),
        ensures
            final(self).wf(),
            queue.wf(),
            queue@ == old(self)@.local_queues[id as int].unwrap(),
            final(self)@ == (StateView {
                local_queues: old(self)@.local_queues.update(id as int, None),
                ..old(self)@
            }),
    {
        self.local_queues.unregister(id)
    }

    /// Queues a runnable on a local queue.
    pub(crate) fn local_push(
        &mut self,
        id: usize,
        must_yield: bool,
        runnable: Runnable,
    ) -> (spilled: Result<(), Runnable>)
        requires
            old(self).wf(),
            is_registered(old(self)@.local_queues, id as int),
        ensures
            final(self).wf(),
            old(self)@.local_queues[id as int].unwrap().len() >= LOCAL_QUEUE_CAPACITY ==> spilled
                == Err::<(), Runnable>(runnable) && final(self)@ == old(self)@,
            old(self)@.local_queues[id as int].unwrap().len() < LOCAL_QUEUE_CAPACITY ==> spilled
                == Ok::<(), Runnable>(()) && final(self)@ == (StateView {
                local_queues: old(self)@.local_queues.update(
                    id as int,
                    Some(pushed(old(self)@.local_queues[id as int].unwrap(), must_yield, runnable)),
                ),
                ..old(self)@
            }),
    {
        proof {
            self.local_queues.lemma_bounded(id as int);
        }
        self.local_queues.push(id, must_yield, runnable)
    }

    /// Takes the newest runnable of a local queue.
    pub(crate) fn local_pop(&mut self, id: usize) -> (runnable: Option<Runnable>)
        requires
            old(self).wf(),
            is_registered(old(self)@.local_queues, id as int),
        ensures
            final(self).wf(),
            old(self)@.local_queues[id as int].unwrap().len() == 0 ==> runnable is None
                && final(self)@ == old(self)@,
            old(self)@.local_queues[id as int].unwrap().len() > 0 ==> runnable == Some(
                old(self)@.local_queues[id as int].unwrap().last(),
            ) && final(self)@ == (StateView {
                local_queues: old(self)@.local_queues.update(
                    id as int,
                    Some(old(self)@.local_queues[id as int].unwrap().drop_last()),
                ),
                ..old(self)@
            }),
    {
        self.local_queues.pop(id)
    }

    /// Moves a batch from the global queue to a local queue.
    pub(crate) fn steal_global(&mut self, id: usize)
        requires
            old(self).wf(),
            is_registered(old(self)@.local_queues, id as int),
        ensures
            final(self).wf(),
            final(self)@ == old(self)@.stole_global(id),
    {
        self.local_queues.steal_global(id, &mut self.queue);
    }

    /// Moves a batch from the local queue of `peer` to that of `id`.
    pub(crate) fn steal_local(&mut self, id: usize, peer: usize)
        requires
            old(self).wf(),
            is_registered(old(self)@.local_queues, id as int),
            is_registered(old(self)@.local_queues, peer as int),
            id != peer,
        ensures
            final(self).wf(),
            final(self)@ == old(self)@.stole_local(id, peer),
    {
        self.local_queues.steal_local(id, peer);
    }

    /// Counts one more searching runner.
    pub(crate) fn begin_search(&mut self)
        requires
            old(self).wf(),
        ensures
            final(self).wf(),
            final(self)@ == (StateView {
                searching_count: if old(self)@.searching_count == usize::MAX {
                    0
                } else {
                    (old(self)@.searching_count + 1) as usize
                },
                ..old(self)@
            }),
    {
        self.searching_count = if self.searching_count == usize::MAX {
            0
        } else {
            self.searching_count + 1
        };
    }

    /// Counts one searching runner less.
    pub(crate) fn end_search(&mut self)
        requires
            old(self).wf(),
        ensures
            final(self).wf(),
            final(self)@ == (StateView {
                searching_count: if old(self)@.searching_count == 0 {
                    usize::MAX
                } else {
                    (old(self)@.searching_count - 1) as usize
                },
                ..old(self)@
            }),
    {
        self.searching_count = if self.searching_count == 0 {
            usize::MAX
        } else {
            self.searching_count - 1
        };
    }
}

} // verus!
