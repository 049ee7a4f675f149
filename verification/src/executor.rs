//! The executors: what a front-end calls to spawn tasks and to drive them.
//!
//! Nothing here polls a task or invokes a waker. An operation that finds a
//! runnable hands it out, and the caller runs it; one that notifies a sleeper
//! hands out the sleeper's waker, and the caller wakes it.

use crate::active::{
    active_contains, active_drain, active_insert, active_is_empty, active_remove,
    active_vacant_key, lists_by_key, no_entries,
};
use crate::handle::runnable_waker;
use crate::registry::registered_ids;
use crate::runner::{after_drain, polled, Runner, RunnerView};
use crate::state::{State, StateView};
use crate::ticker::{parked, Found, Ticker};
use crate::tls::{try_push_tls, Tls, TlsDataView, TlsView};
use async_task::Runnable;
use std::task::Waker;
use vstd::prelude::*;

verus! {

/// How many runnables a worker runs in a row before it lets the future that
/// it runs beside make progress.
pub const YIELD_INTERVAL: usize = 200;

/// An async executor.
#[derive(Debug)]
pub struct Executor {
    /// The executor state.
    state: State,
}

/// A thread-local executor: one whose tasks never leave the thread, and never
/// take the handoff slot.
#[derive(Debug)]
pub struct LocalExecutor {
    /// The inner executor.
    inner: Executor,
}

/// What `spawn` returns: the index of the new task in the set of active
/// tasks, and the waker of the sleeper that was notified of it, if any.
#[derive(Debug)]
pub struct Spawned {
    pub index: usize,
    pub wake: Option<Waker>,
}

/// A worker at work in `run`: a runner, and the count of the runnables that it
/// has handed out since it last stepped aside.
#[derive(Debug)]
pub struct Run {
    runner: Runner,
    streak: usize,
}

/// What a worker does next.
#[derive(Debug)]
pub enum RunStep {
    /// Run this runnable, after waking the waker that comes with it.
    Run(Found),
    /// Step aside once: let the future beside the worker make progress.
    Yield,
    /// Wait until the waker is invoked.
    Pending,
}

impl RunStep {
    /// The runnable that the step hands out, if it hands one out.
    pub open spec fn found(self) -> Option<Found> {
        match self {
            RunStep::Run(found) => Some(found),
            _ => None,
        }
    }
}

/// The state after a runnable was scheduled on the global queue: it stands at
/// the end of the queue, and a sleeper is notified.
pub open spec fn scheduled_globally(state: StateView, runnable: Runnable) -> StateView {
    (StateView { queue: state.queue.push(runnable), ..state }).notified()
}

/// The thread's data after a runnable was handed to the thread's worker.
pub open spec fn handed_off(tls: TlsView, state: usize, runnable: Runnable) -> TlsView {
    TlsView {
        data: Some(TlsDataView { state, pending_tasks: tls.pending().push(runnable) }),
        ..tls
    }
}

/// The state with `waker` registered for a new task, under the index that is
/// vacant. The index that is vacant afterwards is not determined.
pub open spec fn registered_task(state: StateView, waker: Waker, vacant: usize) -> StateView {
    StateView { active: state.active.insert(state.vacant, waker), vacant, ..state }
}

/// The state after the task with this index finished: it has left the set of
/// active tasks, and its index is the vacant one. Nothing changes if the task
/// is not in the set.
pub open spec fn completed(state: StateView, index: usize) -> StateView {
    if state.active.contains_key(index) {
        StateView { active: state.active.remove(index), vacant: index, ..state }
    } else {
        state
    }
}

impl Executor {
    /// The state of the executor.
    pub closed spec fn view(&self) -> StateView {
        self.state@
    }

    /// The invariant of the table of local queues.
    pub closed spec fn local_queues_wf(&self) -> bool {
        self.state.local_queues_wf()
    }

    /// The invariant of the executor's state.
    pub open spec fn wf(&self) -> bool {
        self@.wf() && self.local_queues_wf()
    }

    /// Creates a new executor. `id` tells its state from the states of other
    /// executors in the handoff slots of the threads.
    pub fn new(id: usize) -> (executor: Executor)
        ensures
            executor.wf(),
            executor@ == (StateView {
                id,
                queue: Seq::empty(),
                searching_count: 0,
                local_queues: Seq::empty(),
                notified: true,
                sleepers: crate::sleepers::SleepersView::empty(),
                active: no_entries(),
                vacant: 0,
            }),
    {
        Executor { state: State::new(id) }
    }

    /// The executor state.
    pub fn state(&self) -> (state: &State)
        ensures
            state@ == self@,
            state.wf() == self.wf(),
    {
        &self.state
    }

    /// Returns `true` if there are no unfinished tasks.
    pub fn is_empty(&self) -> (empty: bool)
        ensures
            empty == (self@.active == no_entries()),
    {
        proof {
            self.state.lemma_view();
        }
        active_is_empty(&self.state.active)
    }

    /// The index that the next spawned task gets. A task that is to take
    /// itself out of the set of active tasks when it finishes is built around
    /// this index and then spawned.
    pub fn next_index(&self) -> (index: usize)
        ensures
            index == self@.vacant,
            !self@.active.contains_key(index),
    {
        proof {
            self.state.lemma_view();
        }
        active_vacant_key(&self.state.active)
    }

    /// The executor state, to work on.
    pub fn state_mut(&mut self) -> (state: &mut State)
        ensures
            state@ == old(self)@,
            state.wf() == old(self).wf(),
            final(self)@ == final(state)@,
            final(self).wf() == final(state).wf(),
    {
        &mut self.state
    }

    /// Schedules a runnable task when it gets woken up.
    ///
    /// Tries to hand the runnable to the worker of this thread; `ticker` is
    /// that worker's ticker. If the thread's handoff slot is not in use for
    /// this executor, the runnable goes to the global queue and a sleeper is
    /// notified. Returns the waker to wake: that of the thread's worker in the
    /// first case, that of the notified sleeper in the second.
    pub fn schedule(&mut self, tls: &mut Tls, ticker: &mut Ticker, runnable: Runnable) -> (wake:
        Option<Waker>)
        requires
            old(self).wf(),
            old(ticker).attached(old(self)@),
        ensures
            final(self).wf(),
            final(ticker).attached(final(self)@),
            old(tls)@.drives(old(self)@.id) ==> {
                &&& final(tls)@ == handed_off(old(tls)@, old(self)@.id, runnable)
                &&& final(self)@ == old(self)@.woken(old(ticker)@)
                &&& final(ticker)@ == 0
                &&& wake == (if old(ticker)@ == 0 {
                    None
                } else {
                    old(self)@.sleepers.removed_waker(old(ticker)@)
                })
            },
            !old(tls)@.drives(old(self)@.id) ==> {
                &&& final(tls)@ == old(tls)@
                &&& final(self)@ == scheduled_globally(old(self)@, runnable)
                &&& final(ticker)@ == old(ticker)@
                &&& wake == old(self)@.notify_waker()
            },
    {
        // Try to push to the local queue. If it doesn't work, push to the global queue.
        match try_push_tls(tls, &mut self.state, ticker, runnable) {
            Ok(wake) => wake,
            Err(runnable) => {
                self.state.push_global(runnable);
                let wake = self.state.notify();
                proof {
                    if ticker@ != 0 {
                        crate::sleepers::lemma_notified_keeps_sleepers(
                            old(self)@.sleepers,
                            ticker@,
                        );
                    }
                }
                wake
            },
        }
    }

    /// Spawns a task onto the executor, given the task's runnable and the
    /// waker of that runnable.
    ///
    /// Registers `waker` in the set of active tasks, under the index that
    /// `next_index` announced, and schedules the runnable as `schedule` does.
    pub fn spawn_with(
        &mut self,
        tls: &mut Tls,
        ticker: &mut Ticker,
        runnable: Runnable,
        waker: Waker,
    ) -> (spawned: Spawned)
        requires
            old(self).wf(),
            old(ticker).attached(old(self)@),
        ensures
            final(self).wf(),
            final(ticker).attached(final(self)@),
            spawned.index == old(self)@.vacant,
            !old(self)@.active.contains_key(spawned.index),
            final(self)@.active == old(self)@.active.insert(spawned.index, waker),
            ({
                let listed = registered_task(old(self)@, waker, final(self)@.vacant);
                &&& old(tls)@.drives(old(self)@.id) ==> {
                    &&& final(tls)@ == handed_off(old(tls)@, old(self)@.id, runnable)
                    &&& final(self)@ == listed.woken(old(ticker)@)
                    &&& final(ticker)@ == 0
                    &&& spawned.wake == (if old(ticker)@ == 0 {
                        None
                    } else {
                        old(self)@.sleepers.removed_waker(old(ticker)@)
                    })
                }
                &&& !old(tls)@.drives(old(self)@.id) ==> {
                    &&& final(tls)@ == old(tls)@
                    &&& final(self)@ == scheduled_globally(listed, runnable)
                    &&& final(ticker)@ == old(ticker)@
                    &&& spawned.wake == old(self)@.notify_waker()
                }
            }),
    {
        proof {
            self.state.lemma_view();
        }
        // Register the task in the set of active tasks.
        let index = active_insert(&mut self.state.active, waker);
        proof {
            self.state.lemma_view();
            assert(self.state@ == registered_task(old(self)@, waker, self.state@.vacant));
        }
        let wake = self.schedule(tls, ticker, runnable);
        Spawned { index, wake }
    }

    /// Spawns a task onto the executor.
    ///
    /// Registers the waker of the task's runnable, which `Runnable::waker`
    /// makes, in the set of active tasks, under the index that `next_index`
    /// announced, and schedules the runnable as `schedule` does: what
    /// `spawn_with` does with that waker.
    pub fn spawn(&mut self, tls: &mut Tls, ticker: &mut Ticker, runnable: Runnable) -> (spawned:
        Spawned)
        requires
            old(self).wf(),
            old(ticker).attached(old(self)@),
        ensures
            final(self).wf(),
            final(ticker).attached(final(self)@),
            spawned.index == old(self)@.vacant,
            !old(self)@.active.contains_key(spawned.index),
            final(self)@.active.contains_key(spawned.index),
            final(self)@.active == old(self)@.active.insert(
                spawned.index,
                final(self)@.active[spawned.index],
            ),
            ({
                let listed = registered_task(
                    old(self)@,
                    final(self)@.active[spawned.index],
                    final(self)@.vacant,
                );
                &&& old(tls)@.drives(old(self)@.id) ==> {
                    &&& final(tls)@ == handed_off(old(tls)@, old(self)@.id, runnable)
                    &&& final(self)@ == listed.woken(old(ticker)@)
                    &&& final(ticker)@ == 0
                    &&& spawned.wake == (if old(ticker)@ == 0 {
                        None
                    } else {
                        old(self)@.sleepers.removed_waker(old(ticker)@)
                    })
                }
                &&& !old(tls)@.drives(old(self)@.id) ==> {
                    &&& final(tls)@ == old(tls)@
                    &&& final(self)@ == scheduled_globally(listed, runnable)
                    &&& final(ticker)@ == old(ticker)@
                    &&& spawned.wake == old(self)@.notify_waker()
                }
            }),
    {
        let waker = runnable_waker(&runnable);
        self.spawn_with(tls, ticker, runnable, waker)
    }

    /// Removes a task from the set of active tasks when its future finishes.
    ///
    /// Returns the waker that was registered for the task, for the caller to
    /// drop. Nothing happens if the task is not in the set any more, as after
    /// `shutdown`.
    pub fn complete(&mut self, index: usize) -> (waker: Option<Waker>)
        requires
            old(self).wf(),
        ensures
            final(self).wf(),
            final(self)@ == completed(old(self)@, index),
            waker == (if old(self)@.active.contains_key(index) {
                Some(old(self)@.active[index])
            } else {
                None
            }),
    {
        proof {
            self.state.lemma_view();
        }
        let waker = if active_contains(&self.state.active, index) {
            Some(active_remove(&mut self.state.active, index))
        } else {
            None
        };
        proof {
            self.state.lemma_view();
        }
        waker
    }

    /// Attempts to take a task to run if at least one is scheduled.
    ///
    /// Takes the oldest runnable of the global queue, if there is one, and
    /// notifies another ticker to pick up where this one left off, in case
    /// running the task takes a long time. The caller wakes the waker and
    /// runs the runnable. Returns `None` if the global queue is empty.
    pub fn try_tick(&mut self) -> (found: Option<Found>)
        requires
            old(self).wf(),
        ensures
            final(self).wf(),
            old(self)@.queue.len() == 0 ==> found is None && final(self)@ == old(self)@,
            old(self)@.queue.len() > 0 ==> {
                let popped = StateView { queue: old(self)@.queue.drop_first(), ..old(self)@ };
                &&& found == Some(
                    Found { runnable: old(self)@.queue[0], wake: popped.notify_waker() },
                )
                &&& final(self)@ == popped.notified()
            },
    {
        match self.state.pop_global() {
            None => None,
            Some(runnable) => {
                // Notify another ticker now to pick up where this ticker left off, just in
                // case running the task takes a long time.
                let wake = self.state.notify();
                Some(Found { runnable, wake })
            },
        }
    }

    /// Looks for a single task to run, for a caller that waits if there is
    /// none.
    ///
    /// `ticker` is a ticker that the caller creates for the wait and releases
    /// after it. Returns the oldest runnable of the global queue; if the
    /// queue is empty, the ticker goes to sleep with `waker` registered and
    /// `None` comes back: the caller calls again when the waker is invoked.
    pub fn tick(&mut self, ticker: &mut Ticker, waker: &Waker) -> (found: Option<Found>)
        requires
            old(self).wf(),
            old(ticker).attached(old(self)@),
            old(ticker)@ == 0 ==> old(self)@.sleepers.count < usize::MAX,
        ensures
            final(self).wf(),
            final(ticker).attached(final(self)@),
            old(self)@.queue.len() > 0 ==> {
                let popped = StateView { queue: old(self)@.queue.drop_first(), ..old(self)@ };
                &&& found == Some(
                    Found {
                        runnable: old(self)@.queue[0],
                        wake: popped.woken(old(ticker)@).handover_waker(),
                    },
                )
                &&& final(ticker)@ == 0
                &&& final(self)@ == popped.woken(old(ticker)@).handed_over()
            },
            old(self)@.queue.len() == 0 ==> {
                &&& found is None
                &&& final(self)@.sleepers.has_waker(final(ticker)@)
                &&& parked(old(self)@, old(ticker)@, final(self)@, final(ticker)@)
            },
    {
        ticker.runnable(&mut self.state, waker)
    }

    /// Starts a worker: creates a runner, registers its queue, and puts the
    /// thread's handoff slot in use for this executor unless it is in use.
    ///
    /// The caller then asks the worker for its next step, again and again,
    /// until the future that it drives is done; then it clears the handoff
    /// slot and retires the runner.
    pub fn run(&mut self, tls: &mut Tls) -> (run: Run)
        requires
            old(self).wf(),
        ensures
            final(self).wf(),
            run@.0.attached(final(self)@),
            run@.0 == (RunnerView {
                ticker: 0,
                ticks: 0,
                id: crate::registry::first_vacant(old(self)@.local_queues) as usize,
            }),
            run@.1 == 0,
            final(self)@ == (StateView {
                local_queues: crate::runner::registered(old(self)@.local_queues),
                ..old(self)@
            }),
            old(tls)@.data is Some ==> final(tls)@ == old(tls)@,
            old(tls)@.data is None ==> final(tls)@ == (TlsView {
                data: Some(TlsDataView { state: old(self)@.id, pending_tasks: Seq::empty() }),
                ..old(tls)@
            }),
    {
        let runner = Runner::new(&mut self.state);
        runner.set_tls_active(tls, &self.state);
        Run { runner, streak: 0 }
    }

    /// Winds the executor up, as when it is dropped: the first step.
    ///
    /// Empties the set of active tasks. Returns the wakers of the tasks that
    /// were active, in the order of their indices, for the caller to wake, so
    /// that the tasks see that they are cancelled. When they are woken, the
    /// caller drains the global queue.
    pub fn shutdown(&mut self) -> (wakers: Vec<Waker>)
        requires
            old(self).wf(),
        ensures
            final(self).wf(),
            lists_by_key(wakers@, old(self)@.active),
            final(self)@ == (StateView { active: no_entries(), vacant: 0, ..old(self)@ }),
    {
        proof {
            self.state.lemma_view();
        }
        let wakers = active_drain(&mut self.state.active);
        proof {
            self.state.lemma_view();
        }
        wakers
    }

    /// Empties the global queue: the last step of winding up, after the
    /// wakers that `shutdown` handed out were woken.
    ///
    /// Returns the runnables that were queued, oldest first, with those that
    /// the wakes have scheduled again among them, for the caller to drop.
    pub fn drain(&mut self) -> (runnables: Vec<Runnable>)
        requires
            old(self).wf(),
        ensures
            final(self).wf(),
            runnables@ == old(self)@.queue,
            final(self)@ == (StateView { queue: Seq::empty(), ..old(self)@ }),
    {
        let queued = self.state.queue.len();
        let runnables = self.state.queue.take(queued);
        proof {
            self.state.lemma_view();
            old(self).state.lemma_view();
            assert(old(self)@.queue.take(queued as int) =~= old(self)@.queue);
            assert(old(self)@.queue.skip(queued as int) =~= Seq::<Runnable>::empty());
        }
        runnables
    }
}

impl Run {
    /// The runner, and the count of the runnables handed out since the worker
    /// last stepped aside.
    pub closed spec fn view(&self) -> (RunnerView, usize) {
        (self.runner@, self.streak)
    }

    /// The worker's runner.
    pub fn runner(&self) -> (runner: &Runner)
        ensures
            runner@ == self@.0,
    {
        &self.runner
    }

    /// The ticker of the worker's runner, to work on.
    pub fn ticker_mut(&mut self) -> (ticker: &mut Ticker)
        ensures
            ticker@ == old(self)@.0.ticker,
            final(self)@ == (
                RunnerView { ticker: final(ticker)@, ..old(self)@.0 },
                old(self)@.1,
            ),
    {
        self.runner.ticker_mut()
    }

    /// Takes the worker's runner out of service, as `Runner::retire` does.
    pub fn retire(&mut self, executor: &mut Executor) -> (wakers: (Option<Waker>, Option<Waker>))
        requires
            old(executor).wf(),
            old(self)@.0.attached(old(executor)@),
        ensures
            final(executor).wf(),
            final(self)@ == (RunnerView { ticker: 0, ..old(self)@.0 }, old(self)@.1),
            !crate::registry::is_registered(
                final(executor)@.local_queues,
                old(self)@.0.id as int,
            ),
            final(executor)@ == crate::runner::retired(old(executor)@, old(self)@.0),
            wakers == crate::runner::retire_wakers(old(executor)@, old(self)@.0),
    {
        self.runner.retire(&mut executor.state)
    }

    /// Settles what the worker does next.
    ///
    /// After `YIELD_INTERVAL` runnables in a row the worker steps aside once,
    /// so that the future beside it makes progress even if the queues never
    /// run dry. Otherwise it looks for the next runnable, as
    /// `Runner::runnable` does: it hands one out, or it waits.
    pub fn next(&mut self, executor: &mut Executor, tls: &mut Tls, waker: &Waker) -> (step: RunStep)
        requires
            old(executor).wf(),
            old(self)@.0.attached(old(executor)@),
            old(self)@.0.ticker == 0 ==> old(executor)@.sleepers.count < usize::MAX,
        ensures
            final(executor).wf(),
            final(self)@.0.attached(final(executor)@),
            final(self)@.1 <= YIELD_INTERVAL,
            old(self)@.1 >= YIELD_INTERVAL ==> {
                &&& step is Yield
                &&& final(self)@ == (old(self)@.0, 0usize)
                &&& final(executor)@ == old(executor)@
                &&& final(tls)@ == old(tls)@
            },
            old(self)@.1 < YIELD_INTERVAL ==> {
                &&& step !is Yield
                &&& final(self)@.1 == (if step is Run {
                    old(self)@.1 + 1
                } else {
                    old(self)@.1 as int
                })
                &&& final(tls)@ == (TlsView { just_yielded: false, ..old(tls)@.collected() })
                &&& exists|start: int|
                    0 <= start < registered_ids(old(executor)@.local_queues).len()
                        && #[trigger] polled(
                        after_drain(
                            old(executor)@,
                            old(self)@.0.id,
                            old(tls)@.pending(),
                            old(tls)@.just_yielded,
                        ),
                        old(self)@.0,
                        start,
                        final(executor)@,
                        final(self)@.0,
                        step.found(),
                    )
            },
    {
        if self.streak >= YIELD_INTERVAL {
            self.streak = 0;
            return RunStep::Yield;
        }
        let found = self.runner.runnable(&mut executor.state, tls, waker);
        let ghost settled = after_drain(
            old(executor)@,
            old(self)@.0.id,
            old(tls)@.pending(),
            old(tls)@.just_yielded,
        );
        let ghost start = choose|start: int|
            0 <= start < registered_ids(old(executor)@.local_queues).len() && #[trigger] polled(
                settled,
                old(self)@.0,
                start,
                executor@,
                self@.0,
                found,
            );
        match found {
            Some(found) => {
                self.streak += 1;
                assert(polled(settled, old(self)@.0, start, executor@, self@.0, Some(found)));
                RunStep::Run(found)
            },
            None => {
                assert(polled(settled, old(self)@.0, start, executor@, self@.0, None));
                RunStep::Pending
            },
        }
    }
}

impl LocalExecutor {
    /// The state of the executor.
    pub closed spec fn view(&self) -> StateView {
        self.inner@
    }

    /// The invariant of the table of local queues.
    pub closed spec fn local_queues_wf(&self) -> bool {
        self.inner.local_queues_wf()
    }

    /// The invariant of the executor's state.
    pub open spec fn wf(&self) -> bool {
        self@.wf() && self.local_queues_wf()
    }

    /// Creates a single-threaded executor.
    pub fn new(id: usize) -> (executor: LocalExecutor)
        ensures
            executor.wf(),
            executor@ == (StateView {
                id,
                queue: Seq::empty(),
                searching_count: 0,
                local_queues: Seq::empty(),
                notified: true,
                sleepers: crate::sleepers::SleepersView::empty(),
                active: no_entries(),
                vacant: 0,
            }),
    {
        LocalExecutor { inner: Executor::new(id) }
    }

    /// The inner executor.
    pub fn inner(&self) -> (inner: &Executor)
        ensures
            inner@ == self@,
            inner.wf() == self.wf(),
    {
        &self.inner
    }

    /// The inner executor, to work on.
    pub fn inner_mut(&mut self) -> (inner: &mut Executor)
        ensures
            inner@ == old(self)@,
            inner.wf() == old(self).wf(),
            final(self)@ == final(inner)@,
            final(self).wf() == final(inner).wf(),
    {
        &mut self.inner
    }

    /// Returns `true` if there are no unfinished tasks.
    pub fn is_empty(&self) -> (empty: bool)
        ensures
            empty == (self@.active == no_entries()),
    {
        self.inner.is_empty()
    }

    /// The index that the next spawned task gets.
    pub fn next_index(&self) -> (index: usize)
        ensures
            index == self@.vacant,
            !self@.active.contains_key(index),
    {
        self.inner.next_index()
    }

    /// Schedules a runnable task when it gets woken up: the runnable goes to
    /// the global queue, and a sleeper is notified, whose waker is returned
    /// for the caller to wake. The handoff slot is never tried.
    pub fn schedule(&mut self, runnable: Runnable) -> (wake: Option<Waker>)
        requires
            old(self).wf(),
        ensures
            final(self).wf(),
            final(self)@ == scheduled_globally(old(self)@, runnable),
            wake == old(self)@.notify_waker(),
    {
        self.inner.state.push_global(runnable);
        self.inner.state.notify()
    }

    /// Spawns a task onto the executor, given the task's runnable and the
    /// waker of that runnable.
    ///
    /// Registers `waker` in the set of active tasks, under the index that
    /// `next_index` announced, and schedules the runnable as `schedule` does.
    pub fn spawn_with(&mut self, runnable: Runnable, waker: Waker) -> (spawned: Spawned)
        requires
            old(self).wf(),
        ensures
            final(self).wf(),
            spawned.index == old(self)@.vacant,
            !old(self)@.active.contains_key(spawned.index),
            final(self)@.active == old(self)@.active.insert(spawned.index, waker),
            final(self)@ == scheduled_globally(
                registered_task(old(self)@, waker, final(self)@.vacant),
                runnable,
            ),
            spawned.wake == old(self)@.notify_waker(),
    {
        proof {
            self.inner.state.lemma_view();
        }
        // Register the task in the set of active tasks.
        let index = active_insert(&mut self.inner.state.active, waker);
        proof {
            self.inner.state.lemma_view();
            assert(self.inner.state@ == registered_task(
                old(self)@,
                waker,
                self.inner.state@.vacant,
            ));
        }
        let wake = self.schedule(runnable);
        Spawned { index, wake }
    }

    /// Spawns a task onto the executor.
    ///
    /// Registers the waker of the task's runnable, which `Runnable::waker`
    /// makes, in the set of active tasks, under the index that `next_index`
    /// announced, and schedules the runnable as `schedule` does: what
    /// `spawn_with` does with that waker.
    pub fn spawn(&mut self, runnable: Runnable) -> (spawned: Spawned)
        requires
            old(self).wf(),
        ensures
            final(self).wf(),
            spawned.index == old(self)@.vacant,
            !old(self)@.active.contains_key(spawned.index),
            final(self)@.active.contains_key(spawned.index),
            final(self)@.active == old(self)@.active.insert(
                spawned.index,
                final(self)@.active[spawned.index],
            ),
            final(self)@ == scheduled_globally(
                registered_task(
                    old(self)@,
                    final(self)@.active[spawned.index],
                    final(self)@.vacant,
                ),
                runnable,
            ),
            spawned.wake == old(self)@.notify_waker(),
    {
        let waker = runnable_waker(&runnable);
        self.spawn_with(runnable, waker)
    }

    /// Removes a task from the set of active tasks when its future finishes,
    /// as `Executor::complete` does.
    pub fn complete(&mut self, index: usize) -> (waker: Option<Waker>)
        requires
            old(self).wf(),
        ensures
            final(self).wf(),
            final(self)@ == completed(old(self)@, index),
            waker == (if old(self)@.active.contains_key(index) {
                Some(old(self)@.active[index])
            } else {
                None
            }),
    {
        self.inner.complete(index)
    }

    /// Attempts to take a task to run if at least one is scheduled.
    pub fn try_tick(&mut self) -> (found: Option<Found>)
        requires
            old(self).wf(),
        ensures
            final(self).wf(),
            old(self)@.queue.len() == 0 ==> found is None && final(self)@ == old(self)@,
            old(self)@.queue.len() > 0 ==> {
                let popped = StateView { queue: old(self)@.queue.drop_first(), ..old(self)@ };
                &&& found == Some(
                    Found { runnable: old(self)@.queue[0], wake: popped.notify_waker() },
                )
                &&& final(self)@ == popped.notified()
            },
    {
        self.inner.try_tick()
    }

    /// Looks for a single task to run, for a caller that waits if there is
    /// none.
    pub fn tick(&mut self, ticker: &mut Ticker, waker: &Waker) -> (found: Option<Found>)
        requires
            old(self).wf(),
            old(ticker).attached(old(self)@),
            old(ticker)@ == 0 ==> old(self)@.sleepers.count < usize::MAX,
        ensures
            final(self).wf(),
            final(ticker).attached(final(self)@),
            old(self)@.queue.len() > 0 ==> {
                let popped = StateView { queue: old(self)@.queue.drop_first(), ..old(self)@ };
                &&& found == Some(
                    Found {
                        runnable: old(self)@.queue[0],
                        wake: popped.woken(old(ticker)@).handover_waker(),
                    },
                )
                &&& final(ticker)@ == 0
                &&& final(self)@ == popped.woken(old(ticker)@).handed_over()
            },
            old(self)@.queue.len() == 0 ==> {
                &&& found is None
                &&& final(self)@.sleepers.has_waker(final(ticker)@)
                &&& parked(old(self)@, old(ticker)@, final(self)@, final(ticker)@)
            },
    {
        self.inner.tick(ticker, waker)
    }

    /// Starts a worker, as `Executor::run` does.
    pub fn run(&mut self, tls: &mut Tls) -> (run: Run)
        requires
            old(self).wf(),
        ensures
            final(self).wf(),
            run@.0.attached(final(self)@),
            run@.0 == (RunnerView {
                ticker: 0,
                ticks: 0,
                id: crate::registry::first_vacant(old(self)@.local_queues) as usize,
            }),
            run@.1 == 0,
            final(self)@ == (StateView {
                local_queues: crate::runner::registered(old(self)@.local_queues),
                ..old(self)@
            }),
            old(tls)@.data is Some ==> final(tls)@ == old(tls)@,
            old(tls)@.data is None ==> final(tls)@ == (TlsView {
                data: Some(TlsDataView { state: old(self)@.id, pending_tasks: Seq::empty() }),
                ..old(tls)@
            }),
    {
        self.inner.run(tls)
    }
}

} // verus!
