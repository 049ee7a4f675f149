//! Tickers: the consumers that wait for the next runnable.
//!
//! A ticker is awake, or it sleeps under an id of the table of sleepers. A
//! sleeping ticker is unnotified while its waker is in the table and notified
//! once a notification has taken the waker out.

use crate::handle::{clone_waker, will_wake};
use crate::sleepers::lemma_refreshed_wf;
use crate::state::{State, StateView};
use async_task::Runnable;
use std::task::Waker;
use vstd::prelude::*;

verus! {

/// Runs task one by one.
#[derive(Debug)]
pub struct Ticker {
    /// Set to a non-zero sleeper id when in sleeping state.
    sleeping: usize,
}

/// A runnable that a ticker found, and the waker of the ticker that is to
/// search next, if one was notified. The caller wakes the waker, then runs
/// the runnable.
#[derive(Debug)]
pub struct Found {
    pub runnable: Runnable,
    pub wake: Option<Waker>,
}

/// What a ticker does with the result of one search.
#[derive(Debug)]
pub enum Step {
    /// A runnable was found: the ticker is awake and hands it out.
    Ready(Found),
    /// Nothing was found and the ticker has just registered its waker:
    /// search once more, since work may have arrived in between.
    Retry,
    /// Nothing was found and the ticker sleeps unnotified: wait for the waker.
    Pending,
}

/// True if `post` is the state after the ticker that slept under `id` (0 if
/// it was awake) went to sleep, `went` is what `sleep` returned, and `now` is
/// the id under which the ticker sleeps afterwards.
///
/// A ticker that was awake gets the table's next id. One that was notified
/// registers again under its id. In both cases `sleep` returns `true` and the
/// `notified` flag follows the table. One that slept unnotified keeps its
/// place in the table, and `sleep` returns `false`. The waker that the table
/// holds for the ticker afterwards is a copy of the one given or, in the last
/// case, the one it had.
pub open spec fn slept(pre: StateView, id: usize, post: StateView, now: usize, went: bool) -> bool {
    if id == 0 {
        &&& went
        &&& now == pre.sleepers.next_id()
        &&& post == pre.with_sleepers(pre.sleepers.inserted(post.sleepers.wakers.last().1))
    } else if pre.sleepers.has_waker(id) {
        &&& !went
        &&& now == id
        &&& post == (StateView {
            sleepers: pre.sleepers.refreshed(
                id,
                post.sleepers.wakers[pre.sleepers.position(id)].1,
            ),
            ..pre
        })
    } else {
        &&& went
        &&& now == id
        &&& post == pre.with_sleepers(
            pre.sleepers.reregistered(id, post.sleepers.wakers.last().1),
        )
    }
}

/// True if `post`, `now` and `went` are the state, the ticker's id and the
/// result after the ticker that slept under `id` (0 if it was awake) went to
/// sleep for a poll, given what was learnt of the waker of the poll: `copy`,
/// a copy of it, and `same`, the answer to the question whether the waker
/// that the ticker has in the table wakes the same task.
///
/// A ticker that was awake gets the table's next id, with `copy` as its
/// waker. One that was notified registers `copy` under its id. In both cases
/// the result is `true` and the `notified` flag follows the table. One that
/// slept unnotified keeps its place in the table, with the waker it had if
/// `same`, and with `copy` if not; the result is `false`.
pub open spec fn slept_with(
    pre: StateView,
    id: usize,
    same: bool,
    copy: Option<Waker>,
    post: StateView,
    now: usize,
    went: bool,
) -> bool {
    if id == 0 {
        &&& went
        &&& now == pre.sleepers.next_id()
        &&& post == pre.with_sleepers(pre.sleepers.inserted(copy->0))
    } else if pre.sleepers.has_waker(id) {
        &&& !went
        &&& now == id
        &&& post == (if same {
            pre
        } else {
            StateView { sleepers: pre.sleepers.refreshed(id, copy->0), ..pre }
        })
    } else {
        &&& went
        &&& now == id
        &&& post == pre.with_sleepers(pre.sleepers.reregistered(id, copy->0))
    }
}

/// True if `same` and `copy` are enough to go to sleep on: a copy of the
/// waker of the poll is at hand unless the ticker sleeps with a waker that
/// wakes the same task.
pub open spec fn enough(state: StateView, id: usize, same: bool, copy: Option<Waker>) -> bool {
    copy is None ==> id != 0 && state.sleepers.has_waker(id) && same
}

/// Going to sleep with a copy of the waker is going to sleep.
pub proof fn lemma_slept_with(
    pre: StateView,
    id: usize,
    same: bool,
    copy: Option<Waker>,
    post: StateView,
    now: usize,
    went: bool,
)
    requires
        pre.wf(),
        id == 0 || pre.sleepers.is_sleeping(id),
        enough(pre, id, same, copy),
        slept_with(pre, id, same, copy, post, now, went),
    ensures
        slept(pre, id, post, now, went),
{
    let table = pre.sleepers;
    if id != 0 && table.has_waker(id) {
        let at = table.position(id);
        assert(0 <= at < table.ids().len() && table.ids()[at] == id);
        if same {
            assert(table.wakers =~= table.refreshed(id, table.wakers[at].1).wakers);
        }
    }
}

/// True if `post` is the state after the ticker that slept under `id` (0 if
/// it was awake) found nothing and lies down to wait, and `now` is the id
/// under which it sleeps: it has the table's next id if it was awake, it is
/// registered in the table, the other sleepers have their wakers as before,
/// the `notified` flag follows the table, and nothing else has changed.
pub open spec fn parked(pre: StateView, id: usize, post: StateView, now: usize) -> bool {
    let before = pre.sleepers;
    let after = post.sleepers;
    &&& now == (if id == 0 {
        before.next_id()
    } else {
        id
    })
    &&& after.count == (if id == 0 {
        before.count + 1
    } else {
        before.count
    })
    &&& after.free_ids == (if id == 0 && before.free_ids.len() > 0 {
        before.free_ids.drop_last()
    } else {
        before.free_ids
    })
    &&& after.ids() == (if id != 0 && before.has_waker(id) {
        before.ids()
    } else {
        before.ids().push(now)
    })
    &&& forall|i: int|
        0 <= i < before.wakers.len() && before.wakers[i].0 != now ==> #[trigger] after.wakers[i]
            == before.wakers[i]
    &&& post == pre.with_sleepers(after)
}

/// One `sleep` parks the ticker.
pub proof fn lemma_slept_parks(pre: StateView, id: usize, post: StateView, now: usize, went: bool)
    requires
        pre.wf(),
        id == 0 || pre.sleepers.is_sleeping(id),
        id == 0 ==> pre.sleepers.count < usize::MAX,
        slept(pre, id, post, now, went),
    ensures
        parked(pre, id, post, now),
{
    let before = pre.sleepers;
    if id == 0 {
        let table = before.inserted(post.sleepers.wakers.last().1);
        assert(table.ids() =~= before.ids().push(now));
        assert(!before.has_waker(0)) by {
            if before.has_waker(0) {
                let i = before.ids().index_of(0);
                assert(0 <= i < before.ids().len() && before.ids()[i] == 0);
            }
        }
    } else if before.has_waker(id) {
        let table = before.refreshed(id, post.sleepers.wakers[before.position(id)].1);
        lemma_refreshed_wf(before, id, post.sleepers.wakers[before.position(id)].1);
        let k = before.position(id);
        assert(0 <= k < before.ids().len() && before.ids()[k] == id);
        assert(table.is_notified() == before.is_notified());
    } else {
        let table = before.reregistered(id, post.sleepers.wakers.last().1);
        assert(table.ids() =~= before.ids().push(now));
    }
}

/// A ticker that is parked stays parked when it calls `sleep` once more.
pub proof fn lemma_parked_again(
    pre: StateView,
    id: usize,
    mid: StateView,
    there: usize,
    post: StateView,
    now: usize,
)
    requires
        pre.wf(),
        mid.wf(),
        parked(pre, id, mid, there),
        mid.sleepers.has_waker(there),
        there != 0,
        slept(mid, there, post, now, false),
    ensures
        parked(pre, id, post, now),
{
    let table = mid.sleepers;
    let k = table.position(there);
    assert(0 <= k < table.ids().len() && table.ids()[k] == there);
    lemma_refreshed_wf(table, there, post.sleepers.wakers[k].1);
    assert(post.sleepers.is_notified() == table.is_notified());
    assert forall|i: int|
        0 <= i < pre.sleepers.wakers.len() && pre.sleepers.wakers[i].0
            != now implies #[trigger] post.sleepers.wakers[i] == pre.sleepers.wakers[i] by {
        assert(mid.sleepers.wakers[i] == pre.sleepers.wakers[i]);
        assert(table.ids()[i] == pre.sleepers.wakers[i].0);
    }
}

impl Ticker {
    /// The id under which the ticker sleeps, or 0 if it is awake.
    pub closed spec fn view(&self) -> usize {
        self.sleeping
    }

    /// True if the ticker can be a ticker of `state`: it is awake, or its id
    /// is the id of a sleeper there.
    pub open spec fn attached(&self, state: StateView) -> bool {
        self@ == 0 || state.sleepers.is_sleeping(self@)
    }

    /// Creates a ticker, awake.
    pub fn new() -> (ticker: Ticker)
        ensures
            ticker@ == 0,
    {
        Ticker { sleeping: 0 }
    }

    /// The id under which the ticker sleeps, or 0 if it is awake.
    pub fn sleeping(&self) -> (id: usize)
        ensures
            id == self@,
    {
        self.sleeping
    }

    /// Returns `true` if the ticker is awake or its id is the id of a sleeper
    /// of `state`: what the other operations ask of a ticker.
    pub fn is_attached(&self, state: &State) -> (attached: bool)
        ensures
            attached == self.attached(state@),
    {
        self.sleeping == 0 || state.sleepers().is_sleeping(self.sleeping)
    }

    /// Finds out what going to sleep takes to know of the waker of a poll: if
    /// the ticker sleeps with a waker in the table, whether that one wakes the
    /// same task, as far as `Waker::will_wake` can tell; and, unless it does,
    /// a copy of the waker of the poll, made by `Waker::clone`.
    fn ask(&self, state: &State, waker: &Waker) -> (answer: (bool, Option<Waker>))
        requires
            state.wf(),
        ensures
            enough(state@, self@, answer.0, answer.1),
            !answer.0 ==> answer.1 is Some,
    {
        proof {
            state.lemma_view();
        }
        let place = if self.sleeping == 0 {
            None
        } else {
            state.sleepers.find(self.sleeping)
        };
        let same = match place {
            Some(at) => will_wake(state.sleepers.waker_at(at), waker),
            None => false,
        };
        if same {
            (true, None)
        } else {
            (false, Some(clone_waker(waker)))
        }
    }

    /// Moves the ticker into sleeping and unnotified state, given what was
    /// learnt of the waker of the poll.
    ///
    /// `copy` is a copy of that waker; the table of sleepers holds it for the
    /// ticker afterwards, unless the ticker sleeps with a waker already and
    /// `same` says that this one wakes the same task: then it stays.
    /// Returns `false` if the ticker was already sleeping and unnotified.
    pub fn sleep_with(&mut self, state: &mut State, same: bool, copy: Option<Waker>) -> (went: bool)
        requires
            old(state).wf(),
            old(self).attached(old(state)@),
            old(self)@ == 0 ==> old(state)@.sleepers.count < usize::MAX,
            enough(old(state)@, old(self)@, same, copy),
        ensures
            final(state).wf(),
            final(self)@ != 0,
            final(state)@.sleepers.has_waker(final(self)@),
            final(state)@.sleepers.wakers.len() <= final(state)@.sleepers.count,
            final(state)@.notified == final(state)@.sleepers.is_notified(),
            slept_with(old(state)@, old(self)@, same, copy, final(state)@, final(self)@, went),
            final(state)@.sleepers.wakers[final(state)@.sleepers.position(final(self)@)].1 == (
            if old(self)@ != 0 && old(state)@.sleepers.has_waker(old(self)@) && same {
                old(state)@.sleepers.wakers[old(state)@.sleepers.position(old(self)@)].1
            } else {
                copy->0
            }),
    {
        proof {
            state.lemma_view();
        }
        if self.sleeping == 0 {
            // Move to sleeping state.
            self.sleeping = state.sleepers.register(copy.unwrap());
        } else {
            // Already sleeping, check if notified.
            match state.sleepers.find(self.sleeping) {
                Some(at) => {
                    state.sleepers.refresh(at, same, copy);
                    proof {
                        state.lemma_view();
                        if !same {
                            lemma_refreshed_wf(old(state)@.sleepers, self.sleeping, copy->0);
                            crate::sleepers::lemma_position(
                                state@.sleepers,
                                self.sleeping,
                                at as int,
                            );
                        }
                    }
                    return false;
                },
                None => {
                    state.sleepers.reregister(self.sleeping, copy.unwrap());
                },
            }
        }
        state.notified = state.sleepers.is_notified();
        proof {
            state.lemma_view();
            let last = state@.sleepers.wakers.len() - 1;
            assert(state@.sleepers.ids()[last] == self.sleeping);
            crate::sleepers::lemma_position(state@.sleepers, self.sleeping, last);
        }
        true
    }

    /// Moves the ticker into sleeping and unnotified state.
    ///
    /// Returns `false` if the ticker was already sleeping and unnotified. The
    /// table of sleepers is asked about the waker that it holds for the
    /// ticker, and a copy of `waker` is made where one is needed; with the
    /// answer and the copy the ticker goes to sleep as `sleep_with` says.
    pub fn sleep(&mut self, state: &mut State, waker: &Waker) -> (went: bool)
        requires
            old(state).wf(),
            old(self).attached(old(state)@),
            old(self)@ == 0 ==> old(state)@.sleepers.count < usize::MAX,
        ensures
            final(state).wf(),
            final(self)@ != 0,
            final(state)@.sleepers.has_waker(final(self)@),
            final(state)@.sleepers.wakers.len() <= final(state)@.sleepers.count,
            final(state)@.notified == final(state)@.sleepers.is_notified(),
            slept(old(state)@, old(self)@, final(state)@, final(self)@, went),
    {
        let answer = self.ask(state, waker);
        let went = self.sleep_with(state, answer.0, answer.1);
        proof {
            lemma_slept_with(
                old(state)@,
                old(self)@,
                answer.0,
                answer.1,
                state@,
                self@,
                went,
            );
        }
        went
    }

    /// Moves the ticker into woken state.
    ///
    /// Returns the waker that the ticker had registered, or `None` if it was
    /// awake or a notification had taken the waker.
    pub fn wake(&mut self, state: &mut State) -> (waker: Option<Waker>)
        requires
            old(state).wf(),
            old(self).attached(old(state)@),
        ensures
            final(state).wf(),
            final(self)@ == 0,
            final(state)@ == old(state)@.woken(old(self)@),
            old(self)@ == 0 ==> waker is None,
            old(self)@ != 0 ==> waker == old(state)@.sleepers.removed_waker(old(self)@),
    {
        proof {
            state.lemma_view();
        }
        let id = self.sleeping;
        self.sleeping = 0;
        if id != 0 {
            let waker = state.sleepers.remove(id);
            state.notified = state.sleepers.is_notified();
            proof {
                state.lemma_view();
            }
            waker
        } else {
            None
        }
    }

    /// Removes the ticker from the table of sleepers when it is given up.
    ///
    /// If the ticker was notified, the notification is passed on to another
    /// sleeper, whose waker is returned for the caller to wake.
    pub fn release(&mut self, state: &mut State) -> (waker: Option<Waker>)
        requires
            old(state).wf(),
            old(self).attached(old(state)@),
        ensures
            final(state).wf(),
            final(self)@ == 0,
            final(state)@ == old(state)@.released(old(self)@),
            waker == old(state)@.release_waker(old(self)@),
    {
        let id = self.sleeping;
        if id != 0 {
            let notified = self.wake(state).is_none();
            // If this ticker was notified, then notify another ticker.
            if notified {
                return state.notify();
            }
        }
        None
    }

    /// Settles what the ticker does after one search for a runnable, given
    /// what was learnt of the waker of the poll.
    ///
    /// With a runnable found, the ticker wakes up and, if no runner is
    /// searching, notifies another ticker to search in its place. With
    /// nothing found it goes to sleep as `sleep_with` says: the step is
    /// `Pending` if it slept unnotified already, and `Retry` if it has only
    /// now registered its waker.
    pub fn settle(
        &mut self,
        state: &mut State,
        found: Option<Runnable>,
        same: bool,
        copy: Option<Waker>,
    ) -> (step: Step)
        requires
            old(state).wf(),
            old(self).attached(old(state)@),
            found is None && old(self)@ == 0 ==> old(state)@.sleepers.count < usize::MAX,
            found is None ==> enough(old(state)@, old(self)@, same, copy),
        ensures
            final(state).wf(),
            final(self).attached(final(state)@),
            found matches Some(runnable) ==> {
                &&& step == Step::Ready(
                    Found {
                        runnable,
                        wake: old(state)@.woken(old(self)@).handover_waker(),
                    },
                )
                &&& final(self)@ == 0
                &&& final(state)@ == old(state)@.woken(old(self)@).handed_over()
            },
            found is None ==> {
                &&& step !is Ready
                &&& final(state)@.sleepers.has_waker(final(self)@)
                &&& slept_with(
                    old(state)@,
                    old(self)@,
                    same,
                    copy,
                    final(state)@,
                    final(self)@,
                    step is Retry,
                )
            },
    {
        match found {
            None => {
                // Move to sleeping and unnotified state.
                if !self.sleep_with(state, same, copy) {
                    // If already sleeping and unnotified, return.
                    Step::Pending
                } else {
                    Step::Retry
                }
            },
            Some(runnable) => {
                // Wake up.
                self.wake(state);
                // Sibling notification.
                let wake = if state.searching() == 0 {
                    state.notify()
                } else {
                    None
                };
                Step::Ready(Found { runnable, wake })
            },
        }
    }

    /// Settles what the ticker does after one search for a runnable.
    ///
    /// With a runnable found, the ticker wakes up and, if no runner is
    /// searching, notifies another ticker to search in its place. With
    /// nothing found it goes to sleep: the step is `Pending` if it slept
    /// unnotified already, and `Retry` if it has only now registered its
    /// waker. What is needed of `waker` for that is asked of
    /// `Waker::will_wake` and `Waker::clone`; the rest is what `settle` does.
    pub fn runnable_with(
        &mut self,
        state: &mut State,
        waker: &Waker,
        found: Option<Runnable>,
    ) -> (step: Step)
        requires
            old(state).wf(),
            old(self).attached(old(state)@),
            found is None && old(self)@ == 0 ==> old(state)@.sleepers.count < usize::MAX,
        ensures
            final(state).wf(),
            final(self).attached(final(state)@),
            found matches Some(runnable) ==> {
                &&& step == Step::Ready(
                    Found {
                        runnable,
                        wake: old(state)@.woken(old(self)@).handover_waker(),
                    },
                )
                &&& final(self)@ == 0
                &&& final(state)@ == old(state)@.woken(old(self)@).handed_over()
            },
            found is None ==> {
                &&& step !is Ready
                &&& final(state)@.sleepers.has_waker(final(self)@)
                &&& slept(old(state)@, old(self)@, final(state)@, final(self)@, step is Retry)
            },
    {
        match found {
            None => {
                let answer = self.ask(state, waker);
                let step = self.settle(state, None, answer.0, answer.1);
                proof {
                    lemma_slept_with(
                        old(state)@,
                        old(self)@,
                        answer.0,
                        answer.1,
                        state@,
                        self@,
                        step is Retry,
                    );
                }
                step
            },
            Some(runnable) => self.settle(state, Some(runnable), true, None),
        }
    }

    /// Looks for the next runnable in the global queue.
    ///
    /// Returns the oldest runnable of the global queue, with the ticker
    /// awake; or, if the queue is empty, `None`, with the ticker asleep and
    /// `waker` registered: the caller then waits until the waker is invoked
    /// and calls again.
    pub fn runnable(&mut self, state: &mut State, waker: &Waker) -> (found: Option<Found>)
        requires
            old(state).wf(),
            old(self).attached(old(state)@),
            old(self)@ == 0 ==> old(state)@.sleepers.count < usize::MAX,
        ensures
            final(state).wf(),
            final(self).attached(final(state)@),
            old(state)@.queue.len() > 0 ==> {
                let popped = StateView { queue: old(state)@.queue.drop_first(), ..old(state)@ };
                &&& found == Some(
                    Found {
                        runnable: old(state)@.queue[0],
                        wake: popped.woken(old(self)@).handover_waker(),
                    },
                )
                &&& final(self)@ == 0
                &&& final(state)@ == popped.woken(old(self)@).handed_over()
            },
            old(state)@.queue.len() == 0 ==> {
                &&& found is None
                &&& final(state)@.sleepers.has_waker(final(self)@)
                &&& parked(old(state)@, old(self)@, final(state)@, final(self)@)
            },
    {
        let ghost mut retried = false;
        loop
            invariant
                state.wf(),
                self.attached(state@),
                self@ == 0 ==> state@.sleepers.count < usize::MAX,
                old(state).wf(),
                old(self).attached(old(state)@),
                old(self)@ == 0 ==> old(state)@.sleepers.count < usize::MAX,
                !retried ==> state@ == old(state)@ && self@ == old(self)@,
                retried ==> old(state)@.queue.len() == 0 && self@ != 0
                    && state@.sleepers.has_waker(self@) && parked(
                    old(state)@,
                    old(self)@,
                    state@,
                    self@,
                ),
            decreases
                    (if retried {
                        0int
                    } else {
                        1int
                    }),
        {
            let ghost before = state@;
            let ghost id = self@;
            let found = state.pop_global();
            match self.runnable_with(state, waker, found) {
                Step::Ready(found) => {
                    return Some(found);
                },
                Step::Pending => {
                    proof {
                        if retried {
                            lemma_parked_again(old(state)@, old(self)@, before, id, state@, self@);
                        } else {
                            lemma_slept_parks(before, id, state@, self@, false);
                        }
                    }
                    return None;
                },
                Step::Retry => {
                    proof {
                        lemma_slept_parks(before, id, state@, self@, true);
                        retried = true;
                    }
                },
            }
        }
    }
}

} // verus!
