//! What a thread keeps for itself while it drives an executor: the handoff
//! slot, through which a runnable scheduled on the thread reaches the
//! thread's own worker without passing through the shared queues, and the
//! note of whether the task that ran last has yielded.
//!
//! The front-end keeps one `Tls` per native thread.

use crate::state::{State, StateView};
use crate::ticker::Ticker;
use async_task::Runnable;
use std::task::Waker;
use vstd::prelude::*;

verus! {

/// The content of a handoff slot that is in use.
#[derive(Debug)]
pub struct TlsData {
    /// The id of the state that the thread drives.
    state: usize,
    /// Runnables handed to the thread's worker and not collected yet.
    pending_tasks: Vec<Runnable>,
}

/// What a thread keeps for itself.
#[derive(Debug)]
pub struct Tls {
    /// The handoff slot; `None` while the thread drives no executor.
    data: Option<TlsData>,
    /// True if the task that the thread ran last was woken while it ran.
    just_yielded: bool,
}

/// What a handoff slot in use holds.
pub struct TlsDataView {
    pub state: usize,
    pub pending_tasks: Seq<Runnable>,
}

/// What a `Tls` holds.
pub struct TlsView {
    pub data: Option<TlsDataView>,
    pub just_yielded: bool,
}

impl TlsView {
    /// True if the slot is in use for the state with this id.
    pub open spec fn drives(self, state: usize) -> bool {
        self.data matches Some(data) && data.state == state
    }

    /// The runnables that wait in the slot.
    pub open spec fn pending(self) -> Seq<Runnable> {
        match self.data {
            Some(data) => data.pending_tasks,
            None => Seq::empty(),
        }
    }

    /// The same, with nothing waiting in the slot.
    pub open spec fn collected(self) -> TlsView {
        match self.data {
            Some(data) => TlsView {
                data: Some(TlsDataView { pending_tasks: Seq::empty(), ..data }),
                ..self
            },
            None => self,
        }
    }
}

impl TlsData {
    pub closed spec fn view(&self) -> TlsDataView {
        TlsDataView { state: self.state, pending_tasks: self.pending_tasks@ }
    }
}

impl Tls {
    pub closed spec fn view(&self) -> TlsView {
        TlsView {
            data: match self.data {
                Some(data) => Some(data@),
                None => None,
            },
            just_yielded: self.just_yielded,
        }
    }

    /// Creates the thread's data: the slot is empty, and no task has yielded.
    pub fn new() -> (tls: Tls)
        ensures
            tls@ == (TlsView { data: None, just_yielded: false }),
    {
        Tls { data: None, just_yielded: false }
    }

    /// The id of the state that the thread drives, if it drives one.
    pub fn state(&self) -> (state: Option<usize>)
        ensures
            state == match self@.data {
                Some(data) => Some(data.state),
                None => None,
            },
    {
        match &self.data {
            Some(data) => Some(data.state),
            None => None,
        }
    }

    /// Number of runnables that wait in the slot.
    pub fn pending(&self) -> (n: usize)
        ensures
            n == self@.pending().len(),
    {
        match &self.data {
            Some(data) => data.pending_tasks.len(),
            None => 0,
        }
    }

    /// Notes whether the task that has just run was woken while it ran.
    pub fn set_just_yielded(&mut self, yielded: bool)
        ensures
            final(self)@ == (TlsView { just_yielded: yielded, ..old(self)@ }),
    {
        self.just_yielded = yielded;
    }

    /// Reads the note that `set_just_yielded` left, and clears it.
    pub fn take_just_yielded(&mut self) -> (yielded: bool)
        ensures
            yielded == old(self)@.just_yielded,
            final(self)@ == (TlsView { just_yielded: false, ..old(self)@ }),
    {
        let yielded = self.just_yielded;
        self.just_yielded = false;
        yielded
    }

    /// Puts the slot in use for the state with this id, unless it is in use.
    pub(crate) fn bind(&mut self, state: usize)
        ensures
            old(self)@.data is Some ==> final(self)@ == old(self)@,
            old(self)@.data is None ==> final(self)@ == (TlsView {
                data: Some(TlsDataView { state, pending_tasks: Seq::empty() }),
                ..old(self)@
            }),
    {
        if self.data.is_none() {
            self.data = Some(TlsData { state, pending_tasks: Vec::new() });
        }
    }
}

/// Empties the handoff slot when the worker that put it in use is done.
///
/// Runnables that wait in the slot go to the end of the global queue, in
/// their order, so that no work is lost. `state` is the state that the slot
/// was in use for.
pub fn clear_tls(tls: &mut Tls, state: &mut State)
    requires
        old(state).wf(),
        old(tls)@.data is Some ==> old(tls)@.drives(old(state)@.id),
    ensures
        final(state).wf(),
        final(tls)@ == (TlsView { data: None, ..old(tls)@ }),
        final(state)@ == (StateView {
            queue: old(state)@.queue + old(tls)@.pending(),
            ..old(state)@
        }),
{
    let ghost pending = tls@.pending();
    let ghost before = state@;
    match tls.data.take() {
        Some(data) => {
            let tasks = data.pending_tasks;
            for task in it: tasks
                invariant
                    state.wf(),
                    it.seq() == pending,
                    state@ == (StateView {
                        queue: before.queue + pending.take(it.index() as int),
                        ..before
                    }),
            {
                state.push_global(task);
                proof {
                    assert(state@.queue =~= before.queue + pending.take(it.index() + 1));
                }
            }
            assert(pending.take(pending.len() as int) =~= pending);
        },
        None => {
            assert(state@.queue =~= before.queue + pending);
        },
    }
}

/// Hands a runnable to the worker that drives `state` on this thread.
///
/// Fails, and gives the runnable back, if the slot is empty or in use for
/// another state: the caller then falls back on the global queue. Otherwise
/// the runnable waits in the slot, and the worker's ticker, `ticker`, wakes
/// up: the waker that it had registered is returned for the caller to wake.
///
/// A front-end that finds the thread's data in use further up the call stack
/// treats the slot as empty.
pub fn try_push_tls(
    tls: &mut Tls,
    state: &mut State,
    ticker: &mut Ticker,
    runnable: Runnable,
) -> (handed: Result<Option<Waker>, Runnable>)
    requires
        old(state).wf(),
        old(ticker).attached(old(state)@),
    ensures
        final(state).wf(),
        final(ticker).attached(final(state)@),
        !old(tls)@.drives(old(state)@.id) ==> {
            &&& handed == Err::<Option<Waker>, Runnable>(runnable)
            &&& final(tls)@ == old(tls)@
            &&& final(state)@ == old(state)@
            &&& final(ticker)@ == old(ticker)@
        },
        old(tls)@.drives(old(state)@.id) ==> {
            &&& handed is Ok
            &&& handed->Ok_0 == (if old(ticker)@ == 0 {
                None
            } else {
                old(state)@.sleepers.removed_waker(old(ticker)@)
            })
            &&& final(tls)@ == (TlsView {
                data: Some(
                    TlsDataView {
                        state: old(state)@.id,
                        pending_tasks: old(tls)@.pending().push(runnable),
                    },
                ),
                ..old(tls)@
            })
            &&& final(state)@ == old(state)@.woken(old(ticker)@)
            &&& final(ticker)@ == 0
        },
{
    match &mut tls.data {
        Some(data) => {
            if data.state != state.id() {
                return Err(runnable);
            }
            data.pending_tasks.push(runnable);
            // Notify the ticker.
            Ok(ticker.wake(state))
        },
        None => Err(runnable),
    }
}

/// Collects the runnables that wait in the handoff slot, oldest first, and
/// leaves the slot with none. Returns `None` if the slot is empty.
pub fn try_pop_tls(tls: &mut Tls) -> (pending: Option<Vec<Runnable>>)
    ensures
        old(tls)@.data is None ==> pending is None && final(tls)@ == old(tls)@,
        old(tls)@.data is Some ==> pending is Some && pending->0@ == old(tls)@.pending()
            && final(tls)@ == old(tls)@.collected(),
{
    match &mut tls.data {
        Some(data) => {
            let mut tasks: Vec<Runnable> = Vec::with_capacity(4);
            std::mem::swap(&mut data.pending_tasks, &mut tasks);
            Some(tasks)
        },
        None => None,
    }
}

} // verus!
