//! Workers. A runner is a ticker with a local queue of its own: it looks for
//! work in the handoff slot of its thread and in its queue first, then in the
//! global queue, then in the queues of its peers.

use crate::queue::{global_batch, landed, peer_batch, pushed, LOCAL_QUEUE_CAPACITY};
use crate::registry::{first_vacant, ids_below, is_registered, registered_ids, Slot};
use crate::sleepers::lemma_notified_keeps_sleepers;
use crate::state::{State, StateView};
use crate::ticker::{lemma_parked_again, lemma_slept_parks, parked, Found, Step, Ticker};
use crate::tls::{try_pop_tls, Tls, TlsDataView, TlsView};
use async_task::Runnable;
use std::task::Waker;
use vstd::prelude::*;

verus! {

/// A worker in a work-stealing executor.
///
/// This is just a ticker that also has an associated local queue for improved
/// cache locality. The queue stands in the state's table of local queues,
/// under the runner's id.
#[derive(Debug)]
pub struct Runner {
    /// Inner ticker.
    ticker: Ticker,
    /// Bumped every time a runnable task is found.
    ticks: usize,
    /// The id of the runner's queue in the table of local queues.
    id: usize,
}

/// What a `Runner` holds.
pub struct RunnerView {
    /// The id under which the ticker sleeps, or 0 if it is awake.
    pub ticker: usize,
    pub ticks: usize,
    pub id: usize,
}

impl RunnerView {
    /// True if the runner can be a runner of `state`: its ticker can be a
    /// ticker of it, and its queue is registered.
    pub open spec fn attached(self, state: StateView) -> bool {
        &&& self.ticker == 0 || state.sleepers.is_sleeping(self.ticker)
        &&& is_registered(state.local_queues, self.id as int)
    }
}

/// How often a runner takes work from the global queue although it has found
/// work already: once in this many runnables.
pub const FAIRNESS_INTERVAL: usize = 64;

/// The table of local queues after a new runner registered an empty queue.
pub open spec fn registered(slots: Seq<Slot<Runnable>>) -> Seq<Slot<Runnable>> {
    if first_vacant(slots) < slots.len() {
        slots.update(first_vacant(slots), Some(Seq::empty()))
    } else {
        slots.push(Some(Seq::empty()))
    }
}

/// The queue registered under `id`.
pub open spec fn queue_of(state: StateView, id: usize) -> Seq<Runnable> {
    state.local_queues[id as int].unwrap()
}

/// The state with `items` as the queue registered under `id`.
pub open spec fn with_queue(state: StateView, id: usize, items: Seq<Runnable>) -> StateView {
    StateView { local_queues: state.local_queues.update(id as int, Some(items)), ..state }
}

/// A runner's queue and the global queue after the runner collected
/// `pending` from the handoff slot: each runnable in turn goes to the runner's
/// queue, as `LocalQueue::push` puts it there, or, if that queue is full, to
/// the end of the global queue.
pub open spec fn drained(
    own: Seq<Runnable>,
    queue: Seq<Runnable>,
    pending: Seq<Runnable>,
    must_yield: bool,
) -> (Seq<Runnable>, Seq<Runnable>)
    decreases pending.len(),
{
    if pending.len() == 0 {
        (own, queue)
    } else if own.len() < LOCAL_QUEUE_CAPACITY {
        drained(pushed(own, must_yield, pending[0]), queue, pending.drop_first(), must_yield)
    } else {
        drained(own, queue.push(pending[0]), pending.drop_first(), must_yield)
    }
}

/// The state after the runner `id` collected `pending` from the handoff slot.
pub open spec fn after_drain(
    state: StateView,
    id: usize,
    pending: Seq<Runnable>,
    must_yield: bool,
) -> StateView {
    let both = drained(queue_of(state, id), state.queue, pending, must_yield);
    StateView { queue: both.1, ..with_queue(state, id, both.0) }
}

/// True if nothing is queued anywhere: neither in the global queue nor in a
/// local queue.
pub open spec fn idle(state: StateView) -> bool {
    &&& state.queue.len() == 0
    &&& forall|id: int|
        is_registered(state.local_queues, id) ==> (#[trigger] state.local_queues[id]).unwrap().len()
            == 0
}

/// The place in a list of `n` ids that a round comes to in its `i`th step
/// when it starts at `start`: the round runs from `start` to the end and then
/// from the beginning.
pub open spec fn visit_index(n: int, start: int, i: int) -> int {
    if start + i < n {
        start + i
    } else {
        start + i - n
    }
}

/// The peer that a runner looks at in the `i`th step of its round, with
/// `order` the registered ids in ascending order.
pub open spec fn visit(order: Seq<usize>, start: int, i: int) -> usize {
    order[visit_index(order.len() as int, start, i)]
}

/// The first peer with something queued that the runner `id` comes to, from
/// the `i`th place of its round on, if there is one.
pub open spec fn first_victim(slots: Seq<Slot<Runnable>>, id: usize, start: int, i: int) -> Option<
    usize,
>
    decreases registered_ids(slots).len() - i,
{
    let order = registered_ids(slots);
    if i < 0 || i >= order.len() {
        None
    } else {
        let peer = visit(order, start, i);
        if peer != id && slots[peer as int].unwrap().len() > 0 {
            Some(peer)
        } else {
            first_victim(slots, id, start, i + 1)
        }
    }
}

/// What a runner with an empty queue gets from its peers, and the state
/// afterwards: from the first peer of its round that has something queued it
/// takes the older half, rounded up, runs the oldest item of that, and keeps
/// the rest in its own queue. If no peer has anything, nothing changes.
pub open spec fn stolen_from_peers(state: StateView, id: usize, start: int) -> (
    StateView,
    Option<Runnable>,
) {
    match first_victim(state.local_queues, id, start, 0) {
        Some(peer) => {
            let theirs = queue_of(state, peer);
            let count = peer_batch(LOCAL_QUEUE_CAPACITY as int, 0, theirs.len() as int);
            (
                with_queue(
                    with_queue(state, id, landed(Seq::empty(), theirs.take(count)).drop_last()),
                    peer,
                    theirs.skip(count),
                ),
                Some(theirs[0]),
            )
        },
        None => (state, None),
    }
}

/// What one search finds, and the state afterwards, once the handoff slot is
/// drained.
///
/// The runner takes the newest item of its own queue. If its queue is empty,
/// it moves a batch from the global queue to its queue and takes the oldest
/// item of the batch. If the global queue is empty too, it turns to its
/// peers.
pub open spec fn searched(state: StateView, id: usize, start: int) -> (
    StateView,
    Option<Runnable>,
) {
    let own = queue_of(state, id);
    if own.len() > 0 {
        (with_queue(state, id, own.drop_last()), Some(own.last()))
    } else if state.queue.len() > 0 {
        let count = global_batch(LOCAL_QUEUE_CAPACITY as int, 0, state.queue.len() as int);
        (
            StateView {
                queue: state.queue.skip(count),
                ..with_queue(state, id, landed(own, state.queue.take(count)).drop_last())
            },
            Some(state.queue[0]),
        )
    } else {
        stolen_from_peers(state, id, start)
    }
}

/// The state after the runner `id` gave up its queue and what was left in it
/// went to the global queue, newest first.
pub open spec fn requeued(state: StateView, id: usize) -> StateView {
    StateView {
        queue: state.queue + queue_of(state, id).reverse(),
        local_queues: state.local_queues.update(id as int, None),
        ..state
    }
}

/// The state after a runner retired: its queue is gone from the table, what
/// was left in it stands at the end of the global queue, newest first, a
/// sleeper was notified if anything was left, and the runner's ticker is
/// released.
pub open spec fn retired(state: StateView, runner: RunnerView) -> StateView {
    if queue_of(state, runner.id).len() > 0 {
        requeued(state, runner.id).notified().released(runner.ticker)
    } else {
        requeued(state, runner.id).released(runner.ticker)
    }
}

/// The wakers that `retire` returns: that of the sleeper notified because
/// runnables went back to the global queue, and that of the sleeper to whom
/// the ticker passed on a notification of its own.
pub open spec fn retire_wakers(state: StateView, runner: RunnerView) -> (
    Option<Waker>,
    Option<Waker>,
) {
    if queue_of(state, runner.id).len() > 0 {
        (
            state.notify_waker(),
            requeued(state, runner.id).notified().release_waker(runner.ticker),
        )
    } else {
        (None, requeued(state, runner.id).release_waker(runner.ticker))
    }
}

/// The tick counter after one more runnable; it starts again at 0 after the
/// largest machine integer.
pub open spec fn next_tick(ticks: usize) -> usize {
    if ticks == usize::MAX {
        0
    } else {
        (ticks + 1) as usize
    }
}

/// True if `found`, `post` and `after` are what `Runner::runnable` returns
/// and leaves behind, for a runner `runner` that has collected the handoff
/// slot, with the state then `settled`, and that starts its round over the
/// peers at `start`.
///
/// If the search finds a runnable, the ticker wakes up and hands the search
/// over, the tick counter goes up, and on every `FAIRNESS_INTERVAL`th tick a
/// batch moves from the global queue to the runner's queue. If it finds
/// nothing, the ticker is parked and nothing else changes.
pub open spec fn polled(
    settled: StateView,
    runner: RunnerView,
    start: int,
    post: StateView,
    after: RunnerView,
    found: Option<Found>,
) -> bool {
    let hit = searched(settled, runner.id, start);
    match hit.1 {
        Some(runnable) => {
            let handed = hit.0.woken(runner.ticker);
            let ticks = next_tick(runner.ticks);
            &&& found == Some(Found { runnable, wake: handed.handover_waker() })
            &&& after == (RunnerView { ticker: 0, ticks, id: runner.id })
            &&& post == (if ticks % FAIRNESS_INTERVAL == 0 {
                handed.handed_over().stole_global(runner.id)
            } else {
                handed.handed_over()
            })
        },
        None => {
            &&& found is None
            &&& after == (RunnerView { ticker: after.ticker, ..runner })
            &&& post.sleepers.has_waker(after.ticker)
            &&& parked(settled, runner.ticker, post, after.ticker)
        },
    }
}

/// If no victim is found from the `i`th step on, every peer from there to the
/// end of the round has an empty queue.
proof fn lemma_no_victim(slots: Seq<Slot<Runnable>>, id: usize, start: int, i: int)
    requires
        0 <= i,
        first_victim(slots, id, start, i) is None,
    ensures
        forall|j: int|
            i <= j < registered_ids(slots).len() ==> {
                let peer = #[trigger] visit(registered_ids(slots), start, j);
                peer == id || slots[peer as int].unwrap().len() == 0
            },
    decreases registered_ids(slots).len() - i,
{
    if i < registered_ids(slots).len() {
        lemma_no_victim(slots, id, start, i + 1);
    }
}

/// If every queue is empty, no victim is found.
proof fn lemma_all_empty(slots: Seq<Slot<Runnable>>, id: usize, start: int, i: int)
    requires
        0 <= i,
        0 <= start < registered_ids(slots).len(),
        slots.len() <= usize::MAX,
        forall|k: int| is_registered(slots, k) ==> (#[trigger] slots[k]).unwrap().len() == 0,
    ensures
        first_victim(slots, id, start, i) is None,
    decreases registered_ids(slots).len() - i,
{
    let order = registered_ids(slots);
    if i < order.len() {
        lemma_registered_ids(slots, slots.len() as int);
        let peer = visit(order, start, i);
        let at = visit_index(order.len() as int, start, i);
        assert(peer == order[at]);
        assert(is_registered(slots, peer as int));
        assert(slots[peer as int].unwrap().len() == 0);
        lemma_all_empty(slots, id, start, i + 1);
    }
}

/// Work is found wherever there is some: a search comes back empty-handed if
/// and only if nothing is queued, neither in the global queue nor in any
/// local queue. It then leaves the state as it was.
pub proof fn lemma_search_finds(state: StateView, id: usize, start: int)
    requires
        state.local_queues.len() <= usize::MAX,
        is_registered(state.local_queues, id as int),
        0 <= start < registered_ids(state.local_queues).len(),
    ensures
        searched(state, id, start).1 is None <==> idle(state),
        searched(state, id, start).1 is None ==> searched(state, id, start).0 == state,
{
    let slots = state.local_queues;
    let order = registered_ids(slots);
    let n = order.len() as int;
    lemma_registered_ids(slots, slots.len() as int);
    if idle(state) {
        assert(slots[id as int].unwrap().len() == 0);
        lemma_all_empty(slots, id, start, 0);
    }
    if searched(state, id, start).1 is None {
        assert(queue_of(state, id).len() == 0);
        assert(state.queue.len() == 0);
        assert(first_victim(slots, id, start, 0) is None);
        lemma_no_victim(slots, id, start, 0);
        assert forall|k: int| is_registered(slots, k) implies (#[trigger] slots[k]).unwrap().len()
            == 0 by {
            if k != id {
                assert(order.contains(k as usize));
                let at = choose|at: int| 0 <= at < order.len() && order[at] == k as usize;
                let j = if at >= start {
                    at - start
                } else {
                    at - start + n
                };
                assert(visit_index(n, start, j) == at);
                assert(visit(order, start, j) == k as usize);
            }
        }
    }
}

/// Every id in the list of registered ids is registered, and the list holds
/// every registered id.
pub proof fn lemma_registered_ids(slots: Seq<Slot<Runnable>>, upto: int)
    requires
        0 <= upto <= slots.len() <= usize::MAX,
    ensures
        forall|k: int|
            0 <= k < ids_below(slots, upto).len() ==> 0 <= (#[trigger] ids_below(slots, upto)[k])
                < upto && slots[ids_below(slots, upto)[k] as int] is Some,
        forall|id: int|
            0 <= id < upto && slots[id] is Some ==> ids_below(slots, upto).contains(id as usize),
        ids_below(slots, upto).len() <= upto,
    decreases upto,
{
    if upto > 0 {
        lemma_registered_ids(slots, upto - 1);
        let shorter = ids_below(slots, upto - 1);
        let list = ids_below(slots, upto);
        assert forall|id: int| 0 <= id < upto && slots[id] is Some implies list.contains(
            id as usize,
        ) by {
            if id < upto - 1 {
                assert(shorter.contains(id as usize));
                let k = choose|k: int| 0 <= k < shorter.len() && shorter[k] == id as usize;
                assert(list[k] == id as usize);
            } else {
                assert(list[list.len() - 1] == id as usize);
            }
        }
    }
}

/// Collecting the handoff slot changes nothing but the runner's queue and the
/// global queue, and leaves a well-formed state well-formed.
pub proof fn lemma_after_drain(
    state: StateView,
    id: usize,
    pending: Seq<Runnable>,
    must_yield: bool,
)
    requires
        state.wf(),
        is_registered(state.local_queues, id as int),
    ensures
        after_drain(state, id, pending, must_yield).wf(),
        is_registered(after_drain(state, id, pending, must_yield).local_queues, id as int),
        registered_ids(after_drain(state, id, pending, must_yield).local_queues) == registered_ids(
            state.local_queues,
        ),
        after_drain(state, id, pending, must_yield).sleepers == state.sleepers,
        pending.len() == 0 ==> after_drain(state, id, pending, must_yield) == state,
{
    let after = after_drain(state, id, pending, must_yield);
    lemma_same_ids(state.local_queues, after.local_queues, state.local_queues.len() as int);
    if pending.len() == 0 {
        assert(after.local_queues =~= state.local_queues);
    }
}

/// Two tables with queues under the same ids have the same registered ids.
pub proof fn lemma_same_ids(a: Seq<Slot<Runnable>>, b: Seq<Slot<Runnable>>, upto: int)
    requires
        a.len() == b.len(),
        0 <= upto <= a.len(),
        forall|i: int| 0 <= i < a.len() ==> (a[i] is Some <==> b[i] is Some),
    ensures
        ids_below(a, upto) == ids_below(b, upto),
    decreases upto,
{
    if upto > 0 {
        lemma_same_ids(a, b, upto - 1);
    }
}

/// Calls `fastrand::usize` with the range `..n`, which panics if the range is
/// empty and else returns a number of the range, picked at random.
#[verifier::external_body]
fn random_start(n: usize) -> (start: usize)
    requires
        n > 0,
    ensures
        start < n,
{
    fastrand::usize(..n)
}

impl Runner {
    pub closed spec fn view(&self) -> RunnerView {
        RunnerView { ticker: self.ticker@, ticks: self.ticks, id: self.id }
    }

    /// True if the runner can be a runner of `state`: its ticker can be a
    /// ticker of it, and its queue is registered.
    pub open spec fn attached(&self, state: StateView) -> bool {
        self@.attached(state)
    }

    /// The runner's ticker.
    pub fn ticker(&self) -> (ticker: &Ticker)
        ensures
            ticker@ == self@.ticker,
    {
        &self.ticker
    }

    /// The runner's ticker, to work on.
    pub fn ticker_mut(&mut self) -> (ticker: &mut Ticker)
        ensures
            ticker@ == old(self)@.ticker,
            final(self)@ == (RunnerView { ticker: final(ticker)@, ..old(self)@ }),
    {
        &mut self.ticker
    }

    /// Creates a runner and registers it in the executor state: its queue is
    /// new and empty, and it stands under the smallest id that is free.
    pub fn new(state: &mut State) -> (runner: Runner)
        requires
            old(state).wf(),
        ensures
            final(state).wf(),
            runner.attached(final(state)@),
            runner@ == (RunnerView {
                ticker: 0,
                ticks: 0,
                id: first_vacant(old(state)@.local_queues) as usize,
            }),
            !is_registered(old(state)@.local_queues, runner@.id as int),
            final(state)@ == (StateView {
                local_queues: registered(old(state)@.local_queues),
                ..old(state)@
            }),
    {
        let id = state.register();
        Runner { ticker: Ticker::new(), ticks: 0, id }
    }

    /// The id of the runner's queue in the table of local queues.
    pub fn id(&self) -> (id: usize)
        ensures
            id == self@.id,
    {
        self.id
    }

    /// Returns `true` if the runner's ticker can be a ticker of `state` and
    /// its queue is registered there: what the other operations ask of a
    /// runner.
    pub fn is_attached(&self, state: &State) -> (attached: bool)
        ensures
            attached == self.attached(state@),
    {
        proof {
            state.lemma_view();
        }
        self.ticker.is_attached(state) && state.local_queues.contains(self.id)
    }

    /// Sets as active in the TLS: unless the thread's handoff slot is in use,
    /// it is in use for `state` from now on.
    pub fn set_tls_active(&self, tls: &mut Tls, state: &State)
        ensures
            old(tls)@.data is Some ==> final(tls)@ == old(tls)@,
            old(tls)@.data is None ==> final(tls)@ == (TlsView {
                data: Some(TlsDataView { state: state@.id, pending_tasks: Seq::empty() }),
                ..old(tls)@
            }),
    {
        tls.bind(state.id());
    }

    /// One round over the peers, given the list of registered ids.
    fn steal_round(&self, state: &mut State, order: &Vec<usize>, start: usize) -> (found: Option<
        Runnable,
    >)
        requires
            old(state).wf(),
            is_registered(old(state)@.local_queues, self@.id as int),
            queue_of(old(state)@, self@.id).len() == 0,
            order@ == registered_ids(old(state)@.local_queues),
            start < order@.len(),
        ensures
            final(state).wf(),
            is_registered(final(state)@.local_queues, self@.id as int),
            (final(state)@, found) == stolen_from_peers(old(state)@, self@.id, start as int),
    {
        let ghost before = state@;
        let n = order.len();
        let mut idx = start;
        let mut i: usize = 0;
        proof {
            lemma_registered_ids(before.local_queues, before.local_queues.len() as int);
        }
        while i < n
            invariant
                state.wf(),
                state@ == before,
                before == old(state)@,
                is_registered(before.local_queues, self@.id as int),
                queue_of(before, self@.id).len() == 0,
                order@ == registered_ids(before.local_queues),
                n == order@.len(),
                start < n,
                i <= n,
                idx < n,
                i < n ==> idx == visit_index(n as int, start as int, i as int),
                forall|k: int|
                    0 <= k < order@.len() ==> is_registered(
                        before.local_queues,
                        (#[trigger] order@[k]) as int,
                    ),
                first_victim(before.local_queues, self@.id, start as int, 0) == first_victim(
                    before.local_queues,
                    self@.id,
                    start as int,
                    i as int,
                ),
            decreases n - i,
        {
            let peer = order[idx];
            assert(peer == visit(order@, start as int, i as int));
            if peer != self.id {
                let ghost theirs = queue_of(before, peer);
                let ghost count = peer_batch(LOCAL_QUEUE_CAPACITY as int, 0, theirs.len() as int);
                state.steal_local(self.id, peer);
                let found = state.local_pop(self.id);
                proof {
                    let own = queue_of(before, self@.id);
                    let batch = theirs.take(count);
                    if theirs.len() > 0 {
                        assert(count >= 1);
                        assert(landed(own, batch).last() == batch[0]);
                        assert(state@.local_queues =~= with_queue(
                            with_queue(before, self@.id, landed(Seq::empty(), batch).drop_last()),
                            peer,
                            theirs.skip(count),
                        ).local_queues);
                        assert(own =~= Seq::<Runnable>::empty());
                    } else {
                        assert(count == 0);
                        assert(landed(own, batch) =~= own);
                        assert(theirs.skip(count) =~= theirs);
                        assert(state@.local_queues =~= before.local_queues);
                    }
                }
                if found.is_some() {
                    return found;
                }
            }
            i += 1;
            idx += 1;
            if idx == n {
                idx = 0;
            }
        }
        None
    }

    /// Tries to steal from the other runners, starting the round at the
    /// `start`th of the registered queues.
    ///
    /// The runner's own queue is empty when it comes to this. From the first
    /// peer of the round that has something queued, the older half of its
    /// queue moves to the runner's queue, and the oldest runnable of that is
    /// returned. If no peer has anything queued, nothing changes.
    pub fn steal_from_peers(&self, state: &mut State, start: usize) -> (found: Option<Runnable>)
        requires
            old(state).wf(),
            is_registered(old(state)@.local_queues, self@.id as int),
            queue_of(old(state)@, self@.id).len() == 0,
            start < registered_ids(old(state)@.local_queues).len(),
        ensures
            final(state).wf(),
            is_registered(final(state)@.local_queues, self@.id as int),
            (final(state)@, found) == stolen_from_peers(old(state)@, self@.id, start as int),
    {
        let order = state.local_ids();
        self.steal_round(state, &order, start)
    }

    /// Searches for a runnable, once.
    ///
    /// The runner first collects what waits in the thread's handoff slot into
    /// its own queue (what does not fit goes to the global queue); if the
    /// task that ran last has yielded, each runnable goes one place below the
    /// hot end. Then it takes a runnable from its own queue, or else from a
    /// batch that it moves over from the global queue, or else from a batch
    /// that it steals from a peer, in a round over the peers that starts at a
    /// random place. It counts as searching while it is out stealing.
    pub fn search(&self, state: &mut State, tls: &mut Tls) -> (found: Option<Runnable>)
        requires
            old(state).wf(),
            is_registered(old(state)@.local_queues, self@.id as int),
        ensures
            final(state).wf(),
            is_registered(final(state)@.local_queues, self@.id as int),
            final(tls)@ == (TlsView { just_yielded: false, ..old(tls)@.collected() }),
            exists|start: int|
                0 <= start < registered_ids(old(state)@.local_queues).len() && (
                    final(state)@,
                    found,
                ) == #[trigger] searched(
                    after_drain(
                        old(state)@,
                        self@.id,
                        old(tls)@.pending(),
                        old(tls)@.just_yielded,
                    ),
                    self@.id,
                    start,
                ),
    {
        let ghost before = state@;
        let ghost waiting = tls@.pending();
        let must_yield = tls.take_just_yielded();

        // Try the TLS.
        match try_pop_tls(tls) {
            Some(pending) => {
                assert(waiting.skip(0) =~= waiting);
                for task in it: pending
                    invariant
                        state.wf(),
                        is_registered(state@.local_queues, self@.id as int),
                        it.seq() == waiting,
                        state@.local_queues.len() == before.local_queues.len(),
                        forall|i: int|
                            0 <= i < before.local_queues.len() ==> (before.local_queues[i] is Some
                                <==> state@.local_queues[i] is Some),
                        after_drain(
                            state@,
                            self@.id,
                            waiting.skip(it.index() as int),
                            must_yield,
                        ) == after_drain(before, self@.id, waiting, must_yield),
                {
                    let ghost here = state@;
                    let ghost rest = waiting.skip(it.index() as int);
                    assert(rest[0] == task);
                    assert(rest.drop_first() =~= waiting.skip(it.index() + 1));
                    match state.local_push(self.id, must_yield, task) {
                        Err(task) => {
                            state.push_global(task);
                        },
                        Ok(()) => {},
                    }
                    proof {
                        let both = drained(
                            queue_of(here, self@.id),
                            here.queue,
                            rest,
                            must_yield,
                        );
                        let next = drained(
                            queue_of(state@, self@.id),
                            state@.queue,
                            rest.drop_first(),
                            must_yield,
                        );
                        assert(both == next);
                        assert(with_queue(state@, self@.id, next.0).local_queues =~= with_queue(
                            here,
                            self@.id,
                            both.0,
                        ).local_queues);
                    }
                }
                assert(waiting.skip(waiting.len() as int) =~= Seq::<Runnable>::empty());
            },
            None => {
                assert(waiting =~= Seq::<Runnable>::empty());
            },
        }
        let ghost settled = state@;
        proof {
            assert(settled.local_queues =~= with_queue(
                settled,
                self@.id,
                queue_of(settled, self@.id),
            ).local_queues);
            assert(settled == after_drain(before, self@.id, waiting, must_yield));
            lemma_same_ids(
                before.local_queues,
                settled.local_queues,
                before.local_queues.len() as int,
            );
            lemma_registered_ids(settled.local_queues, settled.local_queues.len() as int);
            assert(registered_ids(settled.local_queues).contains(self@.id));
        }

        // Try the local queue.
        let found = state.local_pop(self.id);
        if found.is_some() {
            assert((state@, found) == searched(settled, self@.id, 0));
            return found;
        }
        state.begin_search();

        // Try stealing from the global queue.
        state.steal_global(self.id);
        let found = state.local_pop(self.id);
        if found.is_some() {
            state.end_search();
            proof {
                let count = global_batch(
                    LOCAL_QUEUE_CAPACITY as int,
                    0,
                    settled.queue.len() as int,
                );
                let batch = settled.queue.take(count);
                assert(settled.queue.len() > 0) by {
                    if settled.queue.len() == 0 {
                        assert(landed(queue_of(settled, self@.id), batch) =~= Seq::<
                            Runnable,
                        >::empty());
                    }
                }
                assert(count >= 1);
                assert(landed(queue_of(settled, self@.id), batch).last() == batch[0]);
                assert(state@.local_queues =~= searched(settled, self@.id, 0).0.local_queues);
                assert((state@, found) == searched(settled, self@.id, 0));
            }
            return found;
        }
        proof {
            let count = global_batch(LOCAL_QUEUE_CAPACITY as int, 0, settled.queue.len() as int);
            let batch = settled.queue.take(count);
            if settled.queue.len() > 0 {
                assert(count >= 1);
                assert(landed(queue_of(settled, self@.id), batch).len() >= 1);
            }
            assert(landed(queue_of(settled, self@.id), batch) =~= queue_of(settled, self@.id));
            assert(settled.queue.skip(count) =~= settled.queue);
            assert(state@.local_queues =~= settled.local_queues);
        }

        // Try stealing from other runners.
        let order = state.local_ids();

        // Pick a random starting point in the list.
        let start = random_start(order.len());
        let ghost searching = state@;
        let found = self.steal_round(state, &order, start);
        state.end_search();
        proof {
            let target = stolen_from_peers(settled, self@.id, start as int);
            assert(stolen_from_peers(searching, self@.id, start as int).0.local_queues
                == target.0.local_queues);
            assert((state@, found) == searched(settled, self@.id, start as int));
        }
        found
    }

    /// Looks for the next runnable task to run.
    ///
    /// Searches once; if that finds a runnable, the ticker wakes up and the
    /// runnable comes back, with the waker of the ticker that is to search
    /// next, if one was notified. Otherwise the ticker goes to sleep and the
    /// search is repeated once, since work may have been queued in between;
    /// if there is still none, `None` comes back: the caller waits until
    /// `waker` is invoked and calls again.
    pub fn runnable(&mut self, state: &mut State, tls: &mut Tls, waker: &Waker) -> (found: Option<
        Found,
    >)
        requires
            old(state).wf(),
            old(self).attached(old(state)@),
            old(self)@.ticker == 0 ==> old(state)@.sleepers.count < usize::MAX,
        ensures
            final(state).wf(),
            final(self).attached(final(state)@),
            final(tls)@ == (TlsView { just_yielded: false, ..old(tls)@.collected() }),
            exists|start: int|
                0 <= start < registered_ids(old(state)@.local_queues).len() && #[trigger] polled(
                    after_drain(
                        old(state)@,
                        old(self)@.id,
                        old(tls)@.pending(),
                        old(tls)@.just_yielded,
                    ),
                    old(self)@,
                    start,
                    final(state)@,
                    final(self)@,
                    found,
                ),
    {
        let ghost settled = after_drain(
            old(state)@,
            old(self)@.id,
            old(tls)@.pending(),
            old(tls)@.just_yielded,
        );
        let ghost n = registered_ids(old(state)@.local_queues).len() as int;
        let ghost mut retried = false;
        let ghost mut first: int = 0;
        loop
            invariant
                state.wf(),
                self.attached(state@),
                self@.ticker == 0 ==> state@.sleepers.count < usize::MAX,
                self@.id == old(self)@.id,
                self@.ticks == old(self)@.ticks,
                old(state).wf(),
                old(self).attached(old(state)@),
                settled == after_drain(
                    old(state)@,
                    old(self)@.id,
                    old(tls)@.pending(),
                    old(tls)@.just_yielded,
                ),
                n == registered_ids(old(state)@.local_queues).len(),
                !retried ==> state@ == old(state)@ && self@ == old(self)@ && tls@ == old(tls)@,
                retried ==> {
                    &&& 0 <= first < n
                    &&& searched(settled, self@.id, first) == (settled, None::<Runnable>)
                    &&& settled.wf()
                    &&& is_registered(settled.local_queues, self@.id as int)
                    &&& self@.ticker != 0
                    &&& state@.sleepers.has_waker(self@.ticker)
                    &&& parked(settled, old(self)@.ticker, state@, self@.ticker)
                    &&& tls@ == (TlsView { just_yielded: false, ..old(tls)@.collected() })
                    &&& tls@.pending().len() == 0
                    &&& registered_ids(settled.local_queues).len() == n
                },
            decreases
                    (if retried {
                        0int
                    } else {
                        1int
                    }),
        {
            let ghost before = state@;
            let ghost ticker = self@.ticker;
            let found = self.search(state, tls);
            let ghost sought = state@;
            let ghost start = choose|start: int|
                0 <= start < registered_ids(before.local_queues).len() && (sought, found)
                    == #[trigger] searched(
                    after_drain(before, self@.id, old(tls)@.pending(), old(tls)@.just_yielded),
                    self@.id,
                    start,
                );
            proof {
                if retried {
                    let again = choose|again: int|
                        0 <= again < registered_ids(before.local_queues).len() && (sought, found)
                            == #[trigger] searched(
                            after_drain(before, self@.id, Seq::empty(), false),
                            self@.id,
                            again,
                        );
                    assert(before.local_queues =~= with_queue(
                        before,
                        self@.id,
                        queue_of(before, self@.id),
                    ).local_queues);
                    assert(after_drain(before, self@.id, Seq::empty(), false) == before);
                    lemma_search_finds(settled, self@.id, first);
                    assert(idle(before));
                    lemma_search_finds(before, self@.id, again);
                    assert(found is None);
                    assert(sought == before);
                } else {
                    if found is None {
                        lemma_after_drain(
                            before,
                            self@.id,
                            old(tls)@.pending(),
                            old(tls)@.just_yielded,
                        );
                        lemma_search_finds(settled, self@.id, start);
                    }
                }
            }
            match self.ticker.runnable_with(state, waker, found) {
                Step::Ready(found) => {
                    // Bump the tick counter.
                    self.ticks = if self.ticks == usize::MAX {
                        0
                    } else {
                        self.ticks + 1
                    };
                    if self.ticks % FAIRNESS_INTERVAL == 0 {
                        // Steal tasks from the global queue to ensure fair task scheduling.
                        state.steal_global(self.id);
                    }
                    proof {
                        assert(!retried);
                        assert(polled(settled, old(self)@, start, state@, self@, Some(found)));
                    }
                    return Some(found);
                },
                Step::Pending => {
                    proof {
                        if retried {
                            lemma_parked_again(
                                settled,
                                old(self)@.ticker,
                                before,
                                ticker,
                                state@,
                                self@.ticker,
                            );
                            assert(polled(settled, old(self)@, first, state@, self@, None));
                        } else {
                            lemma_slept_parks(sought, ticker, state@, self@.ticker, false);
                            assert(polled(settled, old(self)@, start, state@, self@, None));
                        }
                    }
                    return None;
                },
                Step::Retry => {
                    proof {
                        assert(!retried);
                        lemma_slept_parks(sought, ticker, state@, self@.ticker, true);
                        first = start;
                        retried = true;
                    }
                },
            }
        }
    }

    /// Takes the runner out of service, as when it is dropped.
    ///
    /// Removes the local queue from the table and re-schedules the tasks that
    /// remain in it: they go to the global queue, newest first, and a sleeper
    /// is notified. Then the ticker is released. The wakers of the sleepers
    /// notified on the way are returned for the caller to wake.
    pub fn retire(&mut self, state: &mut State) -> (wakers: (Option<Waker>, Option<Waker>))
        requires
            old(state).wf(),
            old(self).attached(old(state)@),
        ensures
            final(state).wf(),
            final(self)@ == (RunnerView { ticker: 0, ..old(self)@ }),
            !is_registered(final(state)@.local_queues, old(self)@.id as int),
            final(state)@ == retired(old(state)@, old(self)@),
            wakers == retire_wakers(old(state)@, old(self)@),
    {
        let ghost before = state@;
        let ghost left = queue_of(before, self@.id);
        // Remove the local queue.
        let mut local = state.unregister(self.id);
        let mut first: Option<Waker> = None;
        let ghost emptied = state@;
        assert(left.take(left.len() as int) =~= left);
        assert(emptied.queue + left.reverse().take(0) =~= emptied.queue);

        // Re-schedule remaining tasks in the local queue.
        while !local.is_empty()
            invariant
                state.wf(),
                local.wf(),
                before.wf(),
                self.attached(before),
                self@ == old(self)@,
                left == queue_of(before, self@.id),
                local@.len() <= left.len(),
                local@ == left.take(local@.len() as int),
                emptied == (StateView {
                    local_queues: before.local_queues.update(self@.id as int, None),
                    ..before
                }),
                local@.len() == left.len() ==> state@ == emptied && first is None,
                local@.len() < left.len() ==> state@ == (StateView {
                    queue: emptied.queue + left.reverse().take(left.len() - local@.len()),
                    ..emptied
                }).notified() && first == before.notify_waker(),
            decreases local@.len(),
        {
            let ghost here = state@;
            let ghost held = local@.len() as int;
            match local.pop() {
                Some(runnable) => {
                    state.push_global(runnable);
                    match state.notify() {
                        Some(waker) => {
                            first = Some(waker);
                        },
                        None => {},
                    }
                    proof {
                        assert(local@ =~= left.take(held - 1));
                        assert(runnable == left[held - 1]);
                        assert(left.reverse()[left.len() - held] == runnable);
                        assert(left.reverse().take(left.len() - held).push(runnable)
                            =~= left.reverse().take(left.len() - held + 1));
                        assert(state@.queue =~= emptied.queue + left.reverse().take(
                            left.len() - local@.len(),
                        ));
                    }
                },
                None => {},
            }
        }
        proof {
            assert(local@.len() == 0);
            assert(left.reverse().take(left.len() as int) =~= left.reverse());
            if self@.ticker != 0 {
                if left.len() > 0 {
                    lemma_notified_keeps_sleepers(before.sleepers, self@.ticker);
                }
            }
        }
        let second = self.ticker.release(state);
        (first, second)
    }
}

} // verus!
