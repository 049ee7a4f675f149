//! What holds of the scheduler as a whole, stated over the same functions
//! that the contracts of the operations use, and proved.

use crate::executor::{completed, handed_off, registered_task, scheduled_globally};
use crate::queue::{global_batch, landed, peer_batch, pushed, LOCAL_QUEUE_CAPACITY};
use crate::registry::{is_registered, registered_ids, Slot};
use crate::runner::{
    after_drain, drained, first_victim, lemma_registered_ids, next_tick, polled, queue_of,
    requeued, retired, searched, visit, visit_index, with_queue, RunnerView, FAIRNESS_INTERVAL,
};
use crate::sleepers::{
    lemma_inserted_wf, lemma_notified_keeps_sleepers, lemma_notified_wf, lemma_refreshed_wf,
    lemma_removed_wf, lemma_reregistered_wf,
};
use crate::state::StateView;
use crate::ticker::{enough, slept, slept_with, Found};
use crate::tls::TlsView;
use async_task::Runnable;
use std::task::Waker;
use vstd::multiset::Multiset;
use vstd::prelude::*;

verus! {

/// In a well-formed state the table of sleepers never holds more wakers than
/// there are sleepers, at most one sleeper is notified, and the `notified`
/// flag is set exactly if a sleeper is notified or nobody sleeps.
pub proof fn law_notified_flag(state: StateView)
    requires
        state.wf(),
    ensures
        state.sleepers.wakers.len() <= state.sleepers.count,
        state.sleepers.count <= state.sleepers.wakers.len() + 1,
        state.notified == (state.sleepers.count == 0 || state.sleepers.count
            > state.sleepers.wakers.len()),
{
}

/// A notification leaves a well-formed state well-formed, with the flag set.
pub proof fn law_notify_keeps_invariant(state: StateView)
    requires
        state.wf(),
    ensures
        state.notified().wf(),
        state.notified().notified,
{
    lemma_notified_wf(state.sleepers);
}

/// A ticker that goes to sleep leaves a well-formed state well-formed, and
/// sleeps unnotified afterwards.
pub proof fn law_sleep_keeps_invariant(
    pre: StateView,
    id: usize,
    post: StateView,
    now: usize,
    went: bool,
)
    requires
        pre.wf(),
        id == 0 || pre.sleepers.is_sleeping(id),
        id == 0 ==> pre.sleepers.count < usize::MAX,
        slept(pre, id, post, now, went),
    ensures
        post.wf(),
        now != 0,
        post.sleepers.has_waker(now),
        went == (id == 0 || !pre.sleepers.has_waker(id)),
{
    let table = pre.sleepers;
    if id == 0 {
        let waker = post.sleepers.wakers.last().1;
        lemma_inserted_wf(table, waker);
        let after = table.inserted(waker);
        assert(after.ids()[after.wakers.len() - 1] == now);
    } else if table.has_waker(id) {
        let waker = post.sleepers.wakers[table.position(id)].1;
        lemma_refreshed_wf(table, id, waker);
        assert(post.sleepers.is_notified() == table.is_notified());
    } else {
        let waker = post.sleepers.wakers.last().1;
        lemma_reregistered_wf(table, id, waker);
        let after = table.reregistered(id, waker);
        assert(after.ids()[after.wakers.len() - 1] == now);
    }
}

/// A ticker that wakes up leaves a well-formed state well-formed, and is no
/// sleeper of it afterwards.
pub proof fn law_wake_keeps_invariant(state: StateView, id: usize)
    requires
        state.wf(),
        id == 0 || state.sleepers.is_sleeping(id),
    ensures
        state.woken(id).wf(),
        id != 0 ==> !state.woken(id).sleepers.has_waker(id),
        id != 0 ==> state.woken(id).sleepers.count == state.sleepers.count - 1,
{
    if id != 0 {
        lemma_removed_wf(state.sleepers, id);
    }
}

/// A ticker that is dropped leaves a well-formed state well-formed.
pub proof fn law_release_keeps_invariant(state: StateView, id: usize)
    requires
        state.wf(),
        id == 0 || state.sleepers.is_sleeping(id),
    ensures
        state.released(id).wf(),
{
    law_wake_keeps_invariant(state, id);
    law_notify_keeps_invariant(state.woken(id));
}

/// A notification that finds tickers asleep reaches one of them.
///
/// Either a notification was under way already: then nothing changes and no
/// waker is handed out. Or the sleeper registered last goes from unnotified
/// to notified, and its waker is handed out. In both cases a sleeper is
/// notified afterwards.
pub proof fn law_notify_reaches_a_sleeper(state: StateView)
    requires
        state.wf(),
        state.sleepers.count > 0,
    ensures
        state.notified().sleepers.count > state.notified().sleepers.wakers.len(),
        state.notified ==> state.notified() == state && state.notify_waker() is None,
        !state.notified ==> {
            let last = state.sleepers.wakers.last();
            &&& state.notify_waker() == Some(last.1)
            &&& state.sleepers.has_waker(last.0)
            &&& !state.notified().sleepers.has_waker(last.0)
            &&& state.notified().sleepers.is_sleeping(last.0)
            &&& state.notified().sleepers.count == state.sleepers.count
        },
{
    if !state.notified {
        let table = state.sleepers;
        let last = table.wakers.last();
        let top = table.wakers.len() - 1;
        assert(table.ids()[top] == last.0);
        lemma_notified_wf(table);
        lemma_notified_keeps_sleepers(table, last.0);
        let after = table.notified();
        assert(after.ids() =~= table.ids().drop_last());
        if after.has_waker(last.0) {
            let k = after.ids().index_of(last.0);
            assert(0 <= k < after.ids().len() && after.ids()[k] == last.0);
            assert(table.ids()[k] == last.0);
        }
    }
}

/// The state after `times` notifications in a row.
pub open spec fn notified_times(state: StateView, times: nat) -> StateView
    decreases times,
{
    if times == 0 {
        state
    } else {
        notified_times(state.notified(), (times - 1) as nat)
    }
}

/// The number of wakers that `times` notifications in a row hand out.
pub open spec fn wakers_handed_out(state: StateView, times: nat) -> nat
    decreases times,
{
    if times == 0 {
        0
    } else {
        let first: nat = if state.notify_waker() is Some {
            1
        } else {
            0
        };
        first + wakers_handed_out(state.notified(), (times - 1) as nat)
    }
}

/// Notifications in a row, with no ticker going to sleep in between, wake at
/// most one ticker: all of them together do what the first one does.
pub proof fn law_notify_idempotent(state: StateView, times: nat)
    requires
        state.wf(),
    ensures
        wakers_handed_out(state, times) <= 1,
        times >= 1 ==> notified_times(state, times) == state.notified(),
        times >= 1 ==> wakers_handed_out(state, times) == (if state.notify_waker() is Some {
            1nat
        } else {
            0nat
        }),
    decreases times,
{
    if times >= 1 {
        law_notify_keeps_invariant(state);
        let once = state.notified();
        assert(once.notified() == once);
        assert(once.notify_waker() is None);
        law_notify_idempotent(once, (times - 1) as nat);
        if times >= 2 {
            assert(notified_times(once, (times - 1) as nat) == once.notified());
        } else {
            assert(notified_times(once, 0) == once);
        }
    }
}

/// A spawned task has one entry in the set of active tasks, under the index
/// that was vacant, until it completes; the entries of other tasks stay as
/// they are all the while.
pub proof fn law_one_entry_per_task(state: StateView, waker: Waker, vacant: usize, other: usize)
    requires
        !state.active.contains_key(state.vacant),
    ensures
        registered_task(state, waker, vacant).active.contains_key(state.vacant),
        registered_task(state, waker, vacant).active[state.vacant] == waker,
        completed(registered_task(state, waker, vacant), state.vacant).active == state.active,
        completed(registered_task(state, waker, vacant), state.vacant).vacant == state.vacant,
        other != state.vacant ==> (registered_task(state, waker, vacant).active.contains_key(other)
            <==> state.active.contains_key(other)),
        other != state.vacant && state.active.contains_key(other) ==> registered_task(
            state,
            waker,
            vacant,
        ).active[other] == state.active[other],
{
    let listed = registered_task(state, waker, vacant);
    assert(listed.active.remove(state.vacant) =~= state.active);
}

/// A task that finishes takes its own entry out of the set of active tasks
/// and no other: the set loses at most one entry.
pub proof fn law_one_task_completes(state: StateView, index: usize, other: usize)
    requires
        other != index,
    ensures
        !completed(state, index).active.contains_key(index),
        completed(state, index).active.contains_key(other) == state.active.contains_key(other),
        state.active.contains_key(other) ==> completed(state, index).active[other]
            == state.active[other],
{
}

/// Between the spawning of a task and its completion nothing touches its
/// entry: the steps of tickers and runners leave the set of active tasks as
/// it is.
pub proof fn law_active_set_is_left_alone(
    state: StateView,
    runner: RunnerView,
    peer: usize,
    start: int,
    pending: Seq<Runnable>,
    must_yield: bool,
    runnable: Runnable,
)
    ensures
        state.notified().active == state.active,
        state.woken(runner.ticker).active == state.active,
        state.released(runner.ticker).active == state.active,
        state.handed_over().active == state.active,
        state.stole_global(runner.id).active == state.active,
        state.stole_local(runner.id, peer).active == state.active,
        after_drain(state, runner.id, pending, must_yield).active == state.active,
        searched(state, runner.id, start).0.active == state.active,
        retired(state, runner).active == state.active,
        scheduled_globally(state, runnable).active == state.active,
{
}

/// After a task is spawned on an executor with nothing queued and no task
/// active, one `try_tick` takes its runnable; if running it completes the
/// task, the next `try_tick` finds nothing and the executor is empty.
pub proof fn law_drain(state: StateView, runnable: Runnable, waker: Waker, vacant: usize)
    requires
        state.wf(),
        state.queue.len() == 0,
        state.active == crate::active::no_entries(),
    ensures
        ({
            let spawned = scheduled_globally(registered_task(state, waker, vacant), runnable);
            let ticked = (StateView { queue: spawned.queue.drop_first(), ..spawned }).notified();
            let done = completed(ticked, state.vacant);
            &&& spawned.wf()
            &&& spawned.queue.len() == 1
            &&& spawned.queue[0] == runnable
            &&& spawned.active.contains_key(state.vacant)
            &&& ticked.wf()
            &&& ticked.queue.len() == 0
            &&& done.wf()
            &&& done.queue.len() == 0
            &&& done.active == crate::active::no_entries()
        }),
{
    let listed = registered_task(state, waker, vacant);
    let pushed = StateView { queue: listed.queue.push(runnable), ..listed };
    law_notify_keeps_invariant(pushed);
    let spawned = scheduled_globally(listed, runnable);
    let popped = StateView { queue: spawned.queue.drop_first(), ..spawned };
    law_notify_keeps_invariant(popped);
    let ticked = popped.notified();
    let done = completed(ticked, state.vacant);
    assert(done.active =~= state.active);
}

/// The runnables in the local queue of one slot.
pub open spec fn slot_runnables(slot: Slot<Runnable>) -> Multiset<Runnable> {
    match slot {
        Some(items) => items.to_multiset(),
        None => Multiset::empty(),
    }
}

/// The runnables in the local queues under the ids below `upto`.
pub open spec fn local_runnables(slots: Seq<Slot<Runnable>>, upto: int) -> Multiset<Runnable>
    decreases upto,
{
    if upto <= 0 {
        Multiset::empty()
    } else {
        local_runnables(slots, upto - 1).add(slot_runnables(slots[upto - 1]))
    }
}

/// The runnables that the state holds: those in the global queue and those in
/// the local queues, each as often as it is queued.
pub open spec fn queued_runnables(state: StateView) -> Multiset<Runnable> {
    state.queue.to_multiset().add(
        local_runnables(state.local_queues, state.local_queues.len() as int),
    )
}

/// The runnables with one more, if one is given.
pub open spec fn with_found(held: Multiset<Runnable>, found: Option<Runnable>) -> Multiset<
    Runnable,
> {
    match found {
        Some(runnable) => held.insert(runnable),
        None => held,
    }
}

/// How often a runnable counts as `v`: once if it is `v`, else not at all.
pub open spec fn one(runnable: Runnable, v: Runnable) -> nat {
    if runnable == v {
        1
    } else {
        0
    }
}

/// How often `found` counts as `v`.
pub open spec fn found_one(found: Option<Runnable>, v: Runnable) -> nat {
    match found {
        Some(runnable) => one(runnable, v),
        None => 0,
    }
}

/// An empty sequence holds nothing.
proof fn lemma_none_at(v: Runnable)
    ensures
        Seq::<Runnable>::empty().to_multiset().count(v) == 0,
{
    broadcast use vstd::multiset::group_multiset_axioms;

    Seq::<Runnable>::empty().to_multiset_ensures();
    assert(Seq::<Runnable>::empty().to_multiset().len() == 0);
    assert(Seq::<Runnable>::empty().to_multiset() =~= Multiset::<Runnable>::empty());
}

/// A sequence with one more item holds that item once more.
proof fn lemma_push_at(s: Seq<Runnable>, item: Runnable, v: Runnable)
    ensures
        s.push(item).to_multiset().count(v) == s.to_multiset().count(v) + one(item, v),
{
    broadcast use vstd::multiset::group_multiset_axioms;

    vstd::seq_lib::to_multiset_build(s, item);
    assert(s.push(item).to_multiset() == s.to_multiset().insert(item));
    assert(s.to_multiset().insert(item).count(v) == s.to_multiset().count(v)
        + Multiset::singleton(item).count(v));
}

/// Two sequences in a row hold what the two hold.
proof fn lemma_append_at(a: Seq<Runnable>, b: Seq<Runnable>, v: Runnable)
    ensures
        (a + b).to_multiset().count(v) == a.to_multiset().count(v) + b.to_multiset().count(v),
{
    broadcast use vstd::multiset::group_multiset_axioms;

    vstd::seq_lib::lemma_multiset_commutative(a, b);
    assert((a + b).to_multiset() == a.to_multiset().add(b.to_multiset()));
    assert(a.to_multiset().add(b.to_multiset()).count(v) == a.to_multiset().count(v)
        + b.to_multiset().count(v));
}

/// A sequence holds what its first `k` items and the rest hold.
proof fn lemma_split_at(s: Seq<Runnable>, k: int, v: Runnable)
    requires
        0 <= k <= s.len(),
    ensures
        s.to_multiset().count(v) == s.take(k).to_multiset().count(v) + s.skip(
            k,
        ).to_multiset().count(v),
{
    assert(s =~= s.take(k) + s.skip(k));
    lemma_append_at(s.take(k), s.skip(k), v);
}

/// A sequence holds its last item and what comes before it.
proof fn lemma_last_at(s: Seq<Runnable>, v: Runnable)
    requires
        s.len() > 0,
    ensures
        s.to_multiset().count(v) == s.drop_last().to_multiset().count(v) + one(s.last(), v),
{
    assert(s =~= s.drop_last().push(s.last()));
    lemma_push_at(s.drop_last(), s.last(), v);
}

/// A sequence holds its first item and what comes after it.
proof fn lemma_first_at(s: Seq<Runnable>, v: Runnable)
    requires
        s.len() > 0,
    ensures
        s.to_multiset().count(v) == s.drop_first().to_multiset().count(v) + one(s[0], v),
{
    let head = Seq::<Runnable>::empty().push(s[0]);
    assert(s =~= head + s.drop_first());
    lemma_append_at(head, s.drop_first(), v);
    lemma_push_at(Seq::<Runnable>::empty(), s[0], v);
    lemma_none_at(v);
}

/// A queue on which a batch landed holds what it held and the batch.
proof fn lemma_landed_at(items: Seq<Runnable>, batch: Seq<Runnable>, v: Runnable)
    ensures
        landed(items, batch).to_multiset().count(v) == items.to_multiset().count(v)
            + batch.to_multiset().count(v),
{
    lemma_append_at(items, batch.reverse(), v);
    batch.lemma_reverse_to_multiset();
    assert(batch.reverse().to_multiset() == batch.to_multiset());
}

/// A queue on which an item was pushed holds what it held and the item.
proof fn lemma_pushed_at(items: Seq<Runnable>, must_yield: bool, item: Runnable, v: Runnable)
    ensures
        pushed(items, must_yield, item).to_multiset().count(v) == items.to_multiset().count(v)
            + one(item, v),
{
    broadcast use vstd::multiset::group_multiset_axioms;

    if must_yield && items.len() > 0 {
        vstd::seq_lib::to_multiset_insert(items, items.len() - 1, item);
        assert(pushed(items, must_yield, item).to_multiset() == items.to_multiset().insert(
            item,
        ));
        assert(items.to_multiset().insert(item).count(v) == items.to_multiset().count(v)
            + Multiset::singleton(item).count(v));
    } else {
        lemma_push_at(items, item, v);
    }
}

/// Putting other items into one local queue changes how often the local
/// queues hold a runnable by just that.
proof fn lemma_slot_replaced_at(
    slots: Seq<Slot<Runnable>>,
    id: int,
    items: Seq<Runnable>,
    upto: int,
    v: Runnable,
)
    requires
        0 <= id < slots.len(),
        slots[id] is Some,
        0 <= upto <= slots.len(),
    ensures
        id < upto ==> local_runnables(slots.update(id, Some(items)), upto).count(v)
            + slots[id].unwrap().to_multiset().count(v) == local_runnables(slots, upto).count(v)
            + items.to_multiset().count(v),
        id >= upto ==> local_runnables(slots.update(id, Some(items)), upto).count(v)
            == local_runnables(slots, upto).count(v),
    decreases upto,
{
    broadcast use vstd::multiset::group_multiset_axioms;

    if upto > 0 {
        lemma_slot_replaced_at(slots, id, items, upto - 1, v);
        let changed = slots.update(id, Some(items));
        assert(local_runnables(changed, upto).count(v) == local_runnables(changed, upto - 1).count(
            v,
        ) + slot_runnables(changed[upto - 1]).count(v));
        assert(local_runnables(slots, upto).count(v) == local_runnables(slots, upto - 1).count(v)
            + slot_runnables(slots[upto - 1]).count(v));
    }
}

/// Taking one local queue out of the table takes what it holds from what the
/// local queues hold.
proof fn lemma_slot_removed_at(slots: Seq<Slot<Runnable>>, id: int, upto: int, v: Runnable)
    requires
        0 <= id < slots.len(),
        slots[id] is Some,
        0 <= upto <= slots.len(),
    ensures
        id < upto ==> local_runnables(slots.update(id, None), upto).count(v)
            + slots[id].unwrap().to_multiset().count(v) == local_runnables(slots, upto).count(v),
        id >= upto ==> local_runnables(slots.update(id, None), upto).count(v) == local_runnables(
            slots,
            upto,
        ).count(v),
    decreases upto,
{
    broadcast use vstd::multiset::group_multiset_axioms;

    if upto > 0 {
        lemma_slot_removed_at(slots, id, upto - 1, v);
        let changed = slots.update(id, None);
        assert(local_runnables(changed, upto).count(v) == local_runnables(changed, upto - 1).count(
            v,
        ) + slot_runnables(changed[upto - 1]).count(v));
        assert(local_runnables(slots, upto).count(v) == local_runnables(slots, upto - 1).count(v)
            + slot_runnables(slots[upto - 1]).count(v));
    }
}

/// What the state holds is what its queues hold.
proof fn lemma_queued_at(state: StateView, v: Runnable)
    ensures
        queued_runnables(state).count(v) == state.queue.to_multiset().count(v) + local_runnables(
            state.local_queues,
            state.local_queues.len() as int,
        ).count(v),
{
    broadcast use vstd::multiset::group_multiset_axioms;

}

/// What the state holds when one local queue holds other items.
proof fn lemma_with_queue_at(state: StateView, id: usize, items: Seq<Runnable>, v: Runnable)
    requires
        is_registered(state.local_queues, id as int),
    ensures
        queued_runnables(with_queue(state, id, items)).count(v) + queue_of(
            state,
            id,
        ).to_multiset().count(v) == queued_runnables(state).count(v) + items.to_multiset().count(
            v,
        ),
{
    let n = state.local_queues.len() as int;
    lemma_slot_replaced_at(state.local_queues, id as int, items, n, v);
    lemma_queued_at(state, v);
    lemma_queued_at(with_queue(state, id, items), v);
}

/// Collecting moves every pending runnable to one of the two queues.
proof fn lemma_drained_at(
    own: Seq<Runnable>,
    queue: Seq<Runnable>,
    pending: Seq<Runnable>,
    must_yield: bool,
    v: Runnable,
)
    ensures
        drained(own, queue, pending, must_yield).0.to_multiset().count(v) + drained(
            own,
            queue,
            pending,
            must_yield,
        ).1.to_multiset().count(v) == own.to_multiset().count(v) + queue.to_multiset().count(v)
            + pending.to_multiset().count(v),
    decreases pending.len(),
{
    if pending.len() == 0 {
        assert(pending =~= Seq::<Runnable>::empty());
        lemma_none_at(v);
    } else {
        lemma_first_at(pending, v);
        if own.len() < LOCAL_QUEUE_CAPACITY {
            lemma_pushed_at(own, must_yield, pending[0], v);
            lemma_drained_at(
                pushed(own, must_yield, pending[0]),
                queue,
                pending.drop_first(),
                must_yield,
                v,
            );
        } else {
            lemma_push_at(queue, pending[0], v);
            lemma_drained_at(own, queue.push(pending[0]), pending.drop_first(), must_yield, v);
        }
    }
}

/// A victim that the round finds is a registered peer with something queued.
proof fn lemma_victim(slots: Seq<Slot<Runnable>>, id: usize, start: int, i: int)
    requires
        0 <= i,
        0 <= start < registered_ids(slots).len(),
        slots.len() <= usize::MAX,
    ensures
        first_victim(slots, id, start, i) matches Some(peer) ==> peer != id && is_registered(
            slots,
            peer as int,
        ) && slots[peer as int].unwrap().len() > 0,
    decreases registered_ids(slots).len() - i,
{
    let order = registered_ids(slots);
    if i < order.len() {
        lemma_registered_ids(slots, slots.len() as int);
        let at = visit_index(order.len() as int, start, i);
        assert(visit(order, start, i) == order[at]);
        lemma_victim(slots, id, start, i + 1);
    }
}

/// A search conserves the runnables, runnable by runnable.
proof fn lemma_search_conserves_at(state: StateView, id: usize, start: int, v: Runnable)
    requires
        state.local_queues.len() <= usize::MAX,
        is_registered(state.local_queues, id as int),
        0 <= start < registered_ids(state.local_queues).len(),
    ensures
        queued_runnables(state).count(v) == queued_runnables(searched(state, id, start).0).count(
            v,
        ) + found_one(searched(state, id, start).1, v),
{
    let own = queue_of(state, id);
    let post = searched(state, id, start).0;
    if own.len() > 0 {
        lemma_last_at(own, v);
        lemma_with_queue_at(state, id, own.drop_last(), v);
    } else if state.queue.len() > 0 {
        let count = global_batch(LOCAL_QUEUE_CAPACITY as int, 0, state.queue.len() as int);
        let batch = state.queue.take(count);
        let got = landed(own, batch);
        let rest = got.drop_last();
        assert(count >= 1);
        assert(own =~= Seq::<Runnable>::empty());
        lemma_none_at(v);
        lemma_split_at(state.queue, count, v);
        lemma_landed_at(own, batch, v);
        lemma_last_at(got, v);
        assert(got.last() == batch[0]);
        let moved = with_queue(state, id, rest);
        lemma_with_queue_at(state, id, rest, v);
        assert(post.local_queues == moved.local_queues);
        lemma_queued_at(moved, v);
        lemma_queued_at(post, v);
    } else {
        lemma_victim(state.local_queues, id, start, 0);
        match first_victim(state.local_queues, id, start, 0) {
            Some(peer) => {
                let theirs = queue_of(state, peer);
                let count = peer_batch(LOCAL_QUEUE_CAPACITY as int, 0, theirs.len() as int);
                let batch = theirs.take(count);
                let none = Seq::<Runnable>::empty();
                let got = landed(none, batch);
                let rest = got.drop_last();
                assert(count >= 1);
                assert(own =~= none);
                lemma_none_at(v);
                lemma_split_at(theirs, count, v);
                lemma_landed_at(none, batch, v);
                lemma_last_at(got, v);
                assert(got.last() == batch[0]);
                let mine = with_queue(state, id, rest);
                lemma_with_queue_at(state, id, rest, v);
                assert(queue_of(mine, peer) == theirs);
                lemma_with_queue_at(mine, peer, theirs.skip(count), v);
            },
            None => {},
        }
    }
}

/// A search conserves the runnables: what the state held before is what it
/// holds afterwards and the runnable that was found. No runnable is lost, and
/// none is in two places.
pub proof fn law_search_conserves(state: StateView, id: usize, start: int)
    requires
        state.local_queues.len() <= usize::MAX,
        is_registered(state.local_queues, id as int),
        0 <= start < registered_ids(state.local_queues).len(),
    ensures
        queued_runnables(state) == with_found(
            queued_runnables(searched(state, id, start).0),
            searched(state, id, start).1,
        ),
{
    broadcast use vstd::multiset::group_multiset_axioms;

    let left = queued_runnables(state);
    let right = with_found(
        queued_runnables(searched(state, id, start).0),
        searched(state, id, start).1,
    );
    assert forall|v: Runnable| left.count(v) == right.count(v) by {
        lemma_search_conserves_at(state, id, start, v);
    }
    assert(left =~= right);
}

/// A runner that collects the handoff slot moves the runnables that wait
/// there into the state: none is lost, and none is there twice.
pub proof fn law_collecting_conserves(
    state: StateView,
    id: usize,
    pending: Seq<Runnable>,
    must_yield: bool,
)
    requires
        is_registered(state.local_queues, id as int),
    ensures
        queued_runnables(after_drain(state, id, pending, must_yield)) == queued_runnables(
            state,
        ).add(pending.to_multiset()),
{
    broadcast use vstd::multiset::group_multiset_axioms;

    let own = queue_of(state, id);
    let both = drained(own, state.queue, pending, must_yield);
    let moved = with_queue(state, id, both.0);
    let after = after_drain(state, id, pending, must_yield);
    assert(after.local_queues == moved.local_queues);
    let left = queued_runnables(after);
    let right = queued_runnables(state).add(pending.to_multiset());
    assert forall|v: Runnable| left.count(v) == right.count(v) by {
        lemma_drained_at(own, state.queue, pending, must_yield, v);
        lemma_with_queue_at(state, id, both.0, v);
        lemma_queued_at(moved, v);
        lemma_queued_at(after, v);
        lemma_queued_at(state, v);
    }
    assert(left =~= right);
}

/// A runner that moves a batch from the global queue to its queue, when it
/// has found nothing else or for fairness' sake, moves it: the state holds
/// the same runnables as before.
pub proof fn law_global_steal_conserves(state: StateView, id: usize)
    requires
        is_registered(state.local_queues, id as int),
        queue_of(state, id).len() <= LOCAL_QUEUE_CAPACITY,
    ensures
        queued_runnables(state.stole_global(id)) == queued_runnables(state),
{
    broadcast use vstd::multiset::group_multiset_axioms;

    let own = queue_of(state, id);
    let count = global_batch(
        LOCAL_QUEUE_CAPACITY as int,
        own.len() as int,
        state.queue.len() as int,
    );
    let after = state.stole_global(id);
    assert forall|v: Runnable| queued_runnables(after).count(v) == queued_runnables(state).count(
        v,
    ) by {
        let batch = state.queue.take(count);
        let moved = with_queue(state, id, landed(own, batch));
        lemma_split_at(state.queue, count, v);
        lemma_landed_at(own, batch, v);
        lemma_with_queue_at(state, id, landed(own, batch), v);
        assert(after.local_queues == moved.local_queues);
        lemma_queued_at(moved, v);
        lemma_queued_at(after, v);
    }
    assert(queued_runnables(after) =~= queued_runnables(state));
}

/// A runner that moves a batch from the queue of a peer to its own moves it:
/// the state holds the same runnables as before.
pub proof fn law_peer_steal_conserves(state: StateView, id: usize, peer: usize)
    requires
        is_registered(state.local_queues, id as int),
        is_registered(state.local_queues, peer as int),
        id != peer,
        queue_of(state, id).len() <= LOCAL_QUEUE_CAPACITY,
    ensures
        queued_runnables(state.stole_local(id, peer)) == queued_runnables(state),
{
    broadcast use vstd::multiset::group_multiset_axioms;

    let own = queue_of(state, id);
    let theirs = queue_of(state, peer);
    let count = peer_batch(LOCAL_QUEUE_CAPACITY as int, own.len() as int, theirs.len() as int);
    let after = state.stole_local(id, peer);
    assert forall|v: Runnable| queued_runnables(after).count(v) == queued_runnables(state).count(
        v,
    ) by {
        let batch = theirs.take(count);
        let mine = with_queue(state, id, landed(own, batch));
        let both = with_queue(mine, peer, theirs.skip(count));
        lemma_split_at(theirs, count, v);
        lemma_landed_at(own, batch, v);
        lemma_with_queue_at(state, id, landed(own, batch), v);
        assert(queue_of(mine, peer) == theirs);
        lemma_with_queue_at(mine, peer, theirs.skip(count), v);
        assert(after.local_queues == both.local_queues);
        lemma_queued_at(after, v);
        lemma_queued_at(both, v);
    }
    assert(queued_runnables(after) =~= queued_runnables(state));
}

/// A runner that retires gives back what it had queued: the state holds the
/// same runnables as before.
pub proof fn law_retiring_conserves(state: StateView, runner: RunnerView)
    requires
        is_registered(state.local_queues, runner.id as int),
    ensures
        queued_runnables(retired(state, runner)) == queued_runnables(state),
{
    broadcast use vstd::multiset::group_multiset_axioms;

    let left_over = queue_of(state, runner.id);
    let back = requeued(state, runner.id);
    let n = state.local_queues.len() as int;
    assert(queued_runnables(retired(state, runner)) == queued_runnables(back));
    assert forall|v: Runnable| queued_runnables(back).count(v) == queued_runnables(state).count(
        v,
    ) by {
        lemma_slot_removed_at(state.local_queues, runner.id as int, n, v);
        lemma_append_at(state.queue, left_over.reverse(), v);
        left_over.lemma_reverse_to_multiset();
        assert(left_over.reverse().to_multiset() == left_over.to_multiset());
        lemma_queued_at(back, v);
        lemma_queued_at(state, v);
    }
    assert(queued_runnables(back) =~= queued_runnables(state));
}

/// A runnable that is scheduled is in one place afterwards: in the handoff
/// slot of the thread, or in the global queue.
pub proof fn law_scheduling_conserves(state: StateView, tls: TlsView, runnable: Runnable)
    ensures
        queued_runnables(scheduled_globally(state, runnable)) == queued_runnables(state).insert(
            runnable,
        ),
        handed_off(tls, state.id, runnable).pending().to_multiset()
            == tls.pending().to_multiset().insert(runnable),
{
    broadcast use vstd::multiset::group_multiset_axioms;

    vstd::seq_lib::to_multiset_build(tls.pending(), runnable);
    let left = queued_runnables(scheduled_globally(state, runnable));
    let right = queued_runnables(state).insert(runnable);
    assert forall|v: Runnable| left.count(v) == right.count(v) by {
        lemma_push_at(state.queue, runnable, v);
        lemma_queued_at(scheduled_globally(state, runnable), v);
        lemma_queued_at(state, v);
        assert(right.count(v) == queued_runnables(state).count(v) + Multiset::singleton(
            runnable,
        ).count(v));
    }
    assert(left =~= right);
}

/// Runnables that were handed to a worker through the handoff slot and are
/// still there when the slot is cleared come up in the global queue: the
/// state then holds what it held and what waited in the slot.
pub proof fn law_cleared_slot_conserves(state: StateView, tls: TlsView)
    ensures
        queued_runnables(StateView { queue: state.queue + tls.pending(), ..state })
            == queued_runnables(state).add(tls.pending().to_multiset()),
{
    broadcast use vstd::multiset::group_multiset_axioms;

    let cleared = StateView { queue: state.queue + tls.pending(), ..state };
    let left = queued_runnables(cleared);
    let right = queued_runnables(state).add(tls.pending().to_multiset());
    assert forall|v: Runnable| left.count(v) == right.count(v) by {
        lemma_append_at(state.queue, tls.pending(), v);
        lemma_queued_at(cleared, v);
        lemma_queued_at(state, v);
    }
    assert(left =~= right);
}

/// True if `live` can be the set of the ids under which the tickers of the
/// state sleep: there are as many ids as sleepers, each of them is the id of
/// a sleeper, and every waker in the table belongs to one of them.
pub open spec fn coherent(state: StateView, live: Set<usize>) -> bool {
    &&& state.wf()
    &&& live.finite()
    &&& live.len() == state.sleepers.count
    &&& forall|id: usize| live.contains(id) ==> state.sleepers.is_sleeping(id)
    &&& forall|i: int|
        0 <= i < state.sleepers.wakers.len() ==> live.contains(#[trigger] state.sleepers.ids()[i])
}

/// At most one of the sleeping tickers is without a waker: the one that is
/// notified.
pub proof fn law_one_notified(state: StateView, live: Set<usize>, a: usize, b: usize)
    requires
        coherent(state, live),
        live.contains(a),
        live.contains(b),
        !state.sleepers.has_waker(a),
        !state.sleepers.has_waker(b),
    ensures
        a == b,
        state.sleepers.count == state.sleepers.wakers.len() + 1,
{
    let ids = state.sleepers.ids();
    let with_wakers = ids.to_set();
    ids.unique_seq_to_set();
    assert forall|id: usize| with_wakers.contains(id) implies live.contains(id) by {
        let i = choose|i: int| 0 <= i < ids.len() && ids[i] == id;
        assert(live.contains(ids[i]));
    }
    assert(!with_wakers.contains(a)) by {
        if with_wakers.contains(a) {
            assert(ids.contains(a));
        }
    }
    assert(!with_wakers.contains(b)) by {
        if with_wakers.contains(b) {
            assert(ids.contains(b));
        }
    }
    assert(with_wakers.subset_of(live));
    vstd::set_lib::lemma_len_subset(with_wakers, live);
    with_wakers.lemma_subset_not_in_lt(live, a);
    if a != b {
        let more = with_wakers.insert(a);
        assert(more.subset_of(live));
        vstd::set_lib::lemma_len_subset(more, live);
        more.lemma_subset_not_in_lt(live, b);
    }
}

/// Ids are unique while live: a ticker that goes to sleep gets an id under
/// which no ticker sleeps, and the other sleepers stay what they are.
pub proof fn law_sleeper_joins(state: StateView, live: Set<usize>, waker: Waker)
    requires
        coherent(state, live),
        state.sleepers.count < usize::MAX,
    ensures
        !live.contains(state.sleepers.next_id()),
        coherent(
            state.with_sleepers(state.sleepers.inserted(waker)),
            live.insert(state.sleepers.next_id()),
        ),
{
    let table = state.sleepers;
    let id = table.next_id();
    let after = table.inserted(waker);
    lemma_inserted_wf(table, waker);
    assert(after.ids() =~= table.ids().push(id));
    assert forall|other: usize| live.insert(id).contains(other) implies after.is_sleeping(
        other,
    ) by {
        if other == id {
            assert(after.ids()[after.wakers.len() - 1] == id);
        } else if table.has_waker(other) {
            let k = table.ids().index_of(other);
            assert(0 <= k < table.ids().len() && table.ids()[k] == other);
            assert(after.ids()[k] == other);
        } else {
            if after.free_ids.contains(other) {
                let j = choose|j: int| 0 <= j < after.free_ids.len() && after.free_ids[j] == other;
                assert(table.free_ids[j] == other);
                assert(table.free_ids.contains(other));
            }
        }
    }
    assert forall|i: int| 0 <= i < after.wakers.len() implies live.insert(id).contains(
        #[trigger] after.ids()[i],
    ) by {
        if i < table.wakers.len() {
            assert(after.ids()[i] == table.ids()[i]);
        }
    }
}

/// A notified ticker that registers its waker again, or an unnotified one
/// that brings its waker up to date, leaves the other sleepers what they are.
pub proof fn law_sleeper_stays(
    pre: StateView,
    live: Set<usize>,
    id: usize,
    post: StateView,
    now: usize,
    went: bool,
)
    requires
        coherent(pre, live),
        live.contains(id),
        slept(pre, id, post, now, went),
    ensures
        now == id,
        coherent(post, live),
        post.sleepers.has_waker(id),
{
    let table = pre.sleepers;
    assert(id != 0);
    if table.has_waker(id) {
        let waker = post.sleepers.wakers[table.position(id)].1;
        lemma_refreshed_wf(table, id, waker);
        assert(post.sleepers.is_notified() == table.is_notified());
        assert forall|other: usize| live.contains(other) implies post.sleepers.is_sleeping(
            other,
        ) by {
            assert(table.is_sleeping(other));
        }
        assert forall|i: int| 0 <= i < post.sleepers.wakers.len() implies live.contains(
            #[trigger] post.sleepers.ids()[i],
        ) by {
            assert(post.sleepers.ids()[i] == table.ids()[i]);
        }
    } else {
        let waker = post.sleepers.wakers.last().1;
        let after = table.reregistered(id, waker);
        lemma_reregistered_wf(table, id, waker);
        assert(after.ids() =~= table.ids().push(id));
        assert(after.ids()[after.wakers.len() - 1] == id);
        assert forall|other: usize| live.contains(other) implies after.is_sleeping(other) by {
            if other != id {
                if !table.has_waker(other) {
                    law_one_notified(pre, live, id, other);
                }
                let k = table.ids().index_of(other);
                assert(0 <= k < table.ids().len() && table.ids()[k] == other);
                assert(after.ids()[k] == other);
            }
        }
        assert forall|i: int| 0 <= i < after.wakers.len() implies live.contains(
            #[trigger] after.ids()[i],
        ) by {
            if i < table.wakers.len() {
                assert(after.ids()[i] == table.ids()[i]);
            }
        }
    }
}

/// A ticker that wakes up leaves the other sleepers what they are.
pub proof fn law_sleeper_leaves(state: StateView, live: Set<usize>, id: usize)
    requires
        coherent(state, live),
        live.contains(id),
    ensures
        coherent(state.woken(id), live.remove(id)),
{
    let table = state.sleepers;
    let after = table.removed(id);
    lemma_removed_wf(table, id);
    assert(id != 0);
    assert forall|other: usize| live.remove(id).contains(other) implies after.is_sleeping(
        other,
    ) by {
        if !table.has_waker(other) && !table.has_waker(id) {
            law_one_notified(state, live, id, other);
        }
        if table.has_waker(other) {
            let k = table.ids().index_of(other);
            assert(0 <= k < table.ids().len() && table.ids()[k] == other);
            if table.has_waker(id) {
                let at = table.position(id);
                assert(0 <= at < table.ids().len() && table.ids()[at] == id);
                assert(after.ids() =~= table.ids().remove(at));
                if k < at {
                    assert(after.ids()[k] == other);
                } else {
                    assert(after.ids()[k - 1] == other);
                }
            } else {
                assert(after.ids() =~= table.ids());
            }
        } else {
            assert(table.has_waker(id));
            if after.free_ids.contains(other) {
                let j = choose|j: int| 0 <= j < after.free_ids.len() && after.free_ids[j] == other;
                if j < table.free_ids.len() {
                    assert(table.free_ids[j] == other);
                    assert(table.free_ids.contains(other));
                }
            }
        }
    }
    assert forall|i: int| 0 <= i < after.wakers.len() implies live.remove(id).contains(
        #[trigger] after.ids()[i],
    ) by {
        if table.has_waker(id) {
            let at = table.position(id);
            assert(0 <= at < table.ids().len() && table.ids()[at] == id);
            assert(after.ids() =~= table.ids().remove(at));
            let from = if i < at {
                i
            } else {
                i + 1
            };
            assert(after.ids()[i] == table.ids()[from]);
            assert(live.contains(table.ids()[from]));
        } else {
            assert(after.ids() =~= table.ids());
            assert(after.ids()[i] == table.ids()[i]);
            if table.ids()[i] == id {
                assert(table.ids().contains(id));
            }
        }
    }
}

/// A notification leaves every sleeper a sleeper.
pub proof fn law_notify_keeps_sleepers(state: StateView, live: Set<usize>)
    requires
        coherent(state, live),
    ensures
        coherent(state.notified(), live),
{
    let table = state.sleepers;
    lemma_notified_wf(table);
    if !state.notified {
        let after = table.notified();
        assert forall|other: usize| live.contains(other) implies after.is_sleeping(other) by {
            lemma_notified_keeps_sleepers(table, other);
        }
        assert forall|i: int| 0 <= i < after.wakers.len() implies live.contains(
            #[trigger] after.ids()[i],
        ) by {
            assert(after.ids()[i] == table.ids()[i]);
        }
    }
}

/// The runnable that a poll hands out, if it hands one out.
pub open spec fn handed_out(found: Option<Found>) -> Option<Runnable> {
    match found {
        Some(found) => Some(found.runnable),
        None => None,
    }
}

/// Collecting the handoff slot never fills the runner's queue beyond its
/// capacity.
proof fn lemma_drained_fits(
    own: Seq<Runnable>,
    queue: Seq<Runnable>,
    pending: Seq<Runnable>,
    must_yield: bool,
)
    requires
        own.len() <= LOCAL_QUEUE_CAPACITY,
    ensures
        drained(own, queue, pending, must_yield).0.len() <= LOCAL_QUEUE_CAPACITY,
    decreases pending.len(),
{
    if pending.len() > 0 {
        if own.len() < LOCAL_QUEUE_CAPACITY {
            lemma_drained_fits(
                pushed(own, must_yield, pending[0]),
                queue,
                pending.drop_first(),
                must_yield,
            );
        } else {
            lemma_drained_fits(own, queue.push(pending[0]), pending.drop_first(), must_yield);
        }
    }
}

/// After a search the runner's queue is registered as before and holds no
/// more than its capacity.
proof fn lemma_searched_fits(state: StateView, id: usize, start: int)
    requires
        state.local_queues.len() <= usize::MAX,
        is_registered(state.local_queues, id as int),
        0 <= start < registered_ids(state.local_queues).len(),
        queue_of(state, id).len() <= LOCAL_QUEUE_CAPACITY,
    ensures
        is_registered(searched(state, id, start).0.local_queues, id as int),
        queue_of(searched(state, id, start).0, id).len() <= LOCAL_QUEUE_CAPACITY,
{
    let own = queue_of(state, id);
    if own.len() == 0 && state.queue.len() == 0 {
        lemma_victim(state.local_queues, id, start, 0);
    }
}

/// One poll of a runner conserves the runnables. What the handoff slot, the
/// global queue and the local queues held before the poll is what the queues
/// hold after it and the runnable that the poll hands out: nothing is lost or
/// doubled, whether the runner's queue was full, whether the poll found
/// something or parked the ticker, and whether it was the turn of the global
/// queue for fairness' sake.
pub proof fn law_poll_conserves(
    pre: StateView,
    runner: RunnerView,
    pending: Seq<Runnable>,
    must_yield: bool,
    start: int,
    post: StateView,
    after: RunnerView,
    found: Option<Found>,
)
    requires
        pre.wf(),
        runner.attached(pre),
        queue_of(pre, runner.id).len() <= LOCAL_QUEUE_CAPACITY,
        0 <= start < registered_ids(pre.local_queues).len(),
        polled(after_drain(pre, runner.id, pending, must_yield), runner, start, post, after, found),
    ensures
        queued_runnables(pre).add(pending.to_multiset()) == with_found(
            queued_runnables(post),
            handed_out(found),
        ),
{
    let id = runner.id;
    let settled = after_drain(pre, id, pending, must_yield);
    law_collecting_conserves(pre, id, pending, must_yield);
    crate::runner::lemma_after_drain(pre, id, pending, must_yield);
    lemma_drained_fits(queue_of(pre, id), pre.queue, pending, must_yield);
    law_search_conserves(settled, id, start);
    lemma_searched_fits(settled, id, start);
    let hit = searched(settled, id, start);
    match hit.1 {
        Some(runnable) => {
            let handed = hit.0.woken(runner.ticker).handed_over();
            assert(handed.queue == hit.0.queue);
            assert(handed.local_queues == hit.0.local_queues);
            assert(queued_runnables(handed) == queued_runnables(hit.0));
            if next_tick(runner.ticks) % FAIRNESS_INTERVAL == 0 {
                law_global_steal_conserves(handed, id);
            }
        },
        None => {
            assert(post.queue == settled.queue);
            assert(post.local_queues == settled.local_queues);
            assert(queued_runnables(post) == queued_runnables(settled));
        },
    }
}

/// A ticker that goes to sleep for a poll leaves behind the waker of the
/// poll: the table of sleepers holds the copy that was handed in, unless the
/// ticker slept with a waker that wakes the same task, which then stays.
pub proof fn law_sleep_stores_the_waker(
    pre: StateView,
    id: usize,
    same: bool,
    copy: Option<Waker>,
    post: StateView,
    now: usize,
    went: bool,
)
    requires
        pre.wf(),
        id == 0 || pre.sleepers.is_sleeping(id),
        id == 0 ==> pre.sleepers.count < usize::MAX,
        enough(pre, id, same, copy),
        slept_with(pre, id, same, copy, post, now, went),
    ensures
        post.wf(),
        now != 0,
        post.sleepers.has_waker(now),
        went == (id == 0 || !pre.sleepers.has_waker(id)),
        post.sleepers.wakers[post.sleepers.position(now)] == (
            now,
            if id != 0 && pre.sleepers.has_waker(id) && same {
                pre.sleepers.wakers[pre.sleepers.position(id)].1
            } else {
                copy->0
            },
        ),
{
    let table = pre.sleepers;
    crate::ticker::lemma_slept_with(pre, id, same, copy, post, now, went);
    law_sleep_keeps_invariant(pre, id, post, now, went);
    if id != 0 && table.has_waker(id) {
        let at = table.position(id);
        assert(0 <= at < table.ids().len() && table.ids()[at] == id);
        if !same {
            lemma_refreshed_wf(table, id, copy->0);
        }
        crate::sleepers::lemma_position(post.sleepers, id, at);
    } else {
        let last = post.sleepers.wakers.len() - 1;
        crate::sleepers::lemma_position(post.sleepers, now, last);
    }
}

/// A poll that finds nothing twice leaves the waker of the poll registered.
///
/// A ticker that is awake or notified goes to sleep after the first search,
/// with the first copy of the waker, and the step is to search once more.
/// After the second search it sleeps unnotified, the step is to wait, and
/// the table holds the first copy, or the second if the first is said not to
/// wake the same task. The `notified` flag is in line with the table.
pub proof fn law_poll_leaves_the_waker(
    pre: StateView,
    id: usize,
    first: Waker,
    mid: StateView,
    there: usize,
    same: bool,
    second: Option<Waker>,
    post: StateView,
    now: usize,
    went: bool,
)
    requires
        pre.wf(),
        id == 0 || pre.sleepers.is_sleeping(id),
        id == 0 || !pre.sleepers.has_waker(id),
        id == 0 ==> pre.sleepers.count < usize::MAX,
        slept_with(pre, id, false, Some(first), mid, there, true),
        !same ==> second is Some,
        slept_with(mid, there, same, second, post, now, went),
    ensures
        !went,
        now == there,
        now != 0,
        post.wf(),
        post.sleepers.has_waker(now),
        post.notified == post.sleepers.is_notified(),
        post.sleepers.count == mid.sleepers.count,
        post.sleepers.wakers[post.sleepers.position(now)] == (
            now,
            if same {
                first
            } else {
                second->0
            },
        ),
{
    law_sleep_stores_the_waker(pre, id, false, Some(first), mid, there, true);
    law_sleep_stores_the_waker(mid, there, same, second, post, now, went);
}

} // verus!
