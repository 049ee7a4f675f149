use async_executor::runner::{Runner, FAIRNESS_INTERVAL};
use async_executor::state::State;
use async_executor::ticker::Ticker;
use async_executor::tls::{clear_tls, try_pop_tls, try_push_tls, Tls};
use async_task::Runnable;
use std::sync::{Arc, Mutex};
use std::task::{Wake, Waker};

struct RunnerBell(Mutex<usize>);

impl Wake for RunnerBell {
    fn wake(self: Arc<Self>) {
        *self.0.lock().unwrap() += 1;
    }
}

fn runner_waker() -> (Arc<RunnerBell>, Waker) {
    let bell = Arc::new(RunnerBell(Mutex::new(0)));
    (bell.clone(), Waker::from(bell))
}

fn runner_rings(bell: &Arc<RunnerBell>) -> usize {
    *bell.0.lock().unwrap()
}

type RunLog = Arc<Mutex<Vec<usize>>>;

fn marked(id: usize, log: &RunLog) -> Runnable {
    let log = log.clone();
    let (runnable, task) = async_task::spawn(
        async move {
            log.lock().unwrap().push(id);
        },
        |_| {},
    );
    task.detach();
    runnable
}

fn ran(log: &RunLog) -> Vec<usize> {
    log.lock().unwrap().clone()
}

/// Puts runnables on a runner's own queue, by way of the handoff slot: the
/// search that collects them takes one more runnable, pushed last, off the top.
fn load(runner: &mut Runner, state: &mut State, ids: std::ops::Range<usize>, log: &RunLog) {
    let mut tls = Tls::new();
    runner.set_tls_active(&mut tls, state);
    for id in ids {
        let handed = try_push_tls(&mut tls, state, runner.ticker_mut(), marked(id, log));
        assert!(handed.is_ok());
    }
    let extra = RunLog::default();
    assert!(try_push_tls(&mut tls, state, runner.ticker_mut(), marked(0, &extra)).is_ok());
    runner.search(state, &mut tls).unwrap().run();
    assert_eq!(ran(&extra), vec![0]);
    clear_tls(&mut tls, state);
}

#[test]
fn runners_get_the_smallest_free_id() {
    let mut state = State::new(1);
    let mut first = Runner::new(&mut state);
    let second = Runner::new(&mut state);
    assert_eq!(first.id(), 0);
    assert_eq!(second.id(), 1);
    assert_eq!(state.runners(), 2);
    assert!(first.is_attached(&state));
    assert_eq!(state.local_queued(0), Some(0));
    let wakers = first.retire(&mut state);
    assert!(wakers.0.is_none() && wakers.1.is_none());
    assert!(!first.is_attached(&state));
    assert_eq!(state.runners(), 1);
    assert_eq!(state.local_queued(0), None);
    let third = Runner::new(&mut state);
    assert_eq!(third.id(), 0);
    let fourth = Runner::new(&mut state);
    assert_eq!(fourth.id(), 2);
}

#[test]
fn search_finds_nothing_when_nothing_is_queued() {
    let mut state = State::new(1);
    let runner = Runner::new(&mut state);
    let _peer = Runner::new(&mut state);
    let mut tls = Tls::new();
    assert!(runner.search(&mut state, &mut tls).is_none());
    assert_eq!(state.searching(), 0);
    assert_eq!(state.queued(), 0);
    assert_eq!(state.local_queued(0), Some(0));
    assert_eq!(state.local_queued(1), Some(0));
}

#[test]
fn search_collects_the_handoff_slot_first() {
    let log = RunLog::default();
    let mut state = State::new(1);
    let mut runner = Runner::new(&mut state);
    let mut tls = Tls::new();
    runner.set_tls_active(&mut tls, &state);
    assert_eq!(tls.state(), Some(1));
    state.push_global(marked(10, &log));
    for id in 1..4 {
        let handed = try_push_tls(&mut tls, &mut state, runner.ticker_mut(), marked(id, &log));
        assert!(matches!(handed, Ok(None)));
    }
    assert_eq!(tls.pending(), 3);
    // The own queue is served newest first, then the global queue.
    for _ in 0..4 {
        runner.search(&mut state, &mut tls).unwrap().run();
    }
    assert_eq!(ran(&log), vec![3, 2, 1, 10]);
    assert_eq!(tls.pending(), 0);
    assert!(runner.search(&mut state, &mut tls).is_none());
    assert_eq!(state.searching(), 0);
}

#[test]
fn yielded_task_is_not_the_next_one_run() {
    let log = RunLog::default();
    let mut state = State::new(1);
    let mut runner = Runner::new(&mut state);
    let mut tls = Tls::new();
    runner.set_tls_active(&mut tls, &state);
    for id in 1..3 {
        assert!(try_push_tls(&mut tls, &mut state, runner.ticker_mut(), marked(id, &log)).is_ok());
    }
    runner.search(&mut state, &mut tls).unwrap().run();
    // 1 is queued. The task that ran has yielded and comes back as 7: it goes below 1.
    tls.set_just_yielded(true);
    assert!(try_push_tls(&mut tls, &mut state, runner.ticker_mut(), marked(7, &log)).is_ok());
    runner.search(&mut state, &mut tls).unwrap().run();
    runner.search(&mut state, &mut tls).unwrap().run();
    assert_eq!(ran(&log), vec![2, 1, 7]);
}

#[test]
fn yield_bias_holds_for_every_collected_runnable() {
    let log = RunLog::default();
    let mut state = State::new(1);
    let mut runner = Runner::new(&mut state);
    let mut tls = Tls::new();
    runner.set_tls_active(&mut tls, &state);
    tls.set_just_yielded(true);
    for id in 1..4 {
        assert!(try_push_tls(&mut tls, &mut state, runner.ticker_mut(), marked(id, &log)).is_ok());
    }
    // [1], then [2, 1], then [2, 3, 1]: each goes one place below the hot end.
    for _ in 0..3 {
        runner.search(&mut state, &mut tls).unwrap().run();
    }
    assert_eq!(ran(&log), vec![1, 3, 2]);
    assert!(!tls.take_just_yielded());
}

#[test]
fn full_local_queue_spills_to_the_global_queue() {
    let log = RunLog::default();
    let mut state = State::new(1);
    let mut runner = Runner::new(&mut state);
    let mut tls = Tls::new();
    runner.set_tls_active(&mut tls, &state);
    for id in 0..514 {
        assert!(try_push_tls(&mut tls, &mut state, runner.ticker_mut(), marked(id, &log)).is_ok());
    }
    runner.search(&mut state, &mut tls).unwrap().run();
    assert_eq!(ran(&log), vec![511]);
    assert_eq!(state.local_queued(0), Some(511));
    assert_eq!(state.queued(), 2);
    state.pop_global().unwrap().run();
    state.pop_global().unwrap().run();
    assert_eq!(ran(&log), vec![511, 512, 513]);
}

#[test]
fn search_moves_a_batch_from_the_global_queue() {
    let log = RunLog::default();
    let mut state = State::new(1);
    let runner = Runner::new(&mut state);
    let mut tls = Tls::new();
    for id in 0..600 {
        state.push_global(marked(id, &log));
    }
    runner.search(&mut state, &mut tls).unwrap().run();
    // Half the capacity, 256, has moved; the oldest of it ran.
    assert_eq!(state.queued(), 344);
    assert_eq!(state.local_queued(0), Some(255));
    assert_eq!(state.searching(), 0);
    for _ in 0..255 {
        runner.search(&mut state, &mut tls).unwrap().run();
    }
    assert_eq!(state.local_queued(0), Some(0));
    assert_eq!(state.queued(), 344);
    assert_eq!(ran(&log), (0..256).collect::<Vec<usize>>());
    runner.search(&mut state, &mut tls).unwrap().run();
    assert_eq!(state.queued(), 88);
    assert_eq!(ran(&log).last(), Some(&256));
}

#[test]
fn search_steals_the_older_half_of_a_peer() {
    let log = RunLog::default();
    let mut state = State::new(1);
    let mut owner = Runner::new(&mut state);
    let thief = Runner::new(&mut state);
    load(&mut owner, &mut state, 1..6, &log);
    assert_eq!(state.local_queued(0), Some(5));
    let mut tls = Tls::new();
    thief.search(&mut state, &mut tls).unwrap().run();
    // Three of five moved: 1, 2, 3. The oldest ran.
    assert_eq!(ran(&log), vec![1]);
    assert_eq!(state.local_queued(0), Some(2));
    assert_eq!(state.local_queued(1), Some(2));
    assert_eq!(state.searching(), 0);
    thief.search(&mut state, &mut tls).unwrap().run();
    thief.search(&mut state, &mut tls).unwrap().run();
    assert_eq!(ran(&log), vec![1, 2, 3]);
    owner.search(&mut state, &mut tls).unwrap().run();
    assert_eq!(ran(&log), vec![1, 2, 3, 5]);
}

#[test]
fn round_over_the_peers_starts_where_it_is_told() {
    let log = RunLog::default();
    let mut state = State::new(1);
    let mut zero = Runner::new(&mut state);
    let _one = Runner::new(&mut state);
    let mut two = Runner::new(&mut state);
    let thief = Runner::new(&mut state);
    assert_eq!(thief.id(), 3);
    load(&mut zero, &mut state, 0..2, &log);
    load(&mut two, &mut state, 20..22, &log);
    // From place 1 the round goes 1, 2, 3, 0: the first peer with work is 2.
    thief.steal_from_peers(&mut state, 1).unwrap().run();
    assert_eq!(ran(&log), vec![20]);
    assert_eq!(state.local_queued(2), Some(1));
    assert_eq!(state.local_queued(0), Some(2));
    // From place 3, the thief's own, the round goes on to 0.
    thief.steal_from_peers(&mut state, 3).unwrap().run();
    assert_eq!(ran(&log), vec![20, 0]);
    assert_eq!(state.local_queued(0), Some(1));
    // From place 0 it finds 0 at once.
    thief.steal_from_peers(&mut state, 0).unwrap().run();
    assert_eq!(ran(&log), vec![20, 0, 1]);
    thief.steal_from_peers(&mut state, 2).unwrap().run();
    assert_eq!(ran(&log), vec![20, 0, 1, 21]);
    for start in 0..4 {
        assert!(thief.steal_from_peers(&mut state, start).is_none());
    }
}

#[test]
fn search_finds_work_wherever_it_is() {
    let log = RunLog::default();
    let mut state = State::new(1);
    let mut far = Runner::new(&mut state);
    let searchers = [
        Runner::new(&mut state),
        Runner::new(&mut state),
        Runner::new(&mut state),
    ];
    load(&mut far, &mut state, 0..40, &log);
    // Random starts or not, every search finds something while anything is queued.
    let mut tls = Tls::new();
    let mut found = 0;
    'all: loop {
        for searcher in &searchers {
            match searcher.search(&mut state, &mut tls) {
                Some(runnable) => {
                    runnable.run();
                    found += 1;
                }
                None => break 'all,
            }
        }
    }
    assert_eq!(found, 40);
    let mut all = ran(&log);
    all.sort();
    assert_eq!(all, (0..40).collect::<Vec<usize>>());
    assert_eq!(state.searching(), 0);
}

#[test]
fn runnable_hands_out_and_counts() {
    let log = RunLog::default();
    let mut state = State::new(1);
    let mut runner = Runner::new(&mut state);
    let mut tls = Tls::new();
    let (_, waker) = runner_waker();
    state.push_global(marked(1, &log));
    let found = runner.runnable(&mut state, &mut tls, &waker).unwrap();
    assert!(found.wake.is_none());
    found.runnable.run();
    assert_eq!(ran(&log), vec![1]);
    assert!(runner.is_attached(&state));
}

#[test]
fn every_sixty_fourth_tick_takes_from_the_global_queue() {
    assert_eq!(FAIRNESS_INTERVAL, 64);
    let log = RunLog::default();
    let mut state = State::new(1);
    let mut runner = Runner::new(&mut state);
    let mut tls = Tls::new();
    let (_, waker) = runner_waker();
    load(&mut runner, &mut state, 0..64, &log);
    for id in 100..110 {
        state.push_global(marked(id, &log));
    }
    for tick in 1..64 {
        runner.runnable(&mut state, &mut tls, &waker).unwrap().runnable.run();
        assert_eq!(state.queued(), 10, "tick {}", tick);
    }
    assert_eq!(state.local_queued(0), Some(1));
    runner.runnable(&mut state, &mut tls, &waker).unwrap().runnable.run();
    // The 64th tick: the own queue was enough, and yet the global queue is served.
    assert_eq!(state.queued(), 0);
    assert_eq!(state.local_queued(0), Some(10));
    runner.runnable(&mut state, &mut tls, &waker).unwrap().runnable.run();
    assert_eq!(ran(&log).last(), Some(&100));
}

#[test]
fn idle_runner_parks_and_is_woken_by_a_handoff() {
    let log = RunLog::default();
    let mut state = State::new(1);
    let mut runner = Runner::new(&mut state);
    let mut tls = Tls::new();
    runner.set_tls_active(&mut tls, &state);
    let (bell, waker) = runner_waker();
    assert!(runner.runnable(&mut state, &mut tls, &waker).is_none());
    assert!(!state.is_notified());
    assert_eq!(state.sleepers().count(), 1);
    assert_eq!(state.searching(), 0);
    // A task scheduled on this thread goes to the slot and wakes the runner.
    let handed = try_push_tls(&mut tls, &mut state, runner.ticker_mut(), marked(4, &log));
    let own = handed.unwrap().unwrap();
    assert!(own.will_wake(&waker));
    own.wake();
    assert_eq!(runner_rings(&bell), 1);
    assert_eq!(state.sleepers().count(), 0);
    assert!(state.is_notified());
    let found = runner.runnable(&mut state, &mut tls, &waker).unwrap();
    found.runnable.run();
    assert_eq!(ran(&log), vec![4]);
}

#[test]
fn finding_runner_notifies_a_sleeping_peer() {
    let log = RunLog::default();
    let mut state = State::new(1);
    let mut sleeper = Runner::new(&mut state);
    let mut finder = Runner::new(&mut state);
    let mut tls = Tls::new();
    let (bell, sleeper_waker) = runner_waker();
    let (_, finder_waker) = runner_waker();
    assert!(sleeper.runnable(&mut state, &mut tls, &sleeper_waker).is_none());
    state.push_global(marked(1, &log));
    state.push_global(marked(2, &log));
    let found = finder.runnable(&mut state, &mut tls, &finder_waker).unwrap();
    found.wake.unwrap().wake();
    found.runnable.run();
    assert_eq!(runner_rings(&bell), 1);
    // The sleeper takes over the search and steals the runnable that is left.
    let found = sleeper.runnable(&mut state, &mut tls, &sleeper_waker).unwrap();
    assert!(found.wake.is_none());
    found.runnable.run();
    assert_eq!(ran(&log), vec![1, 2]);
}

#[test]
fn retired_runner_gives_its_work_back() {
    let log = RunLog::default();
    let mut state = State::new(1);
    let mut runner = Runner::new(&mut state);
    let mut sleeper = Ticker::new();
    let (_, waker) = runner_waker();
    load(&mut runner, &mut state, 1..4, &log);
    assert!(sleeper.sleep(&mut state, &waker));
    let wakers = runner.retire(&mut state);
    assert!(wakers.0.unwrap().will_wake(&waker));
    assert!(wakers.1.is_none());
    assert_eq!(state.runners(), 0);
    assert_eq!(state.queued(), 3);
    assert!(state.is_notified());
    while let Some(runnable) = state.pop_global() {
        runnable.run();
    }
    // Newest first, as the runner would have popped them.
    assert_eq!(ran(&log), vec![3, 2, 1]);
}

#[test]
fn retired_runner_leaves_the_table_of_sleepers() {
    let mut state = State::new(1);
    let mut runner = Runner::new(&mut state);
    let mut tls = Tls::new();
    let (_, waker) = runner_waker();
    assert!(runner.runnable(&mut state, &mut tls, &waker).is_none());
    assert_eq!(state.sleepers().count(), 1);
    let wakers = runner.retire(&mut state);
    assert!(wakers.0.is_none() && wakers.1.is_none());
    assert_eq!(state.sleepers().count(), 0);
    assert!(state.is_notified());
}

#[test]
fn handoff_for_another_state_is_refused() {
    let log = RunLog::default();
    let mut mine = State::new(1);
    let mut other = State::new(2);
    let runner = Runner::new(&mut mine);
    let mut stranger = Ticker::new();
    let mut tls = Tls::new();
    runner.set_tls_active(&mut tls, &mine);
    let back = try_push_tls(&mut tls, &mut other, &mut stranger, marked(1, &log));
    assert!(back.is_err());
    assert_eq!(tls.pending(), 0);
    // A slot in use stays with the state that it is in use for.
    let late = Runner::new(&mut other);
    late.set_tls_active(&mut tls, &other);
    assert_eq!(tls.state(), Some(1));
}

#[test]
fn cleared_slot_gives_its_runnables_to_the_global_queue() {
    let log = RunLog::default();
    let mut state = State::new(1);
    let mut runner = Runner::new(&mut state);
    let mut tls = Tls::new();
    runner.set_tls_active(&mut tls, &state);
    state.push_global(marked(0, &log));
    for id in 1..4 {
        assert!(try_push_tls(&mut tls, &mut state, runner.ticker_mut(), marked(id, &log)).is_ok());
    }
    clear_tls(&mut tls, &mut state);
    assert_eq!(tls.state(), None);
    assert_eq!(tls.pending(), 0);
    assert_eq!(state.queued(), 4);
    while let Some(runnable) = state.pop_global() {
        runnable.run();
    }
    assert_eq!(ran(&log), vec![0, 1, 2, 3]);
}

#[test]
fn collected_slot_stays_in_use() {
    let log = RunLog::default();
    let mut state = State::new(1);
    let mut runner = Runner::new(&mut state);
    let mut tls = Tls::new();
    runner.set_tls_active(&mut tls, &state);
    assert!(try_push_tls(&mut tls, &mut state, runner.ticker_mut(), marked(1, &log)).is_ok());
    assert!(try_push_tls(&mut tls, &mut state, runner.ticker_mut(), marked(2, &log)).is_ok());
    let pending = try_pop_tls(&mut tls).unwrap();
    assert_eq!(pending.len(), 2);
    assert_eq!(tls.pending(), 0);
    assert_eq!(tls.state(), Some(1));
    assert_eq!(try_pop_tls(&mut tls).unwrap().len(), 0);
    for runnable in pending {
        runnable.run();
    }
    assert_eq!(ran(&log), vec![1, 2]);
}
