use async_executor::state::State;
use async_executor::ticker::{Step, Ticker};
use async_executor::tls::{clear_tls, try_pop_tls, try_push_tls, Tls};
use async_task::Runnable;
use std::sync::{Arc, Mutex};
use std::task::{Wake, Waker};

struct TickerBell(Mutex<usize>);

impl Wake for TickerBell {
    fn wake(self: Arc<Self>) {
        *self.0.lock().unwrap() += 1;
    }
}

fn ticker_waker() -> (Arc<TickerBell>, Waker) {
    let bell = Arc::new(TickerBell(Mutex::new(0)));
    (bell.clone(), Waker::from(bell))
}

fn rings(bell: &Arc<TickerBell>) -> usize {
    *bell.0.lock().unwrap()
}

type TickerLog = Arc<Mutex<Vec<usize>>>;

fn logging_task(id: usize, log: &TickerLog) -> Runnable {
    let log = log.clone();
    let (runnable, task) = async_task::spawn(
        async move {
            log.lock().unwrap().push(id);
        },
        |_| {},
    );
    task.detach();
    runnable
}

fn logged(log: &TickerLog) -> Vec<usize> {
    log.lock().unwrap().clone()
}

#[test]
fn new_state_is_notified_and_empty() {
    let state = State::new(7);
    assert_eq!(state.id(), 7);
    assert!(state.is_notified());
    assert_eq!(state.queued(), 0);
    assert_eq!(state.searching(), 0);
    assert_eq!(state.runners(), 0);
    assert_eq!(state.sleepers().count(), 0);
    assert_eq!(state.local_queued(0), None);
}

#[test]
fn global_queue_of_the_state_is_first_in_first_out() {
    let log = TickerLog::default();
    let mut state = State::new(1);
    state.push_global(logging_task(1, &log));
    state.push_global(logging_task(2, &log));
    assert_eq!(state.queued(), 2);
    state.pop_global().unwrap().run();
    state.pop_global().unwrap().run();
    assert!(state.pop_global().is_none());
    assert_eq!(logged(&log), vec![1, 2]);
}

#[test]
fn notify_without_sleepers_does_nothing() {
    let mut state = State::new(1);
    assert!(state.notify().is_none());
    assert!(state.is_notified());
}

#[test]
fn sleep_registers_once() {
    let mut state = State::new(1);
    let mut ticker = Ticker::new();
    let (_, waker) = ticker_waker();
    assert_eq!(ticker.sleeping(), 0);
    assert!(ticker.is_attached(&state));
    assert!(ticker.sleep(&mut state, &waker));
    assert_eq!(ticker.sleeping(), 1);
    assert!(!state.is_notified());
    assert_eq!(state.sleepers().count(), 1);
    assert_eq!(state.sleepers().unnotified(), 1);
    // Already sleeping and unnotified.
    assert!(!ticker.sleep(&mut state, &waker));
    assert_eq!(ticker.sleeping(), 1);
    assert_eq!(state.sleepers().count(), 1);
    assert!(ticker.is_attached(&state));
}

#[test]
fn notify_wakes_one_sleeper_and_only_one() {
    let mut state = State::new(1);
    let mut first = Ticker::new();
    let mut second = Ticker::new();
    let (first_bell, first_waker) = ticker_waker();
    let (second_bell, second_waker) = ticker_waker();
    assert!(first.sleep(&mut state, &first_waker));
    assert!(second.sleep(&mut state, &second_waker));
    assert!(!state.is_notified());
    let mut woken = 0;
    for _ in 0..5 {
        if let Some(waker) = state.notify() {
            waker.wake();
            woken += 1;
        }
        assert!(state.is_notified());
    }
    assert_eq!(woken, 1);
    assert_eq!(rings(&first_bell), 0);
    assert_eq!(rings(&second_bell), 1);
    assert_eq!(state.sleepers().count(), 2);
    assert_eq!(state.sleepers().unnotified(), 1);
}

#[test]
fn notified_sleeper_registers_again() {
    let mut state = State::new(1);
    let mut ticker = Ticker::new();
    let (_, waker) = ticker_waker();
    assert!(ticker.sleep(&mut state, &waker));
    assert!(state.notify().is_some());
    assert!(state.is_notified());
    // Notified: sleep registers the waker again and says so.
    assert!(ticker.sleep(&mut state, &waker));
    assert!(!state.is_notified());
    assert_eq!(state.sleepers().count(), 1);
    assert_eq!(state.sleepers().unnotified(), 1);
    assert!(!ticker.sleep(&mut state, &waker));
}

#[test]
fn wake_takes_the_ticker_out_of_the_table() {
    let mut state = State::new(1);
    let mut ticker = Ticker::new();
    let (_, waker) = ticker_waker();
    assert!(ticker.wake(&mut state).is_none());
    assert!(ticker.sleep(&mut state, &waker));
    let back = ticker.wake(&mut state).unwrap();
    assert!(back.will_wake(&waker));
    assert_eq!(ticker.sleeping(), 0);
    assert_eq!(state.sleepers().count(), 0);
    assert!(state.is_notified());
    assert!(ticker.wake(&mut state).is_none());
}

#[test]
fn wake_of_a_notified_ticker_returns_nothing() {
    let mut state = State::new(1);
    let mut first = Ticker::new();
    let mut second = Ticker::new();
    let (_, waker) = ticker_waker();
    first.sleep(&mut state, &waker);
    second.sleep(&mut state, &waker);
    assert!(state.notify().is_some());
    assert!(second.wake(&mut state).is_none());
    // One sleeper is left, and it is not notified.
    assert!(!state.is_notified());
    assert_eq!(state.sleepers().count(), 1);
    assert!(first.is_attached(&state));
}

#[test]
fn released_ticker_passes_its_notification_on() {
    let mut state = State::new(1);
    let mut first = Ticker::new();
    let mut second = Ticker::new();
    let (first_bell, first_waker) = ticker_waker();
    let (_, second_waker) = ticker_waker();
    first.sleep(&mut state, &first_waker);
    second.sleep(&mut state, &second_waker);
    // The notification goes to the second ticker, which is dropped before it runs.
    assert!(state.notify().unwrap().will_wake(&second_waker));
    let passed = second.release(&mut state).unwrap();
    assert!(passed.will_wake(&first_waker));
    passed.wake();
    assert_eq!(rings(&first_bell), 1);
    assert_eq!(second.sleeping(), 0);
    assert!(state.is_notified());
    assert_eq!(state.sleepers().count(), 1);
    assert_eq!(state.sleepers().unnotified(), 0);
}

#[test]
fn released_ticker_that_was_not_notified_wakes_nobody() {
    let mut state = State::new(1);
    let mut first = Ticker::new();
    let mut second = Ticker::new();
    let (_, waker) = ticker_waker();
    first.sleep(&mut state, &waker);
    second.sleep(&mut state, &waker);
    assert!(second.release(&mut state).is_none());
    assert!(!state.is_notified());
    assert_eq!(state.sleepers().count(), 1);
    let mut awake = Ticker::new();
    assert!(awake.release(&mut state).is_none());
    assert_eq!(state.sleepers().count(), 1);
}

#[test]
fn runnable_with_settles_each_search() {
    let log = TickerLog::default();
    let mut state = State::new(1);
    let mut ticker = Ticker::new();
    let (_, waker) = ticker_waker();
    // Nothing found, awake: register and search again.
    assert!(matches!(ticker.runnable_with(&mut state, &waker, None), Step::Retry));
    assert_eq!(ticker.sleeping(), 1);
    // Nothing found, asleep and unnotified: wait.
    assert!(matches!(ticker.runnable_with(&mut state, &waker, None), Step::Pending));
    // Found: wake up and hand it out.
    match ticker.runnable_with(&mut state, &waker, Some(logging_task(5, &log))) {
        Step::Ready(found) => {
            assert!(found.wake.is_none());
            found.runnable.run();
        }
        _ => panic!("a found runnable is handed out"),
    }
    assert_eq!(logged(&log), vec![5]);
    assert_eq!(ticker.sleeping(), 0);
    assert_eq!(state.sleepers().count(), 0);
}

#[test]
fn finder_hands_the_search_over() {
    let log = TickerLog::default();
    let mut state = State::new(1);
    let mut sleeper = Ticker::new();
    let mut finder = Ticker::new();
    let (bell, sleeper_waker) = ticker_waker();
    let (_, finder_waker) = ticker_waker();
    sleeper.sleep(&mut state, &sleeper_waker);
    match finder.runnable_with(&mut state, &finder_waker, Some(logging_task(1, &log))) {
        Step::Ready(found) => {
            // Nobody is searching, so the sleeper is notified.
            found.wake.unwrap().wake();
        }
        _ => panic!("a found runnable is handed out"),
    }
    assert_eq!(rings(&bell), 1);
    assert!(state.is_notified());
}

#[test]
fn ticker_finds_the_oldest_runnable() {
    let log = TickerLog::default();
    let mut state = State::new(1);
    let mut ticker = Ticker::new();
    let (_, waker) = ticker_waker();
    state.push_global(logging_task(1, &log));
    state.push_global(logging_task(2, &log));
    let found = ticker.runnable(&mut state, &waker).unwrap();
    assert!(found.wake.is_none());
    found.runnable.run();
    assert_eq!(logged(&log), vec![1]);
    assert_eq!(state.queued(), 1);
    assert_eq!(ticker.sleeping(), 0);
}

#[test]
fn ticker_parks_when_the_queue_is_empty() {
    let log = TickerLog::default();
    let mut state = State::new(1);
    let mut ticker = Ticker::new();
    let (_, waker) = ticker_waker();
    assert!(ticker.runnable(&mut state, &waker).is_none());
    assert_eq!(ticker.sleeping(), 1);
    assert!(state.sleepers().has_waker(1));
    assert!(!state.is_notified());
    // Parked again: nothing changes.
    assert!(ticker.runnable(&mut state, &waker).is_none());
    assert_eq!(state.sleepers().count(), 1);
    assert_eq!(state.sleepers().unnotified(), 1);
    // Work arrives.
    state.push_global(logging_task(3, &log));
    let found = ticker.runnable(&mut state, &waker).unwrap();
    found.runnable.run();
    assert_eq!(logged(&log), vec![3]);
    assert_eq!(ticker.sleeping(), 0);
    assert_eq!(state.sleepers().count(), 0);
    assert!(state.is_notified());
}

#[test]
fn empty_slot_refuses_the_handoff() {
    let log = TickerLog::default();
    let mut state = State::new(1);
    let mut ticker = Ticker::new();
    let mut tls = Tls::new();
    assert_eq!(tls.state(), None);
    assert_eq!(tls.pending(), 0);
    let back = try_push_tls(&mut tls, &mut state, &mut ticker, logging_task(1, &log));
    back.unwrap_err().run();
    assert_eq!(logged(&log), vec![1]);
    assert_eq!(tls.pending(), 0);
    assert!(try_pop_tls(&mut tls).is_none());
}

#[test]
fn just_yielded_is_read_once() {
    let mut tls = Tls::new();
    assert!(!tls.take_just_yielded());
    tls.set_just_yielded(true);
    assert!(tls.take_just_yielded());
    assert!(!tls.take_just_yielded());
    tls.set_just_yielded(true);
    tls.set_just_yielded(false);
    assert!(!tls.take_just_yielded());
}

#[test]
fn clearing_an_empty_slot_changes_nothing() {
    let log = TickerLog::default();
    let mut state = State::new(1);
    state.push_global(logging_task(1, &log));
    let mut tls = Tls::new();
    clear_tls(&mut tls, &mut state);
    assert_eq!(state.queued(), 1);
    assert_eq!(tls.state(), None);
}

fn flag_mirrors_table(state: &State) {
    let sleepers = state.sleepers();
    assert!(sleepers.unnotified() <= sleepers.count());
    assert_eq!(
        state.is_notified(),
        sleepers.count() == 0 || sleepers.count() > sleepers.unnotified()
    );
}

#[test]
fn notified_flag_follows_the_table_of_sleepers() {
    let log = TickerLog::default();
    let mut state = State::new(1);
    let (_, waker) = ticker_waker();
    let mut tickers = vec![Ticker::new(), Ticker::new(), Ticker::new()];
    flag_mirrors_table(&state);
    for round in 0..12usize {
        let ticker = &mut tickers[round % 3];
        match round % 4 {
            0 | 1 => {
                ticker.sleep(&mut state, &waker);
            }
            2 => {
                state.notify();
            }
            _ => {
                ticker.wake(&mut state);
            }
        }
        flag_mirrors_table(&state);
        for ticker in &tickers {
            assert!(ticker.is_attached(&state));
        }
        if round % 5 == 4 {
            state.push_global(logging_task(round, &log));
            let found = tickers[0].runnable(&mut state, &waker);
            assert!(found.is_some());
            flag_mirrors_table(&state);
        }
    }
    for ticker in tickers.iter_mut() {
        ticker.release(&mut state);
        flag_mirrors_table(&state);
    }
    assert_eq!(state.sleepers().count(), 0);
    assert!(state.is_notified());
}

#[test]
fn sleep_with_registers_the_copy_handed_in() {
    let mut state = State::new(1);
    let mut ticker = Ticker::new();
    let (_, first) = ticker_waker();
    let (_, second) = ticker_waker();
    // Awake: the copy is registered under the next id.
    assert!(ticker.sleep_with(&mut state, false, Some(first.clone())));
    assert_eq!(ticker.sleeping(), 1);
    assert!(state.sleepers().waker_at(0).will_wake(&first));
    assert!(!state.is_notified());
    // Asleep, and told that the waker in place wakes the same task: it stays.
    assert!(!ticker.sleep_with(&mut state, true, None));
    assert!(state.sleepers().waker_at(0).will_wake(&first));
    // Told that it does not: the new copy takes its place.
    assert!(!ticker.sleep_with(&mut state, false, Some(second.clone())));
    assert!(state.sleepers().waker_at(0).will_wake(&second));
    assert_eq!(state.sleepers().count(), 1);
    assert_eq!(state.sleepers().unnotified(), 1);
    // Notified: the copy is registered again, whatever the answer.
    assert!(state.notify().unwrap().will_wake(&second));
    assert!(ticker.sleep_with(&mut state, true, Some(first.clone())));
    assert!(state.sleepers().waker_at(0).will_wake(&first));
    assert!(!state.is_notified());
    assert_eq!(ticker.sleeping(), 1);
}

#[test]
fn sleep_leaves_the_waker_of_the_poll() {
    let mut state = State::new(1);
    let mut ticker = Ticker::new();
    let (_, first) = ticker_waker();
    let (_, second) = ticker_waker();
    assert!(ticker.sleep(&mut state, &first));
    assert!(state.sleepers().waker_at(0).will_wake(&first));
    // The same waker again: nothing to do.
    assert!(!ticker.sleep(&mut state, &first));
    assert!(state.sleepers().waker_at(0).will_wake(&first));
    // A poll with another waker: that one is registered from now on.
    assert!(!ticker.sleep(&mut state, &second));
    assert!(state.sleepers().waker_at(0).will_wake(&second));
    assert!(!state.sleepers().waker_at(0).will_wake(&first));
}

#[test]
fn settle_goes_by_what_it_is_told_of_the_waker() {
    let log = TickerLog::default();
    let mut state = State::new(1);
    let mut ticker = Ticker::new();
    let (_, first) = ticker_waker();
    let (_, second) = ticker_waker();
    assert!(matches!(
        ticker.settle(&mut state, None, false, Some(first.clone())),
        Step::Retry
    ));
    assert!(matches!(ticker.settle(&mut state, None, true, None), Step::Pending));
    assert!(state.sleepers().waker_at(0).will_wake(&first));
    assert!(matches!(
        ticker.settle(&mut state, None, false, Some(second.clone())),
        Step::Pending
    ));
    assert!(state.sleepers().waker_at(0).will_wake(&second));
    match ticker.settle(&mut state, Some(logging_task(8, &log)), true, None) {
        Step::Ready(found) => found.runnable.run(),
        _ => panic!("a found runnable is handed out"),
    };
    assert_eq!(logged(&log), vec![8]);
    assert_eq!(ticker.sleeping(), 0);
    assert_eq!(state.sleepers().count(), 0);
}

#[test]
fn two_empty_searches_leave_the_waker_of_the_poll() {
    let mut state = State::new(1);
    let mut ticker = Ticker::new();
    let (_, waker) = ticker_waker();
    assert!(matches!(ticker.runnable_with(&mut state, &waker, None), Step::Retry));
    assert!(matches!(ticker.runnable_with(&mut state, &waker, None), Step::Pending));
    assert_eq!(state.sleepers().count(), 1);
    assert_eq!(state.sleepers().unnotified(), 1);
    assert_eq!(state.sleepers().find(ticker.sleeping()), Some(0));
    assert!(state.sleepers().waker_at(0).will_wake(&waker));
    assert!(!state.is_notified());
}
