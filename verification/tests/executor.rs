use async_executor::executor::{Executor, LocalExecutor, RunStep, YIELD_INTERVAL};
use async_executor::ticker::{Found, Ticker};
use async_executor::tls::{clear_tls, Tls};
use async_task::{Runnable, Task};
use std::future::Future;
use std::pin::Pin;
use std::sync::{Arc, Mutex};
use std::task::{Context, Poll, Wake, Waker};

struct Bell(Mutex<usize>);

impl Wake for Bell {
    fn wake(self: Arc<Self>) {
        *self.0.lock().unwrap() += 1;
    }
}

fn bell() -> (Arc<Bell>, Waker) {
    let bell = Arc::new(Bell(Mutex::new(0)));
    (bell.clone(), Waker::from(bell))
}

fn count(bell: &Arc<Bell>) -> usize {
    *bell.0.lock().unwrap()
}

/// Where the schedule function of a task leaves the runnable, and where a
/// finished task leaves its index: the test carries both over to the executor.
#[derive(Clone, Default)]
struct Inbox {
    scheduled: Arc<Mutex<Vec<Runnable>>>,
    finished: Arc<Mutex<Vec<usize>>>,
}

struct Finish {
    index: usize,
    finished: Arc<Mutex<Vec<usize>>>,
}

impl Drop for Finish {
    fn drop(&mut self) {
        self.finished.lock().unwrap().push(self.index);
    }
}

impl Inbox {
    /// Builds a task around `index`, as a front-end does before `spawn`.
    fn task<T: Send + 'static>(
        &self,
        index: usize,
        future: impl Future<Output = T> + Send + 'static,
    ) -> (Runnable, Task<T>) {
        let guard = Finish { index, finished: self.finished.clone() };
        let scheduled = self.scheduled.clone();
        async_task::spawn(
            async move {
                let _guard = guard;
                future.await
            },
            move |runnable| scheduled.lock().unwrap().push(runnable),
        )
    }

    fn take_scheduled(&self) -> Vec<Runnable> {
        std::mem::take(&mut *self.scheduled.lock().unwrap())
    }

    fn take_finished(&self) -> Vec<usize> {
        std::mem::take(&mut *self.finished.lock().unwrap())
    }
}

/// Spawns a future on the executor, from a thread that drives no executor.
fn spawn_on<T: Send + 'static>(
    executor: &mut Executor,
    inbox: &Inbox,
    future: impl Future<Output = T> + Send + 'static,
) -> (usize, Task<T>) {
    let index = executor.next_index();
    let (runnable, task) = inbox.task(index, future);
    let mut tls = Tls::new();
    let mut ticker = Ticker::new();
    let spawned = executor.spawn(&mut tls, &mut ticker, runnable);
    assert_eq!(spawned.index, index);
    if let Some(waker) = spawned.wake {
        waker.wake();
    }
    (index, task)
}

/// Wakes and runs what an operation found, then carries over what the task
/// left behind. Returns what `run` returned.
fn perform(executor: &mut Executor, inbox: &Inbox, found: Found) -> bool {
    if let Some(waker) = found.wake {
        waker.wake();
    }
    let yielded = found.runnable.run();
    settle(executor, inbox);
    yielded
}

fn settle(executor: &mut Executor, inbox: &Inbox) {
    for index in inbox.take_finished() {
        executor.complete(index);
    }
    for runnable in inbox.take_scheduled() {
        let mut tls = Tls::new();
        let mut ticker = Ticker::new();
        if let Some(waker) = executor.schedule(&mut tls, &mut ticker, runnable) {
            waker.wake();
        }
    }
}

fn output<T>(task: &mut Task<T>) -> Option<T> {
    let (_, waker) = bell();
    match Pin::new(task).poll(&mut Context::from_waker(&waker)) {
        Poll::Ready(value) => Some(value),
        Poll::Pending => None,
    }
}

struct YieldOnce {
    yielded: bool,
}

impl Future for YieldOnce {
    type Output = u32;

    fn poll(mut self: Pin<&mut Self>, cx: &mut Context<'_>) -> Poll<u32> {
        if self.yielded {
            Poll::Ready(7)
        } else {
            self.yielded = true;
            cx.waker().wake_by_ref();
            Poll::Pending
        }
    }
}

#[test]
fn new_executor_is_empty() {
    let mut executor = Executor::new(3);
    assert!(executor.is_empty());
    assert_eq!(executor.next_index(), 0);
    assert_eq!(executor.state().id(), 3);
    assert!(executor.state().is_notified());
    assert_eq!(executor.state().queued(), 0);
    assert!(executor.try_tick().is_none());
    assert!(executor.is_empty());
}

#[test]
fn spawn_registers_and_schedules() {
    let inbox = Inbox::default();
    let mut executor = Executor::new(1);
    let (index, _task) = spawn_on(&mut executor, &inbox, async {});
    assert_eq!(index, 0);
    assert!(!executor.is_empty());
    assert_eq!(executor.state().queued(), 1);
    assert_eq!(executor.next_index(), 1);
    let (second, _second_task) = spawn_on(&mut executor, &inbox, async {});
    assert_eq!(second, 1);
    assert_eq!(executor.state().queued(), 2);
}

#[test]
fn finished_task_frees_its_index() {
    let inbox = Inbox::default();
    let mut executor = Executor::new(1);
    let (first, _a) = spawn_on(&mut executor, &inbox, async {});
    let (second, _b) = spawn_on(&mut executor, &inbox, async {});
    assert_eq!((first, second), (0, 1));
    assert!(executor.complete(first).is_some());
    assert!(!executor.is_empty());
    assert_eq!(executor.next_index(), 0);
    // Tolerated: the task is not in the set any more.
    assert!(executor.complete(first).is_none());
    assert!(executor.complete(17).is_none());
    assert!(!executor.is_empty());
    assert!(executor.complete(second).is_some());
    assert!(executor.is_empty());
    assert_eq!(executor.next_index(), 1);
}

#[test]
fn spawned_sum_runs_to_five() {
    let inbox = Inbox::default();
    let mut executor = Executor::new(1);
    let (_, mut task) = spawn_on(&mut executor, &inbox, async { 2 + 3 });
    let mut tls = Tls::new();
    let mut run = executor.run(&mut tls);
    let (_, waker) = bell();
    let mut result = None;
    while result.is_none() {
        match run.next(&mut executor, &mut tls, &waker) {
            RunStep::Run(found) => {
                let yielded = perform(&mut executor, &inbox, found);
                tls.set_just_yielded(yielded);
            }
            RunStep::Yield => {}
            RunStep::Pending => panic!("the task is queued"),
        }
        result = output(&mut task);
    }
    assert_eq!(result, Some(5));
    clear_tls(&mut tls, executor.state_mut());
    run.retire(&mut executor);
    assert!(executor.is_empty());
    assert_eq!(executor.state().runners(), 0);
}

#[test]
fn four_tasks_tick_four_times() {
    let inbox = Inbox::default();
    let mut executor = Executor::new(1);
    let mut tasks = Vec::new();
    for _ in 0..4 {
        tasks.push(spawn_on(&mut executor, &inbox, async {}).1);
    }
    for _ in 0..4 {
        let found = executor.try_tick().unwrap();
        perform(&mut executor, &inbox, found);
    }
    assert!(executor.try_tick().is_none());
    assert!(executor.is_empty());
}

#[test]
fn drained_executor_is_empty() {
    let inbox = Inbox::default();
    let mut executor = Executor::new(1);
    let (_, _task) = spawn_on(&mut executor, &inbox, async { 1 });
    let mut ticks = 0;
    while let Some(found) = executor.try_tick() {
        perform(&mut executor, &inbox, found);
        ticks += 1;
    }
    assert_eq!(ticks, 1);
    assert!(executor.is_empty());
}

#[test]
fn task_that_yields_once_returns_seven() {
    let inbox = Inbox::default();
    let mut executor = Executor::new(1);
    let (_, mut task) = spawn_on(&mut executor, &inbox, YieldOnce { yielded: false });
    let mut tls = Tls::new();
    let mut run = executor.run(&mut tls);
    let (_, waker) = bell();
    let mut yields = Vec::new();
    let mut result = None;
    while result.is_none() {
        match run.next(&mut executor, &mut tls, &waker) {
            RunStep::Run(found) => {
                let yielded = perform(&mut executor, &inbox, found);
                tls.set_just_yielded(yielded);
                yields.push(yielded);
            }
            RunStep::Yield => {}
            RunStep::Pending => panic!("the task is queued"),
        }
        result = output(&mut task);
    }
    assert_eq!(result, Some(7));
    assert_eq!(yields, vec![true, false]);
    clear_tls(&mut tls, executor.state_mut());
    run.retire(&mut executor);
    assert!(executor.is_empty());
    assert_eq!(executor.state().queued(), 0);
}

#[test]
fn four_workers_run_a_thousand_tasks_once_each() {
    let inbox = Inbox::default();
    let mut executor = Executor::new(1);
    let results = Arc::new(Mutex::new(Vec::new()));
    let mut workers = Vec::new();
    for _ in 0..4 {
        let mut tls = Tls::new();
        let run = executor.run(&mut tls);
        workers.push((run, tls, bell()));
    }
    let mut tasks = Vec::new();
    for index in 0..1000usize {
        let results = results.clone();
        let task = spawn_on(&mut executor, &inbox, async move {
            results.lock().unwrap().push(index);
            index
        });
        tasks.push(task.1);
    }
    let mut runs = 0;
    loop {
        let mut progress = false;
        for (run, tls, (_, waker)) in workers.iter_mut() {
            match run.next(&mut executor, tls, waker) {
                RunStep::Run(found) => {
                    let yielded = perform(&mut executor, &inbox, found);
                    tls.set_just_yielded(yielded);
                    runs += 1;
                    progress = true;
                }
                RunStep::Yield => progress = true,
                RunStep::Pending => {}
            }
        }
        if !progress {
            break;
        }
    }
    assert_eq!(runs, 1000);
    let mut seen = results.lock().unwrap().clone();
    seen.sort();
    assert_eq!(seen, (0..1000).collect::<Vec<usize>>());
    for (index, task) in tasks.iter_mut().enumerate() {
        assert_eq!(output(task), Some(index));
    }
    assert!(executor.is_empty());
    // All four wait now, and none of them is notified.
    assert_eq!(executor.state().sleepers().count(), 4);
    assert_eq!(executor.state().sleepers().unnotified(), 4);
    for (mut run, mut tls, _) in workers {
        clear_tls(&mut tls, executor.state_mut());
        run.retire(&mut executor);
    }
    assert_eq!(executor.state().sleepers().count(), 0);
    assert_eq!(executor.state().runners(), 0);
}

#[test]
fn sleeping_worker_is_woken_by_a_push() {
    let inbox = Inbox::default();
    let mut executor = Executor::new(1);
    let mut tls = Tls::new();
    let mut run = executor.run(&mut tls);
    let (rung, waker) = bell();
    // The worker finds nothing and goes to sleep.
    assert!(matches!(run.next(&mut executor, &mut tls, &waker), RunStep::Pending));
    assert!(!executor.state().is_notified());
    // Another thread pushes a runnable and notifies after the push.
    let index = executor.next_index();
    let (runnable, mut task) = inbox.task(index, async { 11 });
    let mut elsewhere = Tls::new();
    let mut nobody = Ticker::new();
    let spawned = executor.spawn(&mut elsewhere, &mut nobody, runnable);
    spawned.wake.unwrap().wake();
    assert_eq!(count(&rung), 1);
    assert!(executor.state().is_notified());
    // The worker wakes up and consumes the runnable.
    match run.next(&mut executor, &mut tls, &waker) {
        RunStep::Run(found) => {
            perform(&mut executor, &inbox, found);
        }
        _ => panic!("the woken worker finds the runnable"),
    }
    assert_eq!(output(&mut task), Some(11));
    assert!(executor.is_empty());
    assert_eq!(executor.state().sleepers().count(), 0);
}

#[test]
fn shutdown_hands_out_every_waker() {
    let inbox = Inbox::default();
    let mut executor = Executor::new(1);
    let mut tasks = Vec::new();
    for _ in 0..100 {
        tasks.push(spawn_on(&mut executor, &inbox, std::future::pending::<()>()).1);
    }
    // Every task is polled once and waits.
    while let Some(found) = executor.try_tick() {
        perform(&mut executor, &inbox, found);
    }
    assert!(!executor.is_empty());
    assert_eq!(executor.state().queued(), 0);
    let wakers = executor.shutdown();
    assert_eq!(wakers.len(), 100);
    assert!(executor.is_empty());
    assert_eq!(executor.next_index(), 0);
    for waker in wakers {
        waker.wake();
    }
    // Every task saw its waker invoked: each one is scheduled again.
    let woken = inbox.take_scheduled();
    assert_eq!(woken.len(), 100);
    for runnable in woken {
        let mut tls = Tls::new();
        let mut nobody = Ticker::new();
        executor.schedule(&mut tls, &mut nobody, runnable);
    }
    // The drain comes after the wakes and takes what they have scheduled.
    assert_eq!(executor.state().queued(), 100);
    let runnables = executor.drain();
    assert_eq!(runnables.len(), 100);
    assert_eq!(executor.state().queued(), 0);
    assert!(executor.try_tick().is_none());
    drop(runnables);
    assert!(inbox.take_scheduled().is_empty());
}

#[test]
fn shutdown_empties_the_global_queue() {
    let inbox = Inbox::default();
    let mut executor = Executor::new(1);
    let ran = Arc::new(Mutex::new(Vec::new()));
    let mut tasks = Vec::new();
    for index in 0..3usize {
        let ran = ran.clone();
        let task = spawn_on(&mut executor, &inbox, async move {
            ran.lock().unwrap().push(index);
        });
        tasks.push(task.1);
    }
    let wakers = executor.shutdown();
    assert_eq!(wakers.len(), 3);
    assert!(executor.is_empty());
    // The first step leaves the queue alone.
    assert_eq!(executor.state().queued(), 3);
    let runnables = executor.drain();
    assert_eq!(runnables.len(), 3);
    assert_eq!(executor.state().queued(), 0);
    assert!(executor.try_tick().is_none());
    // Oldest first.
    for runnable in runnables {
        runnable.run();
    }
    assert_eq!(*ran.lock().unwrap(), vec![0, 1, 2]);
}

#[test]
fn spawn_on_the_driving_thread_takes_the_handoff_slot() {
    let inbox = Inbox::default();
    let mut executor = Executor::new(1);
    let mut tls = Tls::new();
    let mut run = executor.run(&mut tls);
    let (rung, waker) = bell();
    assert!(matches!(run.next(&mut executor, &mut tls, &waker), RunStep::Pending));
    let index = executor.next_index();
    let (runnable, mut task) = inbox.task(index, async { 9 });
    let spawned = executor.spawn(&mut tls, run.ticker_mut(), runnable);
    // The runnable waits in the slot, not in the global queue, and the
    // worker's own waker comes back.
    assert_eq!(executor.state().queued(), 0);
    assert_eq!(tls.pending(), 1);
    let own = spawned.wake.unwrap();
    assert!(own.will_wake(&waker));
    own.wake();
    assert_eq!(count(&rung), 1);
    match run.next(&mut executor, &mut tls, &waker) {
        RunStep::Run(found) => {
            perform(&mut executor, &inbox, found);
        }
        _ => panic!("the worker collects the slot"),
    }
    assert_eq!(output(&mut task), Some(9));
    assert!(executor.is_empty());
}

#[test]
fn schedule_falls_back_on_the_global_queue() {
    let inbox = Inbox::default();
    let mut executor = Executor::new(1);
    let mut other = Executor::new(2);
    let mut tls = Tls::new();
    let mut run = other.run(&mut tls);
    // The slot is in use for the other executor.
    let (runnable, _task) = inbox.task(0, async {});
    let mut nobody = Ticker::new();
    assert!(executor.schedule(&mut tls, &mut nobody, runnable).is_none());
    assert_eq!(executor.state().queued(), 1);
    assert_eq!(tls.pending(), 0);
    clear_tls(&mut tls, other.state_mut());
    run.retire(&mut other);
}

#[test]
fn worker_steps_aside_after_two_hundred_runnables() {
    assert_eq!(YIELD_INTERVAL, 200);
    let inbox = Inbox::default();
    let mut executor = Executor::new(1);
    let mut tasks = Vec::new();
    for _ in 0..450 {
        tasks.push(spawn_on(&mut executor, &inbox, async {}).1);
    }
    let mut tls = Tls::new();
    let mut run = executor.run(&mut tls);
    let (_, waker) = bell();
    let mut steps = Vec::new();
    loop {
        match run.next(&mut executor, &mut tls, &waker) {
            RunStep::Run(found) => {
                perform(&mut executor, &inbox, found);
                steps.push('r');
            }
            RunStep::Yield => steps.push('y'),
            RunStep::Pending => break,
        }
    }
    let yields: Vec<usize> =
        steps.iter().enumerate().filter(|step| *step.1 == 'y').map(|step| step.0).collect();
    assert_eq!(yields, vec![200, 401]);
    assert_eq!(steps.len(), 452);
    assert!(executor.is_empty());
}

#[test]
fn tick_waits_for_a_runnable() {
    let inbox = Inbox::default();
    let mut executor = Executor::new(1);
    let mut ticker = Ticker::new();
    let (rung, waker) = bell();
    assert!(executor.tick(&mut ticker, &waker).is_none());
    assert_eq!(ticker.sleeping(), 1);
    let (_, mut task) = spawn_on(&mut executor, &inbox, async { 4 });
    assert_eq!(count(&rung), 1);
    let found = executor.tick(&mut ticker, &waker).unwrap();
    perform(&mut executor, &inbox, found);
    assert_eq!(output(&mut task), Some(4));
    assert_eq!(ticker.sleeping(), 0);
    assert!(ticker.release(executor.state_mut()).is_none());
    assert!(executor.is_empty());
}

#[test]
fn try_tick_notifies_another_ticker() {
    let inbox = Inbox::default();
    let mut executor = Executor::new(1);
    let (_, _a) = spawn_on(&mut executor, &inbox, async {});
    let (_, _b) = spawn_on(&mut executor, &inbox, async {});
    let mut sleeper = Ticker::new();
    let (rung, waker) = bell();
    assert!(sleeper.sleep(executor.state_mut(), &waker));
    let found = executor.try_tick().unwrap();
    assert!(found.wake.as_ref().unwrap().will_wake(&waker));
    perform(&mut executor, &inbox, found);
    assert_eq!(count(&rung), 1);
    // The notification is under way: the next tick wakes nobody.
    let found = executor.try_tick().unwrap();
    assert!(found.wake.is_none());
    perform(&mut executor, &inbox, found);
    assert!(executor.is_empty());
}

#[test]
fn local_executor_never_takes_the_handoff_slot() {
    let inbox = Inbox::default();
    let mut executor = LocalExecutor::new(5);
    assert!(executor.is_empty());
    assert_eq!(executor.inner().state().id(), 5);
    let mut tls = Tls::new();
    let mut run = executor.run(&mut tls);
    assert_eq!(tls.state(), Some(5));
    let index = executor.next_index();
    let (runnable, mut task) = inbox.task(index, async { 1 + 2 });
    let spawned = executor.spawn(runnable);
    assert_eq!(spawned.index, 0);
    assert!(spawned.wake.is_none());
    assert_eq!(tls.pending(), 0);
    assert_eq!(executor.inner().state().queued(), 1);
    assert!(!executor.is_empty());
    let (_, waker) = bell();
    match run.next(executor.inner_mut(), &mut tls, &waker) {
        RunStep::Run(found) => {
            assert!(!found.runnable.run());
        }
        _ => panic!("the task is queued"),
    }
    for index in inbox.take_finished() {
        executor.complete(index);
    }
    assert_eq!(output(&mut task), Some(3));
    assert!(executor.is_empty());
    clear_tls(&mut tls, executor.inner_mut().state_mut());
    run.retire(executor.inner_mut());
}

#[test]
fn local_executor_ticks() {
    let inbox = Inbox::default();
    let mut executor = LocalExecutor::new(1);
    assert!(executor.try_tick().is_none());
    let mut ticker = Ticker::new();
    let (rung, waker) = bell();
    assert!(executor.tick(&mut ticker, &waker).is_none());
    let (runnable, _task) = inbox.task(executor.next_index(), async {});
    executor.spawn(runnable).wake.unwrap().wake();
    assert_eq!(count(&rung), 1);
    let (runnable, _second) = inbox.task(executor.next_index(), async {});
    assert!(executor.schedule(runnable).is_none());
    let found = executor.tick(&mut ticker, &waker).unwrap();
    found.runnable.run();
    let found = executor.try_tick().unwrap();
    found.runnable.run();
    assert!(executor.try_tick().is_none());
    for index in inbox.take_finished() {
        executor.complete(index);
    }
    assert!(executor.is_empty());
}

/// Spawns a task that waits for ever and notes under `mark` when it is scheduled.
fn spawn_waiting(
    executor: &mut Executor,
    mark: usize,
    scheduled: &Arc<Mutex<Vec<usize>>>,
) -> Task<()> {
    let scheduled = scheduled.clone();
    let (runnable, task) = async_task::spawn(std::future::pending::<()>(), move |runnable| {
        scheduled.lock().unwrap().push(mark);
        drop(runnable);
    });
    let mut tls = Tls::new();
    let mut ticker = Ticker::new();
    executor.spawn(&mut tls, &mut ticker, runnable);
    // Poll it once, so that it waits for its waker.
    executor.try_tick().unwrap().runnable.run();
    task
}

#[test]
fn shutdown_lists_the_wakers_by_index() {
    let scheduled = Arc::new(Mutex::new(Vec::new()));
    let mut executor = Executor::new(1);
    let _a = spawn_waiting(&mut executor, 10, &scheduled);
    let _b = spawn_waiting(&mut executor, 11, &scheduled);
    let _c = spawn_waiting(&mut executor, 12, &scheduled);
    let _d = spawn_waiting(&mut executor, 13, &scheduled);
    // The task under index 1 finishes; a new one takes its index.
    assert!(executor.complete(1).is_some());
    let _e = spawn_waiting(&mut executor, 14, &scheduled);
    let wakers = executor.shutdown();
    assert!(executor.drain().is_empty());
    assert_eq!(wakers.len(), 4);
    for waker in wakers {
        waker.wake();
    }
    assert_eq!(*scheduled.lock().unwrap(), vec![10, 14, 12, 13]);
}

#[test]
fn complete_returns_the_waker_of_the_task() {
    let scheduled = Arc::new(Mutex::new(Vec::new()));
    let mut executor = Executor::new(1);
    let _a = spawn_waiting(&mut executor, 10, &scheduled);
    let _b = spawn_waiting(&mut executor, 11, &scheduled);
    let waker = executor.complete(1).unwrap();
    waker.wake();
    assert_eq!(*scheduled.lock().unwrap(), vec![11]);
    let waker = executor.complete(0).unwrap();
    waker.wake();
    assert_eq!(*scheduled.lock().unwrap(), vec![11, 10]);
    assert!(executor.is_empty());
}

#[test]
fn spawn_with_registers_the_waker_handed_in() {
    let inbox = Inbox::default();
    let mut executor = Executor::new(1);
    let (rung, waker) = bell();
    let (runnable, _task) = inbox.task(0, async {});
    let mut tls = Tls::new();
    let mut nobody = Ticker::new();
    let spawned = executor.spawn_with(&mut tls, &mut nobody, runnable, waker.clone());
    assert_eq!(spawned.index, 0);
    assert!(spawned.wake.is_none());
    assert!(!executor.is_empty());
    assert_eq!(executor.state().queued(), 1);
    let back = executor.complete(0).unwrap();
    assert!(back.will_wake(&waker));
    back.wake();
    assert_eq!(count(&rung), 1);
    assert!(executor.is_empty());
}

#[test]
fn local_spawn_with_registers_the_waker_handed_in() {
    let inbox = Inbox::default();
    let mut executor = LocalExecutor::new(1);
    let (_, waker) = bell();
    let (runnable, _task) = inbox.task(0, async {});
    let spawned = executor.spawn_with(runnable, waker.clone());
    assert_eq!(spawned.index, 0);
    assert_eq!(executor.inner().state().queued(), 1);
    assert!(executor.complete(0).unwrap().will_wake(&waker));
    assert!(executor.is_empty());
}

#[test]
fn spawn_registers_the_waker_of_the_runnable() {
    let scheduled = Arc::new(Mutex::new(Vec::new()));
    let mut executor = Executor::new(1);
    let _a = spawn_waiting(&mut executor, 10, &scheduled);
    let _b = spawn_waiting(&mut executor, 11, &scheduled);
    let wakers = executor.shutdown();
    assert_eq!(wakers.len(), 2);
    wakers[1].wake_by_ref();
    assert_eq!(*scheduled.lock().unwrap(), vec![11]);
    wakers[0].wake_by_ref();
    assert_eq!(*scheduled.lock().unwrap(), vec![11, 10]);
}
