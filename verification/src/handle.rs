//! The two opaque handles the scheduler moves around: runnable tasks and
//! wakers. The scheduler never looks inside either of them.

use async_task::Runnable;
use std::task::Waker;
use vstd::prelude::*;

verus! {

/// `std::task::Waker`, a value that the scheduler stores and hands on.
#[verifier::external_type_specification]
#[verifier::external_body]
pub struct ExWaker(Waker);

/// `async_task::Runnable`, a value that the scheduler queues and hands on.
#[verifier::external_type_specification]
#[verifier::external_body]
#[verifier::reject_recursive_types(M)]
pub struct ExRunnable<M>(Runnable<M>);

/// Calls `Waker::clone`. Nothing is claimed about the copy: the standard
/// library only promises that it wakes the same task, and the scheduler has
/// no model of tasks.
#[verifier::external_body]
pub(crate) fn clone_waker(waker: &Waker) -> (copy: Waker) {
    waker.clone()
}

/// Calls `Waker::will_wake`. The answer is best-effort (`false` may come back
/// for two wakers of one task), so nothing is claimed about it.
#[verifier::external_body]
pub(crate) fn will_wake(registered: &Waker, waker: &Waker) -> (same: bool) {
    registered.will_wake(waker)
}

/// Calls `Runnable::waker`, which makes a new waker for the runnable's task.
/// Nothing is claimed about the waker.
#[verifier::external_body]
pub(crate) fn runnable_waker(runnable: &Runnable) -> (waker: Waker) {
    runnable.waker()
}

} // verus!
