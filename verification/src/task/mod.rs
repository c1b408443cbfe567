//! Cooperative tasks.
//!
//! A task is an owned unit of suspended computation with a unique
//! identifier.  The executor polls it with a wake handle bound to that
//! identifier; the computation either completes or suspends until a wake
//! pushes its identifier back onto the ready queue.
use vstd::prelude::*;

pub mod executor;
pub mod keyboard;

verus! {

/// Outcome of polling a task.
#[derive(Debug, Clone, Copy, PartialEq, Eq, Structural)]
pub enum TaskPoll {
    /// The computation finished; the executor removes the task.
    Ready,
    /// The computation suspended awaiting a wake.
    Pending,
}

/// A wake handle bound to one task: invoking it asks the executor to poll
/// that task again.
#[derive(Debug, Clone, Copy, PartialEq, Eq, Structural)]
pub struct Waker {
    pub task_id: u64,
}

/// A resumable computation, polled with a wake handle.
///
/// `poll_rel` is the implementor's own transition relation; each `poll`
/// must move the state along it.  A relation (rather than a function)
/// leaves room for computations whose outcome the caller cannot predict.
pub trait Pollable: Sized {
    /// From state `pre`, one poll with handle `waker` may end in state
    /// `post` with outcome `r`.
    spec fn poll_rel(pre: Self, waker: Waker, r: TaskPoll, post: Self) -> bool;

    /// Run the computation until it completes or suspends.
    fn poll(&mut self, waker: &Waker) -> (r: TaskPoll)
        ensures
            Self::poll_rel(*old(self), *waker, r, *final(self)),
    ;
}

/// Whether a computation is certain to complete on its next poll.
pub open spec fn completes_next<F: Pollable>(f: F) -> bool {
    forall|w: Waker, r: TaskPoll, g: F| #[trigger] F::poll_rel(f, w, r, g) ==> r == TaskPoll::Ready
}

/// Whether a computation is certain to suspend on its next poll.
pub open spec fn suspends_next<F: Pollable>(f: F) -> bool {
    forall|w: Waker, r: TaskPoll, g: F| #[trigger] F::poll_rel(f, w, r, g) ==> r
        == TaskPoll::Pending
}

/// A task: a pre-assigned unique identifier and the computation it owns.
pub struct Task<F: Pollable> {
    pub id: u64,
    pub future: F,
}

impl<F: Pollable> Task<F> {
    /// Wrap a computation under its identifier.
    pub fn new(id: u64, future: F) -> (r: Task<F>)
        ensures
            r.id == id,
            r.future == future,
    {
        Task { id, future }
    }

    /// Poll the owned computation; the identifier never changes.
    pub fn poll(&mut self, waker: &Waker) -> (r: TaskPoll)
        ensures
            F::poll_rel(old(self).future, *waker, r, final(self).future),
            final(self).id == old(self).id,
    {
        self.future.poll(waker)
    }
}

/// Hands out task identifiers in strictly increasing order, so that no
/// identifier is ever reused.
pub struct TaskIdGen {
    pub next: u64,
}

impl TaskIdGen {
    /// Start counting from zero.
    pub fn new() -> (r: TaskIdGen)
        ensures
            r.next == 0,
    {
        TaskIdGen { next: 0 }
    }

    /// A fresh identifier: larger than every identifier handed out before.
    pub fn fresh(&mut self) -> (r: u64)
        requires
            old(self).next < u64::MAX,
        ensures
            r == old(self).next,
            final(self).next == old(self).next + 1,
    {
        let r = self.next;
        self.next = self.next + 1;
        r
    }
}

/// A computation that suspends a fixed number of times and then completes:
/// the simplest pollable unit, used to exercise the executor.
#[derive(Debug, Clone, Copy, PartialEq, Eq, Structural)]
pub struct CountdownTask {
    pub remaining: u32,
}

impl Pollable for CountdownTask {
    /// With no polls left the task completes unchanged; otherwise it
    /// counts one poll down and suspends.
    open spec fn poll_rel(pre: Self, waker: Waker, r: TaskPoll, post: Self) -> bool {
        if pre.remaining == 0 {
            r == TaskPoll::Ready && post == pre
        } else {
            r == TaskPoll::Pending && post.remaining == pre.remaining - 1
        }
    }

    fn poll(&mut self, waker: &Waker) -> (r: TaskPoll) {
        if self.remaining == 0 {
            TaskPoll::Ready
        } else {
            self.remaining = self.remaining - 1;
            TaskPoll::Pending
        }
    }
}

/// A task with no polls left completes on its next poll, whatever the
/// wake handle.
pub proof fn lemma_countdown_completes(t: CountdownTask)
    requires
        t.remaining == 0,
    ensures
        completes_next(t),
{
}

} // verus!
