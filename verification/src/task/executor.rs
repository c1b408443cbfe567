//! The wake-driven executor.
//!
//! Tasks live in a map keyed by identifier; the bounded ready queue holds
//! the identifiers due for polling.  One pass of the run loop polls each
//! ready task once: a completed task is removed together with its cached
//! wake handle, a suspended one stays stored until a wake re-enqueues it.
use vstd::prelude::*;
use std::collections::BTreeMap;
use crossbeam_queue::ArrayQueue;
use crate::task::{completes_next, suspends_next, Pollable, Task, TaskPoll, Waker};

verus! {

broadcast use vstd::std_specs::btree::group_btree_axioms, vstd::laws_cmp::group_laws_cmp;

/// Capacity of the ready queue.
pub const TASK_QUEUE_CAPACITY: usize = 100;

#[verifier::external_type_specification]
#[verifier::external_body]
#[verifier::reject_recursive_types(T)]
pub struct ExArrayQueue<T>(ArrayQueue<T>);

/// The task identifiers in the ready queue, oldest first.
pub uninterp spec fn task_queue_view(q: ArrayQueue<u64>) -> Seq<u64>;

/// The fixed capacity the ready queue was created with.
pub uninterp spec fn task_queue_cap(q: ArrayQueue<u64>) -> nat;

/// Relies on crossbeam_queue::ArrayQueue::new: an empty bounded queue of
/// the given capacity; it panics only on capacity zero.
#[verifier::external_body]
fn tq_new(cap: usize) -> (q: ArrayQueue<u64>)
    requires
        cap >= 1,
    ensures
        task_queue_view(q) == Seq::<u64>::empty(),
        task_queue_cap(q) == cap,
{
    ArrayQueue::new(cap)
}

/// Relies on crossbeam_queue::ArrayQueue::push_mut: appends at the tail
/// when there is room, otherwise hands the value back unchanged.
#[verifier::external_body]
fn tq_push(q: &mut ArrayQueue<u64>, v: u64) -> (r: Result<(), u64>)
    ensures
        task_queue_cap(*final(q)) == task_queue_cap(*old(q)) && (task_queue_view(
            *old(q),
        ).len() < task_queue_cap(*old(q)) ==> r == Ok::<(), u64>(()) && task_queue_view(*final(q))
            == task_queue_view(*old(q)).push(v)) && (task_queue_view(*old(q)).len()
            >= task_queue_cap(*old(q)) ==> r == Err::<(), u64>(v) && task_queue_view(*final(q))
            == task_queue_view(*old(q))),
{
    q.push_mut(v)
}

/// Relies on crossbeam_queue::ArrayQueue::pop_mut: removes and returns the
/// head, or nothing when the queue is empty.
#[verifier::external_body]
fn tq_pop(q: &mut ArrayQueue<u64>) -> (r: Option<u64>)
    ensures
        task_queue_cap(*final(q)) == task_queue_cap(*old(q)) && (task_queue_view(
            *old(q),
        ).len() == 0 ==> r is None && task_queue_view(*final(q)) == task_queue_view(*old(q))) && (
        task_queue_view(*old(q)).len() > 0 ==> r == Some(task_queue_view(*old(q))[0])
            && task_queue_view(*final(q)) == task_queue_view(*old(q)).drop_first()),
{
    q.pop_mut()
}

/// Relies on crossbeam_queue::ArrayQueue::is_empty.
#[verifier::external_body]
fn tq_is_empty(q: &ArrayQueue<u64>) -> (r: bool)
    ensures
        r <==> task_queue_view(*q).len() == 0,
{
    q.is_empty()
}

/// Why a spawn was not carried out in full.
#[derive(Debug, Clone, Copy, PartialEq, Eq, Structural)]
pub enum SpawnError {
    /// A task with this identifier is already stored; the spawn is dropped.
    DuplicateId,
    /// The ready queue is full; the task is stored but not yet scheduled.
    QueueFull,
}

/// The cooperative executor.
pub struct Executor<F: Pollable> {
    pub tasks: BTreeMap<u64, Task<F>>,
    pub task_queue: ArrayQueue<u64>,
    pub waker_cache: BTreeMap<u64, Waker>,
}

impl<F: Pollable> Executor<F> {
    /// The ready queue has the capacity it was created with, and a wake
    /// handle is cached only for a task that is still stored.
    pub open spec fn wf(self) -> bool {
        &&& task_queue_cap(self.task_queue) == TASK_QUEUE_CAPACITY
        &&& forall|id: u64|
            #[trigger] self.waker_cache@.contains_key(id) ==> self.tasks@.contains_key(id)
    }

    /// The identifiers due for polling, oldest first.
    pub open spec fn ready(self) -> Seq<u64> {
        task_queue_view(self.task_queue)
    }

    /// An executor with no tasks and an empty ready queue.
    pub fn new() -> (r: Executor<F>)
        ensures
            r.wf(),
            r.tasks@ == Map::<u64, Task<F>>::empty(),
            r.ready() == Seq::<u64>::empty(),
            r.waker_cache@ == Map::<u64, Waker>::empty(),
    {
        Executor {
            tasks: BTreeMap::new(),
            task_queue: tq_new(TASK_QUEUE_CAPACITY),
            waker_cache: BTreeMap::new(),
        }
    }

    /// Store a task and enqueue its identifier as immediately ready.
    ///
    /// A duplicate identifier is a reportable logic error: the spawn is
    /// dropped whole.  A full ready queue stores the task but cannot
    /// schedule it; that too is reported and the system carries on.
    pub fn spawn(&mut self, task: Task<F>) -> (r: Result<(), SpawnError>)
        requires
            old(self).wf(),
        ensures
            final(self).wf(),
            final(self).waker_cache@ == old(self).waker_cache@,
            old(self).tasks@.contains_key(task.id) ==> r == Err::<(), SpawnError>(
                SpawnError::DuplicateId,
            ) && final(self).tasks@ == old(self).tasks@ && final(self).ready() == old(
                self,
            ).ready(),
            !old(self).tasks@.contains_key(task.id) ==> final(self).tasks@ == old(
                self,
            ).tasks@.insert(task.id, task) && (if old(self).ready().len() < TASK_QUEUE_CAPACITY {
                r == Ok::<(), SpawnError>(()) && final(self).ready() == old(self).ready().push(
                    task.id,
                )
            } else {
                r == Err::<(), SpawnError>(SpawnError::QueueFull) && final(self).ready() == old(
                    self,
                ).ready()
            }),
    {
        let task_id = task.id;
        if self.tasks.contains_key(&task_id) {
            return Err(SpawnError::DuplicateId);
        }
        self.tasks.insert(task_id, task);
        match tq_push(&mut self.task_queue, task_id) {
            Ok(()) => Ok(()),
            Err(_) => Err(SpawnError::QueueFull),
        }
    }

    /// Deliver a wake: push the handle's task identifier onto the ready
    /// queue.  A full queue drops the wake and reports it; the system
    /// stays alive.
    pub fn wake(&mut self, waker: &Waker) -> (r: bool)
        requires
            old(self).wf(),
        ensures
            final(self).wf(),
            final(self).tasks@ == old(self).tasks@,
            final(self).waker_cache@ == old(self).waker_cache@,
            old(self).ready().len() < TASK_QUEUE_CAPACITY ==> r && final(self).ready() == old(
                self,
            ).ready().push(waker.task_id),
            old(self).ready().len() >= TASK_QUEUE_CAPACITY ==> !r && final(self).ready() == old(
                self,
            ).ready(),
    {
        match tq_push(&mut self.task_queue, waker.task_id) {
            Ok(()) => true,
            Err(_) => false,
        }
    }

    /// How many tasks are stored.
    pub fn task_count(&self) -> (n: usize)
        ensures
            n == self.tasks@.len(),
    {
        self.tasks.len()
    }

    /// The idle decision of the run loop: halt the processor exactly when
    /// no task is ready.  The hardware glue must make the check and the
    /// halt atomic against interrupts, or a wake could slip between them.
    pub fn sleep_if_idle(&self) -> (halt: bool)
        ensures
            halt <==> self.ready().len() == 0,
    {
        tq_is_empty(&self.task_queue)
    }

    /// One pass of the run loop: poll every ready task once.
    ///
    /// A completed task is removed with its cached wake handle; a
    /// suspended one stays stored; a stale identifier whose task is gone
    /// is skipped.  Afterwards the ready queue is empty, no task appeared
    /// from nowhere, unpolled tasks are untouched, and every ready task
    /// that was certain to complete is gone: the executor's task count
    /// returns to zero once every stored task was ready and completing.
    #[verifier::rlimit(50)]
    pub fn run_ready_tasks(&mut self)
        requires
            old(self).wf(),
        ensures
            final(self).wf(),
            final(self).ready().len() == 0,
            forall|id: u64|
                #[trigger] final(self).tasks@.contains_key(id) ==> old(self).tasks@.contains_key(
                    id,
                ),
            forall|id: u64|
                old(self).tasks@.contains_key(id) && !old(self).ready().contains(id)
                    ==> #[trigger] final(self).tasks@.contains_key(id) && final(self).tasks@[id]
                    == old(self).tasks@[id],
            forall|id: u64|
                old(self).tasks@.contains_key(id) && old(self).ready().contains(id)
                    && completes_next(old(self).tasks@[id].future) ==> !(
                #[trigger] final(self).tasks@.contains_key(id)),
            forall|id: u64|
                old(self).tasks@.contains_key(id) && suspends_next(old(self).tasks@[id].future)
                    && old(self).ready().contains(id) && (forall|k1: int, k2: int|
                    #![trigger old(self).ready()[k1], old(self).ready()[k2]]
                    0 <= k1 < old(self).ready().len() && 0 <= k2 < old(self).ready().len() && old(
                        self,
                    ).ready()[k1] == id && old(self).ready()[k2] == id ==> k1 == k2)
                    ==> #[trigger] final(self).tasks@.contains_key(id),
    {
        let ghost mut processed: Seq<u64> = Seq::empty();
        proof {
            assert(old(self).ready() =~= processed + self.ready());
        }
        loop
            invariant_except_break
                self.wf(),
                old(self).ready() == processed + self.ready(),
                forall|id: u64|
                    #[trigger] self.tasks@.contains_key(id) ==> old(self).tasks@.contains_key(id),
                forall|id: u64|
                    old(self).tasks@.contains_key(id) && !processed.contains(id)
                        ==> #[trigger] self.tasks@.contains_key(id) && self.tasks@[id] == old(
                        self,
                    ).tasks@[id],
                forall|id: u64|
                    old(self).tasks@.contains_key(id) && processed.contains(id) && completes_next(
                        old(self).tasks@[id].future,
                    ) ==> !(#[trigger] self.tasks@.contains_key(id)),
                forall|id: u64|
                    old(self).tasks@.contains_key(id) && suspends_next(
                        old(self).tasks@[id].future,
                    ) && processed.contains(id) && (forall|k1: int, k2: int|
                        #![trigger old(self).ready()[k1], old(self).ready()[k2]]
                        0 <= k1 < old(self).ready().len() && 0 <= k2 < old(self).ready().len()
                            && old(self).ready()[k1] == id && old(self).ready()[k2] == id ==> k1
                            == k2) ==> #[trigger] self.tasks@.contains_key(id),
            ensures
                self.wf(),
                self.ready().len() == 0,
                old(self).ready() == processed + self.ready(),
                forall|id: u64|
                    #[trigger] self.tasks@.contains_key(id) ==> old(self).tasks@.contains_key(id),
                forall|id: u64|
                    old(self).tasks@.contains_key(id) && !processed.contains(id)
                        ==> #[trigger] self.tasks@.contains_key(id) && self.tasks@[id] == old(
                        self,
                    ).tasks@[id],
                forall|id: u64|
                    old(self).tasks@.contains_key(id) && processed.contains(id) && completes_next(
                        old(self).tasks@[id].future,
                    ) ==> !(#[trigger] self.tasks@.contains_key(id)),
                forall|id: u64|
                    old(self).tasks@.contains_key(id) && suspends_next(
                        old(self).tasks@[id].future,
                    ) && processed.contains(id) && (forall|k1: int, k2: int|
                        #![trigger old(self).ready()[k1], old(self).ready()[k2]]
                        0 <= k1 < old(self).ready().len() && 0 <= k2 < old(self).ready().len()
                            && old(self).ready()[k1] == id && old(self).ready()[k2] == id ==> k1
                            == k2) ==> #[trigger] self.tasks@.contains_key(id),
            decreases self.ready().len(),
        {
            let popped = tq_pop(&mut self.task_queue);
            let task_id = match popped {
                Some(id) => id,
                None => {
                    break ;
                },
            };
            let ghost tasks_at_pop = self.tasks@;
            let taken = self.tasks.remove(&task_id);
            match taken {
                None => {
                },
                Some(mut task) => {
                    proof {
                        // the task polled here is the stored one
                        assert(tasks_at_pop.contains_key(task_id));
                        assert(task == tasks_at_pop[task_id]);
                    }
                    let cached = self.waker_cache.get(&task_id);
                    let waker = match cached {
                        Some(w) => *w,
                        None => {
                            let w = Waker { task_id };
                            self.waker_cache.insert(task_id, w);
                            w
                        },
                    };
                    let outcome = task.poll(&waker);
                    match outcome {
                        TaskPoll::Ready => {
                            self.waker_cache.remove(&task_id);
                        },
                        TaskPoll::Pending => {
                            proof {
                                // a task certain to complete cannot still be
                                // stored after an earlier poll, nor suspend
                                // on its first one
                                if old(self).tasks@.contains_key(task_id) && completes_next(
                                    old(self).tasks@[task_id].future,
                                ) {
                                    if processed.contains(task_id) {
                                        assert(!tasks_at_pop.contains_key(task_id));
                                    } else {
                                        assert(task == old(self).tasks@[task_id]);
                                    }
                                    assert(false);
                                }
                            }
                            self.tasks.insert(task_id, task);
                        },
                    }
                },
            }
            proof {
                let prev = processed;
                processed = prev.push(task_id);
                assert(old(self).ready() =~= processed + self.ready());
                assert forall|id: u64|
                    #[trigger] processed.contains(id) <==> prev.contains(id) || id == task_id by {
                    if processed.contains(id) {
                        let i = choose|i: int| 0 <= i < processed.len() && processed[i] == id;
                        if i < prev.len() {
                            assert(prev[i] == id);
                        }
                    }
                    if prev.contains(id) {
                        let i = choose|i: int| 0 <= i < prev.len() && prev[i] == id;
                        assert(processed[i] == id);
                    }
                    if id == task_id {
                        assert(processed[prev.len() as int] == id);
                    }
                }
                assert forall|id: u64|
                    old(self).tasks@.contains_key(id) && !processed.contains(id)
                        implies #[trigger] self.tasks@.contains_key(id) && self.tasks@[id] == old(
                    self,
                ).tasks@[id] by {
                    assert(!prev.contains(id) && id != task_id);
                    assert(tasks_at_pop.contains_key(id));
                    assert(tasks_at_pop[id] == old(self).tasks@[id]);
                    assert(self.tasks@.contains_key(id));
                    assert(self.tasks@[id] == tasks_at_pop[id]);
                }
                assert forall|id: u64|
                    #[trigger] self.tasks@.contains_key(id) implies old(
                    self,
                ).tasks@.contains_key(id) by {
                    if id != task_id {
                        assert(tasks_at_pop.contains_key(id));
                    } else {
                        assert(tasks_at_pop.contains_key(id));
                    }
                }
                assert forall|id: u64|
                    old(self).tasks@.contains_key(id) && processed.contains(id) && completes_next(
                        old(self).tasks@[id].future,
                    ) implies !(#[trigger] self.tasks@.contains_key(id)) by {
                    if id != task_id {
                        assert(prev.contains(id));
                        assert(!tasks_at_pop.contains_key(id));
                    }
                }
                assert forall|id: u64|
                    old(self).tasks@.contains_key(id) && suspends_next(
                        old(self).tasks@[id].future,
                    ) && processed.contains(id) && (forall|k1: int, k2: int|
                        #![trigger old(self).ready()[k1], old(self).ready()[k2]]
                        0 <= k1 < old(self).ready().len() && 0 <= k2 < old(self).ready().len()
                            && old(self).ready()[k1] == id && old(self).ready()[k2] == id ==> k1
                            == k2) implies #[trigger] self.tasks@.contains_key(id) by {
                    if id != task_id {
                        assert(prev.contains(id));
                        assert(tasks_at_pop.contains_key(id));
                    } else {
                        if prev.contains(id) {
                            // a second occurrence of the identifier would
                            // contradict the uniqueness hypothesis
                            let i = choose|i: int| 0 <= i < prev.len() && prev[i] == id;
                            assert(old(self).ready()[i] == id);
                            assert(old(self).ready()[prev.len() as int] == id);
                            assert(false);
                        }
                        assert(tasks_at_pop.contains_key(id));
                    }
                }
                assert forall|id: u64|
                    #[trigger] self.waker_cache@.contains_key(id) implies self.tasks@.contains_key(
                    id,
                ) by {
                    if id != task_id {
                        assert(tasks_at_pop.contains_key(id));
                    }
                }
            }
        }
        proof {
            assert(processed =~= old(self).ready());
        }
    }
}


impl<F: Pollable> Default for Executor<F> {
    /// Same as `new`.
    fn default() -> (r: Executor<F>)
        ensures
            r.wf(),
            r.tasks@ == Map::<u64, Task<F>>::empty(),
            r.ready() == Seq::<u64>::empty(),
            r.waker_cache@ == Map::<u64, Waker>::empty(),
    {
        Executor::new()
    }
}

/// Executor completion: when every stored task is ready and certain to
/// complete on its next poll, one pass of the run loop leaves the task
/// store empty, and with it the waker cache, whose keys the executor's
/// well-formedness keeps among the stored tasks.  The relations below are
/// exactly what `run_ready_tasks` ensures between the state before (`pre`)
/// and after (`post`, `cache`) a pass over the ready identifiers.
pub proof fn lemma_executor_completion<F: Pollable>(
    pre: Map<u64, Task<F>>,
    ready: Seq<u64>,
    post: Map<u64, Task<F>>,
    cache: Map<u64, Waker>,
)
    requires
        forall|id: u64| #[trigger] post.contains_key(id) ==> pre.contains_key(id),
        forall|id: u64|
            pre.contains_key(id) && ready.contains(id) && completes_next(pre[id].future)
                ==> !(#[trigger] post.contains_key(id)),
        forall|id: u64|
            #[trigger] pre.contains_key(id) ==> ready.contains(id) && completes_next(
                pre[id].future,
            ),
        forall|id: u64| #[trigger] cache.contains_key(id) ==> post.contains_key(id),
    ensures
        post =~= Map::<u64, Task<F>>::empty(),
        post.len() == 0,
        cache =~= Map::<u64, Waker>::empty(),
        cache.len() == 0,
{
    assert forall|id: u64| !(#[trigger] post.contains_key(id)) by {
        if post.contains_key(id) {
            assert(pre.contains_key(id));
        }
    }
    assert(post =~= Map::<u64, Task<F>>::empty());
    assert(cache =~= Map::<u64, Waker>::empty());
}

} // verus!
