//! The pool: a fixed set of workers, the shared FIFO queue they consume, and
//! the two-phase teardown protocol — send one termination signal per worker,
//! all of them before waiting for any thread, then wait until every worker
//! has stopped.

use vstd::prelude::*;

use crate::message::Message;
use crate::message::jobs_of;
use crate::message::num_terminates;
use crate::worker::Worker;
use crate::worker::WorkerState;
use crate::worker::stopped_count;
use crate::worker::lemma_stopped_count_all_running;
use crate::worker::lemma_stopped_count_stop_one;
use crate::worker::lemma_stopped_count_strict;
use crate::message::lemma_push_job;
use crate::message::lemma_push_terminate;
use crate::message::lemma_queue_parts;
use crate::message::lemma_no_terminates;
use crate::message::lemma_all_terminates;
use crate::message::jobs_before_terminates;

verus! {

/// The pool's state: the fixed worker set, the shared queue (front at index
/// zero), the log of job payloads in the order they were handed to a worker
/// for execution, and two counters instrumenting the termination protocol —
/// how many termination signals were ever sent and how many a worker has
/// consumed.
pub struct ThreadPool<J> {
    pub workers: Vec<Worker>,
    pub queue: Vec<Message<J>>,
    pub executed: Vec<J>,
    pub terminates_sent: usize,
    pub terminates_consumed: usize,
}

impl<J> ThreadPool<J> {
    /// The pool's structural invariant: each worker's id is its index, every
    /// consumed termination signal has stopped exactly one worker, and every
    /// termination signal ever sent is either still queued or was consumed.
    pub open spec fn wf(self) -> bool {
        &&& forall|i: int|
            0 <= i < self.workers@.len() ==> (#[trigger] self.workers@[i]).id == i
        &&& stopped_count(self.workers@) == self.terminates_consumed
        &&& self.terminates_sent == self.terminates_consumed + num_terminates(self.queue@)
    }

    /// The pool during its working lifetime: well formed, every worker still
    /// running, and no termination signal sent yet.
    pub open spec fn active(self) -> bool {
        &&& self.wf()
        &&& forall|i: int|
            0 <= i < self.workers@.len() ==> (#[trigger] self.workers@[i]).state is Running
        &&& self.terminates_sent == 0
    }

    /// Create a pool of exactly `size` workers, all running, with an empty
    /// queue and an empty execution log. A pool of zero workers is a
    /// programmer error, excluded by precondition.
    pub fn new(size: usize) -> (pool: ThreadPool<J>)
        requires
            size >= 1,
        ensures
            pool.active(),
            pool.workers@.len() == size,
            pool.queue@ == Seq::<Message<J>>::empty(),
            pool.executed@ == Seq::<J>::empty(),
    {
        let mut workers: Vec<Worker> = Vec::new();
        let mut id: usize = 0;
        while id < size
            invariant
                id <= size,
                workers@.len() == id,
                forall|i: int|
                    0 <= i < id ==> (#[trigger] workers@[i]).id == i && workers@[i].state
                        is Running,
            decreases size - id,
        {
            workers.push(Worker::new(id));
            id = id + 1;
        }
        let pool = ThreadPool {
            workers,
            queue: Vec::new(),
            executed: Vec::new(),
            terminates_sent: 0,
            terminates_consumed: 0,
        };
        proof {
            lemma_stopped_count_all_running(pool.workers@);
        }
        pool
    }

    /// Submit one unit of work: wrap it as a job message and push it onto the
    /// back of the shared queue, where it becomes visible to whichever worker
    /// next wins the receive lock. Submission never blocks on the workers —
    /// the queue is unbounded.
    pub fn excute(&mut self, job: J)
        requires
            old(self).wf(),
        ensures
            final(self).wf(),
            final(self).queue@ == old(self).queue@.push(Message::NewJob(job)),
            final(self).workers@ == old(self).workers@,
            final(self).executed@ == old(self).executed@,
            final(self).terminates_sent == old(self).terminates_sent,
            final(self).terminates_consumed == old(self).terminates_consumed,
            old(self).active() ==> final(self).active(),
    {
        proof {
            lemma_push_job(self.queue@, job);
        }
        self.queue.push(Message::NewJob(job));
    }

    /// Deliver the message at the front of the queue to worker `w` — the
    /// model of worker `w` winning the receive lock — and let the worker act
    /// on it: a job's payload is appended to the execution log and the worker
    /// keeps running; a termination signal stops worker `w` and is counted as
    /// consumed. Either way the message leaves the queue, so no message is
    /// ever delivered twice.
    pub fn step(&mut self, w: usize)
        requires
            old(self).wf(),
            w < old(self).workers@.len(),
            old(self).workers@[w as int].state is Running,
            old(self).queue@.len() > 0,
        ensures
            final(self).wf(),
            final(self).queue@ == old(self).queue@.drop_first(),
            final(self).terminates_sent == old(self).terminates_sent,
            old(self).queue@.first() matches Message::NewJob(j) ==> final(self).executed@ == old(
                self,
            ).executed@.push(j),
            old(self).queue@.first() is NewJob ==> final(self).workers@ == old(self).workers@,
            old(self).queue@.first() is NewJob ==> final(self).terminates_consumed == old(
                self,
            ).terminates_consumed,
            old(self).queue@.first() is Terminate ==> final(self).executed@ == old(self).executed@,
            old(self).queue@.first() is Terminate ==> final(self).workers@ == old(
                self,
            ).workers@.update(w as int, (Worker { id: w, state: WorkerState::Stopped })),
            old(self).queue@.first() is Terminate ==> final(self).terminates_consumed == old(
                self,
            ).terminates_consumed + 1,
    {
        let n = self.workers.len();
        let msg = self.queue.remove(0);
        proof {
            assert(old(self).queue@.remove(0) =~= old(self).queue@.drop_first());
        }
        let mut worker = self.workers.remove(w);
        let job = worker.on_message(msg);
        self.workers.insert(w, worker);
        proof {
            assert(self.workers@ =~= old(self).workers@.update(w as int, worker));
        }
        match job {
            Some(j) => {
                self.executed.push(j);
                proof {
                    assert(worker == old(self).workers@[w as int]);
                    assert(self.workers@ =~= old(self).workers@);
                }
            },
            None => {
                proof {
                    lemma_stopped_count_strict(old(self).workers@, w as int);
                    lemma_stopped_count_stop_one(old(self).workers@, w as int, worker);
                }
                self.terminates_consumed = self.terminates_consumed + 1;
            },
        }
    }

    /// Teardown, run exactly once when the pool is being torn down. Two
    /// phases: first send one termination signal per worker — all of them
    /// before waiting for any worker, so that no worker can be waited on
    /// while another still has no signal to consume — then keep delivering
    /// messages until every worker has stopped. Returns only once every
    /// worker has stopped; by then every job that was queued when teardown
    /// began has been handed to a worker, in submission order, and the queue
    /// is empty.
    pub fn shutdown(&mut self)
        requires
            old(self).active(),
            old(self).workers@.len() >= 1,
        ensures
            final(self).wf(),
            final(self).workers@.len() == old(self).workers@.len(),
            forall|i: int|
                0 <= i < final(self).workers@.len() ==> (#[trigger] final(self).workers@[i]).id
                    == i && final(self).workers@[i].state is Stopped,
            final(self).executed@ == old(self).executed@ + jobs_of(old(self).queue@),
            final(self).queue@.len() == 0,
            final(self).terminates_sent == old(self).workers@.len(),
            final(self).terminates_consumed == old(self).workers@.len(),
    {
        let ghost q0 = self.queue@;
        let ghost e0 = self.executed@;
        let n = self.workers.len();
        proof {
            lemma_no_terminates(q0);
        }
        // Phase one: one termination signal per worker, all sent up front.
        let mut i: usize = 0;
        while i < n
            invariant
                self.wf(),
                i <= n,
                n == self.workers@.len(),
                self.workers@ == old(self).workers@,
                self.executed@ == e0,
                jobs_of(self.queue@) == jobs_of(q0),
                num_terminates(self.queue@) == i,
                self.terminates_sent == i,
                self.terminates_consumed == 0,
                jobs_before_terminates(self.queue@),
                forall|k: int|
                    0 <= k < self.workers@.len() ==> (#[trigger] self.workers@[k]).state
                        is Running,
            decreases n - i,
        {
            let ghost q_before = self.queue@;
            proof {
                lemma_push_terminate::<J>(q_before);
            }
            self.queue.push(Message::Terminate);
            self.terminates_sent = self.terminates_sent + 1;
            i = i + 1;
            proof {
                assert forall|a: int, b: int|
                    #![trigger self.queue@[a], self.queue@[b]]
                    0 <= a < b < self.queue@.len() && self.queue@[a] is Terminate implies self.queue@[b] is Terminate by {
                    if b < q_before.len() {
                        assert(self.queue@[a] == q_before[a]);
                        assert(self.queue@[b] == q_before[b]);
                    }
                }
            }
        }
        // Phase two: deliver messages until every worker has observed its
        // termination signal and stopped.
        let mut w: usize = 0;
        while w < n
            invariant
                self.wf(),
                w <= n,
                n == self.workers@.len(),
                forall|k: int| 0 <= k < n ==> (#[trigger] self.workers@[k]).id == k,
                forall|k: int| 0 <= k < w ==> (#[trigger] self.workers@[k]).state is Stopped,
                forall|k: int| w <= k < n ==> (#[trigger] self.workers@[k]).state is Running,
                self.terminates_sent == n,
                self.terminates_consumed == w,
                self.executed@ + jobs_of(self.queue@) == e0 + jobs_of(q0),
                jobs_before_terminates(self.queue@),
                self.terminates_consumed > 0 ==> jobs_of(self.queue@).len() == 0,
            decreases n - w,
        {
            while self.workers[w].is_running()
                invariant
                    self.wf(),
                    w < n,
                    n == self.workers@.len(),
                    forall|k: int| 0 <= k < n ==> (#[trigger] self.workers@[k]).id == k,
                    forall|k: int| 0 <= k < w ==> (#[trigger] self.workers@[k]).state is Stopped,
                    forall|k: int|
                        w < k < n ==> (#[trigger] self.workers@[k]).state is Running,
                    self.terminates_sent == n,
                    self.workers@[w as int].state is Running ==> self.terminates_consumed == w,
                    self.workers@[w as int].state is Stopped ==> self.terminates_consumed == w
                        + 1,
                    self.executed@ + jobs_of(self.queue@) == e0 + jobs_of(q0),
                    jobs_before_terminates(self.queue@),
                    self.terminates_consumed > 0 ==> jobs_of(self.queue@).len() == 0,
                decreases self.queue@.len(),
            {
                proof {
                    lemma_queue_parts(self.queue@);
                }
                let ghost q_before = self.queue@;
                let ghost e_before = self.executed@;
                self.step(w);
                proof {
                    assert forall|a: int, b: int|
                        #![trigger self.queue@[a], self.queue@[b]]
                        0 <= a < b < self.queue@.len() && self.queue@[a] is Terminate implies self.queue@[b] is Terminate by {
                        assert(self.queue@[a] == q_before[a + 1]);
                        assert(self.queue@[b] == q_before[b + 1]);
                    }
                    match q_before.first() {
                        Message::NewJob(j) => {
                            assert(jobs_of(q_before) == seq![j] + jobs_of(q_before.drop_first()));
                            assert(e_before + (seq![j] + jobs_of(self.queue@)) =~= e_before.push(j)
                                + jobs_of(self.queue@));
                        },
                        Message::Terminate => {
                            assert(jobs_of(q_before) == jobs_of(q_before.drop_first()));
                            assert forall|k: int|
                                0 <= k < self.queue@.len() implies (#[trigger] self.queue@[k])
                                is Terminate by {
                                assert(self.queue@[k] == q_before[k + 1]);
                            }
                            lemma_all_terminates(self.queue@);
                        },
                    }
                }
            }
            w = w + 1;
        }
        proof {
            lemma_queue_parts(self.queue@);
            assert(self.executed@ + jobs_of(self.queue@) =~= self.executed@);
        }
    }
}

/// Law: teardown loses no job and duplicates none. `shutdown` turns the
/// execution log `pre_log` into `pre_log + jobs_of(queued)` for the queue
/// `queued` it found, and in that log every job value occurs exactly as often
/// as it had already been executed plus as often as it sat in the queue —
/// executed exactly once per submission, whichever workers picked it up.
pub proof fn lemma_each_enqueued_job_executed_once<J>(
    pre_log: Seq<J>,
    queued: Seq<Message<J>>,
    post_log: Seq<J>,
    job: J,
)
    requires
        post_log == pre_log + jobs_of(queued),
    ensures
        post_log.to_multiset().count(job) == pre_log.to_multiset().count(job) + jobs_of(
            queued,
        ).to_multiset().count(job),
{
    broadcast use vstd::multiset::group_multiset_axioms;

    vstd::seq_lib::lemma_multiset_commutative(pre_log, jobs_of(queued));
}

/// Law: one termination signal stops exactly one worker. In every well-formed
/// pool the number of stopped workers equals the number of termination
/// signals consumed, and no signal was sent that is neither queued nor
/// consumed.
pub proof fn lemma_one_terminate_per_stopped_worker<J>(pool: ThreadPool<J>)
    requires
        pool.wf(),
    ensures
        stopped_count(pool.workers@) == pool.terminates_consumed,
        pool.terminates_sent == pool.terminates_consumed + num_terminates(pool.queue@),
{
}

} // verus!

