//! A worker: an identity plus the two-state machine of its message loop. A
//! worker keeps running while it consumes jobs and stops, for good, on the
//! first termination signal it consumes — never both.

use vstd::prelude::*;

use crate::message::Message;

verus! {

/// The state of a worker's message loop: `Running` from construction on,
/// `Stopped` — terminal — once the worker has consumed its termination
/// signal. There is no pause or resume.
#[derive(Clone, Copy, PartialEq, Eq, Debug, Structural)]
pub enum WorkerState {
    Running,
    Stopped,
}

/// One worker of the pool: a small immutable identifier, used only for
/// diagnostics, and the state of its message loop.
pub struct Worker {
    pub id: usize,
    pub state: WorkerState,
}

impl Worker {
    /// A fresh worker starts out running, blocked on the shared queue.
    pub fn new(id: usize) -> (w: Worker)
        ensures
            w.id == id,
            w.state is Running,
    {
        Worker { id, state: WorkerState::Running }
    }

    /// Whether this worker's loop is still running.
    pub fn is_running(&self) -> (r: bool)
        ensures
            r == (self.state is Running),
    {
        match self.state {
            WorkerState::Running => true,
            WorkerState::Stopped => false,
        }
    }

    /// One turn of the worker loop, given the message the worker dequeued: a
    /// job is handed back for execution and the worker keeps running; a
    /// termination signal stops the worker and hands nothing back.
    pub fn on_message<J>(&mut self, msg: Message<J>) -> (job: Option<J>)
        requires
            old(self).state is Running,
        ensures
            final(self).id == old(self).id,
            msg matches Message::NewJob(j) ==> final(self).state is Running && job == Some(j),
            msg is Terminate ==> final(self).state is Stopped && job is None,
    {
        match msg {
            Message::NewJob(j) => Some(j),
            Message::Terminate => {
                self.state = WorkerState::Stopped;
                None
            },
        }
    }
}

/// How many workers of a sequence have stopped.
pub open spec fn stopped_count(ws: Seq<Worker>) -> nat
    decreases ws.len(),
{
    if ws.len() == 0 {
        0
    } else {
        stopped_count(ws.drop_last()) + (if ws.last().state is Stopped {
            1nat
        } else {
            0nat
        })
    }
}

/// No more workers have stopped than there are workers.
pub proof fn lemma_stopped_count_le(ws: Seq<Worker>)
    ensures
        stopped_count(ws) <= ws.len(),
    decreases ws.len(),
{
    if ws.len() > 0 {
        lemma_stopped_count_le(ws.drop_last());
    }
}

/// While some worker is still running, strictly fewer workers have stopped
/// than there are workers.
pub proof fn lemma_stopped_count_strict(ws: Seq<Worker>, i: int)
    requires
        0 <= i < ws.len(),
        ws[i].state is Running,
    ensures
        stopped_count(ws) < ws.len(),
    decreases ws.len(),
{
    if i == ws.len() - 1 {
        lemma_stopped_count_le(ws.drop_last());
    } else {
        assert(ws.drop_last()[i] == ws[i]);
        lemma_stopped_count_strict(ws.drop_last(), i);
    }
}

/// In a pool where every worker is still running, none has stopped.
pub proof fn lemma_stopped_count_all_running(ws: Seq<Worker>)
    requires
        forall|i: int| 0 <= i < ws.len() ==> (#[trigger] ws[i]).state is Running,
    ensures
        stopped_count(ws) == 0,
    decreases ws.len(),
{
    if ws.len() > 0 {
        assert forall|i: int| 0 <= i < ws.drop_last().len() implies (#[trigger] ws.drop_last()[i]).state is Running by {
            assert(ws.drop_last()[i] == ws[i]);
        }
        lemma_stopped_count_all_running(ws.drop_last());
    }
}

/// Stopping one running worker raises the stopped count by exactly one.
pub proof fn lemma_stopped_count_stop_one(ws: Seq<Worker>, i: int, w: Worker)
    requires
        0 <= i < ws.len(),
        ws[i].state is Running,
        w.state is Stopped,
    ensures
        stopped_count(ws.update(i, w)) == stopped_count(ws) + 1,
    decreases ws.len(),
{
    let u = ws.update(i, w);
    if i == ws.len() - 1 {
        assert(u.drop_last() =~= ws.drop_last());
    } else {
        assert(u.drop_last() =~= ws.drop_last().update(i, w));
        assert(ws.drop_last()[i] == ws[i]);
        lemma_stopped_count_stop_one(ws.drop_last(), i, w);
        assert(u.last() == ws.last());
    }
}

} // verus!
