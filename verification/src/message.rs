//! The envelope transported on the pool's queue, and spec-level views of a
//! queue's contents: which job payloads it carries and how many termination
//! signals it holds.

use vstd::prelude::*;

verus! {

/// The unit actually transported on the queue: either a unit of work, handed
/// to whichever worker dequeues it next, or the in-band signal that tells
/// exactly one worker to stop its loop and exit. Carrying both through the
/// same channel guarantees that termination is processed in submission order
/// relative to real work.
pub enum Message<J> {
    NewJob(J),
    Terminate,
}

/// The job payloads of a message sequence, in queue order.
pub open spec fn jobs_of<J>(q: Seq<Message<J>>) -> Seq<J>
    decreases q.len(),
{
    if q.len() == 0 {
        Seq::empty()
    } else {
        match q.first() {
            Message::NewJob(j) => seq![j] + jobs_of(q.drop_first()),
            Message::Terminate => jobs_of(q.drop_first()),
        }
    }
}

/// How many termination signals a message sequence holds.
pub open spec fn num_terminates<J>(q: Seq<Message<J>>) -> nat
    decreases q.len(),
{
    if q.len() == 0 {
        0
    } else {
        (if q.first() is Terminate {
            1nat
        } else {
            0nat
        }) + num_terminates(q.drop_first())
    }
}

/// No job sits behind a termination signal: once a `Terminate` is queued,
/// everything after it is `Terminate` too. Teardown establishes this by
/// enqueueing all termination signals after the last job.
pub open spec fn jobs_before_terminates<J>(q: Seq<Message<J>>) -> bool {
    forall|i: int, k: int|
        #![trigger q[i], q[k]]
        0 <= i < k < q.len() && q[i] is Terminate ==> q[k] is Terminate
}

/// Every message is either a job or a termination signal, so the two views
/// together account for the whole queue.
pub proof fn lemma_queue_parts<J>(q: Seq<Message<J>>)
    ensures
        jobs_of(q).len() + num_terminates(q) == q.len(),
    decreases q.len(),
{
    if q.len() > 0 {
        lemma_queue_parts(q.drop_first());
    }
}

/// Enqueueing a job appends its payload to the job view and leaves the count
/// of termination signals unchanged.
pub proof fn lemma_push_job<J>(q: Seq<Message<J>>, j: J)
    ensures
        jobs_of(q.push(Message::NewJob(j))) == jobs_of(q).push(j),
        num_terminates(q.push(Message::NewJob(j))) == num_terminates(q),
    decreases q.len(),
{
    let p = q.push(Message::NewJob(j));
    if q.len() == 0 {
        assert(p.first() == Message::NewJob(j));
        assert(p.drop_first() =~= Seq::<Message<J>>::empty());
        assert(num_terminates(p.drop_first()) == 0);
        assert(num_terminates(p) == num_terminates(q));
        assert(jobs_of(p.drop_first()) =~= Seq::<J>::empty());
        assert(seq![j] + jobs_of(p.drop_first()) =~= jobs_of(q).push(j));
    } else {
        assert(p.first() == q.first());
        assert(p.drop_first() =~= q.drop_first().push(Message::NewJob(j)));
        lemma_push_job(q.drop_first(), j);
        assert(num_terminates(p) == (if p.first() is Terminate {
            1nat
        } else {
            0nat
        }) + num_terminates(p.drop_first()));
        assert(num_terminates(q) == (if q.first() is Terminate {
            1nat
        } else {
            0nat
        }) + num_terminates(q.drop_first()));
        match q.first() {
            Message::NewJob(j0) => {
                assert(jobs_of(p) == seq![j0] + jobs_of(p.drop_first()));
                assert(jobs_of(q) == seq![j0] + jobs_of(q.drop_first()));
                assert(seq![j0] + jobs_of(q.drop_first()).push(j) =~= (seq![j0] + jobs_of(
                    q.drop_first(),
                )).push(j));
            },
            Message::Terminate => {
                assert(jobs_of(p) == jobs_of(p.drop_first()));
                assert(jobs_of(q) == jobs_of(q.drop_first()));
            },
        }
    }
}

/// Enqueueing a termination signal raises their count by one and leaves the
/// job view unchanged.
pub proof fn lemma_push_terminate<J>(q: Seq<Message<J>>)
    ensures
        jobs_of(q.push(Message::Terminate)) == jobs_of(q),
        num_terminates(q.push(Message::Terminate)) == num_terminates(q) + 1,
    decreases q.len(),
{
    let p = q.push(Message::<J>::Terminate);
    if q.len() == 0 {
        assert(p.first() == Message::<J>::Terminate);
        assert(p.drop_first() =~= Seq::<Message<J>>::empty());
        assert(num_terminates(p.drop_first()) == 0);
        assert(jobs_of(p.drop_first()) =~= Seq::<J>::empty());
        assert(num_terminates(p) == 1);
        assert(jobs_of(p) == jobs_of(q));
    } else {
        assert(p.first() == q.first());
        assert(p.drop_first() =~= q.drop_first().push(Message::Terminate));
        lemma_push_terminate::<J>(q.drop_first());
        assert(num_terminates(p) == (if p.first() is Terminate {
            1nat
        } else {
            0nat
        }) + num_terminates(p.drop_first()));
        assert(num_terminates(q) == (if q.first() is Terminate {
            1nat
        } else {
            0nat
        }) + num_terminates(q.drop_first()));
        match q.first() {
            Message::NewJob(j0) => {
                assert(jobs_of(p) == seq![j0] + jobs_of(p.drop_first()));
                assert(jobs_of(q) == seq![j0] + jobs_of(q.drop_first()));
            },
            Message::Terminate => {
                assert(jobs_of(p) == jobs_of(p.drop_first()));
                assert(jobs_of(q) == jobs_of(q.drop_first()));
            },
        }
    }
}

/// A queue without termination signals holds none at any position.
pub proof fn lemma_no_terminates<J>(q: Seq<Message<J>>)
    requires
        num_terminates(q) == 0,
    ensures
        forall|i: int| 0 <= i < q.len() ==> !((#[trigger] q[i]) is Terminate),
    decreases q.len(),
{
    if q.len() > 0 {
        lemma_no_terminates(q.drop_first());
        assert forall|i: int| 0 <= i < q.len() implies !((#[trigger] q[i]) is Terminate) by {
            if i > 0 {
                assert(q[i] == q.drop_first()[i - 1]);
            }
        }
    }
}

/// A queue made of termination signals only carries no jobs.
pub proof fn lemma_all_terminates<J>(q: Seq<Message<J>>)
    requires
        forall|i: int| 0 <= i < q.len() ==> (#[trigger] q[i]) is Terminate,
    ensures
        num_terminates(q) == q.len(),
        jobs_of(q).len() == 0,
    decreases q.len(),
{
    lemma_queue_parts(q);
    if q.len() > 0 {
        assert forall|i: int| 0 <= i < q.drop_first().len() implies (#[trigger] q.drop_first()[i]) is Terminate by {
            assert(q.drop_first()[i] == q[i + 1]);
        }
        lemma_all_terminates(q.drop_first());
    }
}

} // verus!
