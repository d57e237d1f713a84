//! The worker-pool protocol: a shared job queue with exactly-once delivery,
//! an explicit per-worker termination message, and a merge point for the
//! results.
//!
//! The pool here is the sequential model of that protocol: what the queue
//! holds, which job is handed out next, and how results are accounted.  The
//! caller owns the locking and the threads and drives the model one guarded
//! step at a time; every step keeps the accounting invariant, so however the
//! steps interleave, each submitted job is delivered exactly once, in
//! submission order, and at most one result is recorded per delivered job.

use vstd::prelude::*;

use crate::addr::Ipv4Address;
use crate::nbt_packet::NetBiosPacket;

verus! {

/// One entry of the job queue: a probe bound to one address, or the
/// termination message that tells a worker to exit.
#[derive(Clone, Copy, Debug, PartialEq, Eq, Structural)]
pub enum Message {
    Process(Ipv4Address),
    Terminate,
}

/// What a worker does with a received message.
#[derive(Clone, Copy, Debug, PartialEq, Eq, Structural)]
pub enum WorkerAction {
    Probe(Ipv4Address),
    Exit,
}

/// The addresses of the probe jobs in `q`, in queue order.
pub open spec fn process_ips(q: Seq<Message>) -> Seq<Ipv4Address>
    decreases q.len(),
{
    if q.len() == 0 {
        Seq::empty()
    } else {
        match q.first() {
            Message::Process(ip) => seq![ip] + process_ips(q.drop_first()),
            Message::Terminate => process_ips(q.drop_first()),
        }
    }
}

/// Appending a termination message adds no probe job.
proof fn lemma_process_ips_push_terminate(q: Seq<Message>)
    ensures
        process_ips(q.push(Message::Terminate)) == process_ips(q),
    decreases q.len(),
{
    let r = q.push(Message::Terminate);
    if q.len() == 0 {
        assert(r.first() == Message::Terminate);
        assert(r.drop_first() =~= Seq::<Message>::empty());
        assert(process_ips(r) == process_ips(r.drop_first()));
    } else {
        assert(r.first() == q.first());
        assert(r.drop_first() =~= q.drop_first().push(Message::Terminate));
        lemma_process_ips_push_terminate(q.drop_first());
        match q.first() {
            Message::Process(ip0) => {
                assert(process_ips(r) == seq![ip0] + process_ips(r.drop_first()));
                assert(process_ips(q) == seq![ip0] + process_ips(q.drop_first()));
            },
            Message::Terminate => {
                assert(process_ips(r) == process_ips(r.drop_first()));
            },
        }
    }
}

/// Appending a probe job appends its address.
proof fn lemma_process_ips_push_process(q: Seq<Message>, ip: Ipv4Address)
    ensures
        process_ips(q.push(Message::Process(ip))) == process_ips(q).push(ip),
    decreases q.len(),
{
    let r = q.push(Message::Process(ip));
    if q.len() == 0 {
        assert(r.first() == Message::Process(ip));
        assert(r.drop_first() =~= Seq::<Message>::empty());
        assert(process_ips(r) == seq![ip] + process_ips(r.drop_first()));
        assert(process_ips(r) =~= process_ips(q).push(ip));
    } else {
        assert(r.first() == q.first());
        assert(r.drop_first() =~= q.drop_first().push(Message::Process(ip)));
        lemma_process_ips_push_process(q.drop_first(), ip);
        match q.first() {
            Message::Process(ip0) => {
                assert(process_ips(r) == seq![ip0] + process_ips(r.drop_first()));
                assert(process_ips(q) == seq![ip0] + process_ips(q.drop_first()));
            },
            Message::Terminate => {
                assert(process_ips(r) == process_ips(r.drop_first()));
            },
        }
        assert(process_ips(r) =~= process_ips(q).push(ip));
    }
}

/// The pool: a fixed number of workers, the shared job queue, and the merged
/// results.  The ghost fields record every address ever submitted and every
/// address ever handed out, which is what the accounting law speaks of.
pub struct ThreadPool {
    size: usize,
    queue: Vec<Message>,
    stopped: bool,
    results: Vec<NetBiosPacket>,
    submitted: Ghost<Seq<Ipv4Address>>,
    delivered: Ghost<Seq<Ipv4Address>>,
    completed: Ghost<int>,
}

impl ThreadPool {
    /// The number of workers the pool was built with.
    pub closed spec fn spec_size(self) -> usize {
        self.size
    }

    /// The messages still queued, delivery order first.
    pub closed spec fn spec_queue(self) -> Seq<Message> {
        self.queue@
    }

    /// Whether `stop` has been called.
    pub closed spec fn spec_stopped(self) -> bool {
        self.stopped
    }

    /// The results recorded so far.
    pub closed spec fn spec_results(self) -> Seq<NetBiosPacket> {
        self.results@
    }

    /// Every address submitted, in submission order.
    pub closed spec fn spec_submitted(self) -> Seq<Ipv4Address> {
        self.submitted@
    }

    /// Every address handed out to a worker, in delivery order.
    pub closed spec fn spec_delivered(self) -> Seq<Ipv4Address> {
        self.delivered@
    }

    /// How many delivered jobs have reported back.
    pub closed spec fn spec_completed(self) -> int {
        self.completed@
    }

    /// The accounting invariant.  The queue never loses or duplicates a
    /// job: what was handed out followed by what is still queued is exactly
    /// what was submitted.  Results never outnumber completed jobs, and
    /// completed jobs never outnumber delivered ones.
    pub open spec fn wf(self) -> bool {
        &&& self.spec_size() >= 1
        &&& self.spec_delivered() + process_ips(self.spec_queue()) == self.spec_submitted()
        &&& 0 <= self.spec_results().len() <= self.spec_completed() <= self.spec_delivered().len()
        &&& forall|i: int|
            0 <= i < self.spec_results().len() ==> (#[trigger] self.spec_results()[i]).wf()
    }

    /// Creates a pool of `size` workers with an empty queue.  A pool of no
    /// workers is meaningless, so zero is excluded.
    pub fn new(size: usize) -> (p: ThreadPool)
        requires
            size >= 1,
        ensures
            p.wf(),
            p.spec_size() == size,
            p.spec_queue() == Seq::<Message>::empty(),
            !p.spec_stopped(),
            p.spec_results() == Seq::<NetBiosPacket>::empty(),
            p.spec_submitted() == Seq::<Ipv4Address>::empty(),
            p.spec_delivered() == Seq::<Ipv4Address>::empty(),
            p.spec_completed() == 0,
    {
        let p = ThreadPool {
            size,
            queue: Vec::new(),
            stopped: false,
            results: Vec::new(),
            submitted: Ghost(Seq::empty()),
            delivered: Ghost(Seq::empty()),
            completed: Ghost(0),
        };
        proof {
            assert(p.spec_delivered() + process_ips(p.spec_queue()) =~= p.spec_submitted());
        }
        p
    }

    /// Submits one probe job.  The job is appended to the queue and is never
    /// dropped; submission is refused only after `stop`.
    pub fn execute(&mut self, ip: Ipv4Address)
        requires
            old(self).wf(),
            !old(self).spec_stopped(),
        ensures
            final(self).wf(),
            final(self).spec_queue() == old(self).spec_queue().push(Message::Process(ip)),
            final(self).spec_submitted() == old(self).spec_submitted().push(ip),
            final(self).spec_size() == old(self).spec_size(),
            final(self).spec_stopped() == old(self).spec_stopped(),
            final(self).spec_results() == old(self).spec_results(),
            final(self).spec_delivered() == old(self).spec_delivered(),
            final(self).spec_completed() == old(self).spec_completed(),
    {
        self.queue.push(Message::Process(ip));
        proof {
            self.submitted@ = self.submitted@.push(ip);
            lemma_process_ips_push_process(old(self).spec_queue(), ip);
            assert(final(self).spec_delivered() + process_ips(final(self).spec_queue())
                =~= final(self).spec_submitted());
        }
    }

    /// Signals that no further jobs will come: one termination message per
    /// worker is queued behind the jobs already submitted, so every worker
    /// exits only after the work ahead of it is drained.
    pub fn stop(&mut self)
        requires
            old(self).wf(),
        ensures
            final(self).wf(),
            final(self).spec_stopped(),
            final(self).spec_queue() == old(self).spec_queue() + Seq::new(
                old(self).spec_size() as nat,
                |k: int| Message::Terminate,
            ),
            final(self).spec_size() == old(self).spec_size(),
            final(self).spec_submitted() == old(self).spec_submitted(),
            final(self).spec_results() == old(self).spec_results(),
            final(self).spec_delivered() == old(self).spec_delivered(),
            final(self).spec_completed() == old(self).spec_completed(),
    {
        let n = self.size;
        let mut k: usize = 0;
        while k < n
            invariant
                old(self).wf(),
                n == old(self).spec_size(),
                0 <= k <= n,
                self.size == old(self).size,
                self.stopped == old(self).stopped,
                self.results == old(self).results,
                self.submitted == old(self).submitted,
                self.delivered == old(self).delivered,
                self.completed == old(self).completed,
                self.queue@ =~= old(self).queue@ + Seq::new(
                    k as nat,
                    |j: int| Message::Terminate,
                ),
                process_ips(self.queue@) == process_ips(old(self).queue@),
            decreases n - k,
        {
            proof {
                lemma_process_ips_push_terminate(self.queue@);
            }
            self.queue.push(Message::Terminate);
            proof {
                assert(self.queue@ =~= old(self).queue@ + Seq::new(
                    (k + 1) as nat,
                    |j: int| Message::Terminate,
                ));
            }
            k += 1;
        }
        self.stopped = true;
    }

    /// Hands the worker holding the pool's guard the next message, removing
    /// it from the queue, so no other worker can ever receive it.  Returns
    /// nothing when the queue is empty.
    pub fn next_message(&mut self) -> (m: Option<Message>)
        requires
            old(self).wf(),
        ensures
            final(self).wf(),
            old(self).spec_queue().len() == 0 ==> (m is None && *final(self) == *old(self)),
            old(self).spec_queue().len() > 0 ==> {
                &&& m == Some(old(self).spec_queue().first())
                &&& final(self).spec_queue() == old(self).spec_queue().drop_first()
                &&& (match old(self).spec_queue().first() {
                    Message::Process(ip) => final(self).spec_delivered() == old(
                        self,
                    ).spec_delivered().push(ip),
                    Message::Terminate => final(self).spec_delivered() == old(
                        self,
                    ).spec_delivered(),
                })
            },
            final(self).spec_size() == old(self).spec_size(),
            final(self).spec_stopped() == old(self).spec_stopped(),
            final(self).spec_results() == old(self).spec_results(),
            final(self).spec_submitted() == old(self).spec_submitted(),
            final(self).spec_completed() == old(self).spec_completed(),
    {
        if self.queue.len() == 0 {
            return None;
        }
        let msg = self.queue.remove(0);
        proof {
            assert(self.queue@ =~= old(self).queue@.drop_first());
            if let Message::Process(ip) = msg {
                self.delivered@ = self.delivered@.push(ip);
                assert(process_ips(old(self).queue@) == seq![ip] + process_ips(self.queue@));
                assert(final(self).spec_delivered() + process_ips(final(self).spec_queue())
                    =~= final(self).spec_submitted());
            }
        }
        Some(msg)
    }

    /// Records the outcome of one delivered job: its result if the probe
    /// answered, nothing if it timed out or failed.  Each delivered job
    /// reports back at most once, which is what keeps the result count
    /// bounded by the job count.
    pub fn complete_job(&mut self, outcome: Option<NetBiosPacket>)
        requires
            old(self).wf(),
            old(self).spec_completed() < old(self).spec_delivered().len(),
            outcome matches Some(p) ==> p.wf(),
        ensures
            final(self).wf(),
            final(self).spec_completed() == old(self).spec_completed() + 1,
            (match outcome {
                Some(p) => final(self).spec_results() == old(self).spec_results().push(p),
                None => final(self).spec_results() == old(self).spec_results(),
            }),
            final(self).spec_size() == old(self).spec_size(),
            final(self).spec_stopped() == old(self).spec_stopped(),
            final(self).spec_queue() == old(self).spec_queue(),
            final(self).spec_submitted() == old(self).spec_submitted(),
            final(self).spec_delivered() == old(self).spec_delivered(),
    {
        proof {
            self.completed@ = self.completed@ + 1;
        }
        if let Some(p) = outcome {
            self.results.push(p);
        }
    }

    /// Waits out the workers and returns the union of their results.  The
    /// count never exceeds the number of submitted jobs, since a job that
    /// found nothing contributes no result.
    pub fn join_all(self) -> (results: Vec<NetBiosPacket>)
        requires
            self.wf(),
        ensures
            results@ == self.spec_results(),
            results@.len() <= self.spec_submitted().len(),
            forall|i: int| 0 <= i < results@.len() ==> (#[trigger] results@[i]).wf(),
    {
        self.results
    }
}

/// What a worker does with one received message: a probe job is run against
/// its address, a termination message makes the worker exit.
pub fn worker_step(message: &Message) -> (a: WorkerAction)
    ensures
        (*message matches Message::Process(ip) ==> a == WorkerAction::Probe(ip)),
        (message is Terminate ==> a is Exit),
{
    match message {
        Message::Process(ip) => WorkerAction::Probe(*ip),
        Message::Terminate => WorkerAction::Exit,
    }
}

/// Law: however the workers interleave, a pool that was handed `K` jobs
/// accounts for them exactly.  At most `K` results come back; the addresses
/// handed out are precisely the first ones submitted, each exactly once and
/// in submission order; and once the queue holds no further probe job, every
/// submitted job has been handed out.
pub proof fn lemma_pool_accounting(p: ThreadPool)
    requires
        p.wf(),
    ensures
        p.spec_results().len() <= p.spec_submitted().len(),
        p.spec_delivered() == p.spec_submitted().take(p.spec_delivered().len() as int),
        process_ips(p.spec_queue()).len() == 0 ==> p.spec_delivered() == p.spec_submitted(),
{
    assert(p.spec_delivered() =~= p.spec_submitted().take(p.spec_delivered().len() as int));
    if process_ips(p.spec_queue()).len() == 0 {
        assert(p.spec_delivered() =~= p.spec_submitted());
    }
}

} // verus!
