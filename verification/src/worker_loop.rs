//! The request loop of a worker process (`--worker` mode of the benches):
//! what each stdin line and each finished job calls for. Reading lines,
//! running the engine and writing replies is the program's part.

use vstd::prelude::*;
use crate::text::{trim, trimmed, to_string};

verus! {

/// Whether a request line is blank (it is skipped).
pub fn is_blank_line(line: &str) -> (r: bool)
    ensures
        r == (trim(line@).len() == 0),
{
    let t = trimmed(line);
    t.as_str().is_empty()
}

/// A non-blank request line, as the loop sees it.
pub enum Incoming {
    /// Not a request the worker understands.
    Malformed,
    Ping { id: String },
    Shutdown { id: String },
    /// Work for the engine.
    Job { id: String },
}

/// A reply that carries no measurements.
pub enum Reply {
    Pong { id: String },
    ShutdownAck { id: String },
    Error { id: String, message: String },
}

/// What a request line calls for.
pub enum Step {
    /// Ignore the line.
    Skip,
    /// Answer and read on.
    Send(Reply),
    /// Answer, then stop reading.
    SendAndStop(Reply),
    /// Hand the job to the engine.
    Submit { id: String },
}

/// How a job ended.
pub enum JobEnd {
    /// The engine produced a result.
    Finished,
    /// The engine failed with this error.
    Failed(String),
    /// The engine thread is gone; the job could not be handed over.
    EngineGone,
    /// The engine thread dropped the job's reply.
    ReplyDropped,
    /// The audio could not be decoded, with this error.
    DecodeFailed(String),
}

/// What a finished job calls for.
pub enum JobStep {
    /// Send the engine's result, under this id.
    SendResult { id: String },
    /// Send this error and read on.
    Send(Reply),
    /// Send this error and stop.
    SendAndStop(Reply),
}

/// The error text for audio that could not be decoded.
pub open spec fn decode_error(e: Seq<char>) -> Seq<char> {
    "ffmpeg decode: "@ + e
}

/// A handled request, as the loop's history records it: its id, and for a
/// job whether the engine was found gone.
pub enum Handled {
    Malformed,
    Ping(Seq<char>),
    Shutdown(Seq<char>),
    Job(Seq<char>, bool),
}

/// The ids the loop answers for a history of handled requests, in order:
/// one per request that is not malformed, none after a request that stops
/// the loop (a shutdown, or a job whose engine is gone).
pub open spec fn loop_replies(h: Seq<Handled>) -> Seq<Seq<char>>
    decreases h.len(),
{
    if h.len() == 0 {
        seq![]
    } else {
        let rest = loop_replies(h.drop_last());
        if stops(h.drop_last()) {
            rest
        } else {
            match h.last() {
                Handled::Malformed => rest,
                Handled::Ping(id) => rest.push(id),
                Handled::Shutdown(id) => rest.push(id),
                Handled::Job(id, _) => rest.push(id),
            }
        }
    }
}

/// Whether a history holds a request that stopped the loop.
pub open spec fn stops(h: Seq<Handled>) -> bool {
    exists|i: int|
        0 <= i < h.len() && (#[trigger] h[i] is Shutdown || h[i] matches Handled::Job(_, true))
}

/// The ids of the requests in `h` that are not malformed, in order.
pub open spec fn answered_ids(h: Seq<Handled>) -> Seq<Seq<char>>
    decreases h.len(),
{
    if h.len() == 0 {
        seq![]
    } else {
        let rest = answered_ids(h.drop_last());
        match h.last() {
            Handled::Malformed => rest,
            Handled::Ping(id) => rest.push(id),
            Handled::Shutdown(id) => rest.push(id),
            Handled::Job(id, _) => rest.push(id),
        }
    }
}

/// One reply per request, in order: as long as no earlier request stopped
/// the loop, the replies are exactly the ids of the requests that are not
/// malformed, each once, in the order the requests came.
pub proof fn law_one_reply_per_request(h: Seq<Handled>)
    requires
        !stops(h.drop_last()),
    ensures
        loop_replies(h) == answered_ids(h),
    decreases h.len(),
{
    if h.len() > 0 {
        let p = h.drop_last();
        if p.len() > 0 {
            assert(!stops(p.drop_last())) by {
                if stops(p.drop_last()) {
                    let i = choose|i: int|
                        0 <= i < p.drop_last().len() && (#[trigger] p.drop_last()[i] is Shutdown
                            || p.drop_last()[i] matches Handled::Job(_, true));
                    assert(p[i] == p.drop_last()[i]);
                }
            }
            law_one_reply_per_request(p);
        }
    }
}

/// The worker's request loop: what it has handled and answered, and the
/// job it is running, if any.
pub struct WorkerLoop {
    running: Option<String>,
    stopped: bool,
    handled: Ghost<Seq<Handled>>,
    sent: Ghost<Seq<Seq<char>>>,
}

impl WorkerLoop {
    /// The loop's own bookkeeping: what was sent is what its history calls
    /// for, and it has stopped exactly when a request stopped it.
    pub closed spec fn wf(&self) -> bool {
        &&& self.sent@ == loop_replies(self.handled@)
        &&& self.stopped == stops(self.handled@)
    }

    /// Requests handled so far (a running job counts once it ends).
    pub closed spec fn handled(&self) -> Seq<Handled> {
        self.handled@
    }

    /// Ids answered so far, in order.
    pub closed spec fn sent(&self) -> Seq<Seq<char>> {
        self.sent@
    }

    /// The job being run, if any.
    pub closed spec fn running(&self) -> Option<Seq<char>> {
        match self.running {
            Some(id) => Some(id@),
            None => None,
        }
    }

    pub closed spec fn stopped(&self) -> bool {
        self.stopped
    }

    /// A loop that has handled nothing.
    pub fn new() -> (l: Self)
        ensures
            l.wf(),
            l.handled() == Seq::<Handled>::empty(),
            l.sent() == Seq::<Seq<char>>::empty(),
            l.sent() == loop_replies(l.handled()),
            l.running() is None,
            !l.stopped(),
    {
        let handled: Ghost<Seq<Handled>> = Ghost(Seq::empty());
        let sent: Ghost<Seq<Seq<char>>> = Ghost(Seq::empty());
        WorkerLoop { running: None, stopped: false, handled, sent }
    }

    /// Whether the loop reads another line.
    pub fn reading(&self) -> (r: bool)
        ensures
            r == !self.stopped(),
    {
        !self.stopped
    }

    /// Decide what a request line calls for: malformed lines are skipped, a
    /// ping is answered with a pong, a shutdown is acknowledged and ends the
    /// loop, a job goes to the engine. The id is echoed unchanged.
    pub fn on_request(&mut self, req: Incoming) -> (s: Step)
        requires
            old(self).wf(),
            !old(self).stopped(),
            old(self).running() is None,
        ensures
            final(self).wf(),
            final(self).sent() == loop_replies(final(self).handled()),
            (req is Malformed || req is Job) ==> final(self).sent() == old(self).sent(),
            req matches Incoming::Ping { id } ==> final(self).sent() == old(self).sent().push(id@),
            req matches Incoming::Shutdown { id } ==> final(self).sent() == old(self).sent().push(
                id@,
            ),
            req is Malformed ==> s is Skip && final(self).handled() == old(self).handled().push(
                Handled::Malformed,
            ),
            req matches Incoming::Ping { id } ==> (s matches Step::Send(Reply::Pong { id: i }) && i@
                == id@),
            req matches Incoming::Ping { id } ==> final(self).handled() == old(self).handled().push(
                Handled::Ping(id@),
            ),
            req matches Incoming::Shutdown { id } ==> (s matches Step::SendAndStop(
                Reply::ShutdownAck { id: i },
            ) && i@ == id@),
            req matches Incoming::Shutdown { id } ==> final(self).handled() == old(self).handled().push(
                Handled::Shutdown(id@),
            ) && final(self).stopped(),
            req matches Incoming::Job { id } ==> (s matches Step::Submit { id: i } && i@ == id@),
            req matches Incoming::Job { id } ==> final(self).running() == Some(id@)
                && final(self).handled() == old(self).handled(),
            !(req is Job) ==> final(self).running() is None,
            !(req is Shutdown) ==> !final(self).stopped(),
    {
        let ghost h = self.handled@;
        match req {
            Incoming::Malformed => {
                proof {
                    self.handled@ = h.push(Handled::Malformed);
                    assert(self.handled@.drop_last() =~= h);
                    assert(!stops(self.handled@)) by {
                        if stops(self.handled@) {
                            let i = choose|i: int|
                                0 <= i < self.handled@.len() && (#[trigger] self.handled@[i] is Shutdown
                                    || self.handled@[i] matches Handled::Job(_, true));
                            assert(i < h.len());
                            assert(self.handled@[i] == h[i]);
                        }
                    }
                }
                Step::Skip
            },
            Incoming::Ping { id } => {
                proof {
                    self.handled@ = h.push(Handled::Ping(id@));
                    self.sent@ = self.sent@.push(id@);
                    assert(self.handled@.drop_last() =~= h);
                    assert(!stops(self.handled@)) by {
                        if stops(self.handled@) {
                            let i = choose|i: int|
                                0 <= i < self.handled@.len() && (#[trigger] self.handled@[i] is Shutdown
                                    || self.handled@[i] matches Handled::Job(_, true));
                            assert(i < h.len());
                            assert(self.handled@[i] == h[i]);
                        }
                    }
                }
                Step::Send(Reply::Pong { id })
            },
            Incoming::Shutdown { id } => {
                proof {
                    self.handled@ = h.push(Handled::Shutdown(id@));
                    self.sent@ = self.sent@.push(id@);
                    assert(self.handled@.drop_last() =~= h);
                    assert(self.handled@[h.len() as int] is Shutdown);
                }
                self.stopped = true;
                Step::SendAndStop(Reply::ShutdownAck { id })
            },
            Incoming::Job { id } => {
                self.running = Some(id.clone());
                Step::Submit { id }
            },
        }
    }

    /// Decide the reply to the running job from how it ended: its result
    /// when it finished; otherwise an error carrying its id. Only a lost
    /// engine ends the loop.
    pub fn on_job_end(&mut self, end: JobEnd) -> (s: JobStep)
        requires
            old(self).wf(),
            !old(self).stopped(),
            old(self).running() is Some,
        ensures
            final(self).wf(),
            final(self).sent() == loop_replies(final(self).handled()),
            final(self).running() is None,
            ({
                let id = old(self).running()->0;
                &&& final(self).handled() == old(self).handled().push(
                    Handled::Job(id, end is EngineGone),
                )
                &&& final(self).sent() == old(self).sent().push(id)
                &&& final(self).stopped() == (end is EngineGone)
                &&& match end {
                    JobEnd::Finished => s matches JobStep::SendResult { id: i } && i@ == id,
                    JobEnd::Failed(e) => s matches JobStep::Send(Reply::Error { id: i, message: m })
                        && i@ == id && m@ == e@,
                    JobEnd::EngineGone => s matches JobStep::SendAndStop(
                        Reply::Error { id: i, message: m },
                    ) && i@ == id && m@ == "engine thread died"@,
                    JobEnd::ReplyDropped => s matches JobStep::Send(
                        Reply::Error { id: i, message: m },
                    ) && i@ == id && m@ == "engine thread dropped reply"@,
                    JobEnd::DecodeFailed(e) => s matches JobStep::Send(
                        Reply::Error { id: i, message: m },
                    ) && i@ == id && m@ == decode_error(e@),
                }
            }),
    {
        let mut running: Option<String> = None;
        std::mem::swap(&mut running, &mut self.running);
        let id = match running {
            Some(id) => id,
            None => String::new(),
        };
        let gone = match &end {
            JobEnd::EngineGone => true,
            _ => false,
        };
        let ghost h = self.handled@;
        proof {
            self.handled@ = h.push(Handled::Job(id@, gone));
            self.sent@ = self.sent@.push(id@);
            assert(self.handled@.drop_last() =~= h);
            if !gone {
                assert(!stops(self.handled@)) by {
                    if stops(self.handled@) {
                        let i = choose|i: int|
                            0 <= i < self.handled@.len() && (#[trigger] self.handled@[i] is Shutdown
                                || self.handled@[i] matches Handled::Job(_, true));
                        assert(i < h.len());
                        assert(self.handled@[i] == h[i]);
                    }
                }
            } else {
                assert(self.handled@[h.len() as int] matches Handled::Job(_, true));
            }
        }
        self.stopped = gone;
        match end {
            JobEnd::Finished => JobStep::SendResult { id },
            JobEnd::Failed(e) => JobStep::Send(Reply::Error { id, message: e }),
            JobEnd::EngineGone => JobStep::SendAndStop(
                Reply::Error { id, message: to_string("engine thread died") },
            ),
            JobEnd::ReplyDropped => JobStep::Send(
                Reply::Error { id, message: to_string("engine thread dropped reply") },
            ),
            JobEnd::DecodeFailed(e) => {
                let mut m = to_string("ffmpeg decode: ");
                m.append(e.as_str());
                JobStep::Send(Reply::Error { id, message: m })
            },
        }
    }
}

} // verus!
