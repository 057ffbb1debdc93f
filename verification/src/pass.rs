//! The stack inspection pass as a sequence of decisions.
//!
//! Attaching to a process, stopping it, walking its stacks and resolving
//! symbols are the operating system's work, and a driver outside this
//! library does it. What to do next, what to keep, and how a failure ends
//! the pass is decided here: a [`Pass`] names the next [`Request`], takes
//! the driver's [`Reply`], and moves on.

use crate::error::{ErrorView, InspectError};
use crate::frame::{address_only, address_text};
use crate::thread::{stack_views, texts, StackView, ThreadSnapshot, ThreadStack};
use vstd::prelude::*;

verus! {

/// Where a pass stands: which reply it is waiting for.
#[derive(Clone, Copy, Debug, PartialEq, Eq, Structural)]
pub enum Phase {
    /// Waiting to hear whether the process could be attached to.
    Attaching,
    /// Waiting to hear whether the process could be stopped.
    LockingProcess,
    /// Waiting for the threads of the stopped process.
    ListingThreads,
    /// Waiting to hear whether the thread in hand could be locked.
    LockingThread,
    /// Waiting for the next frame of the thread in hand.
    Unwinding,
    /// Waiting for the frames of the instruction pointer last found.
    Resolving,
    /// Waiting for the lock of the thread in hand to be released.
    UnlockingThread,
    /// Waiting for the process to be let run again.
    UnlockingProcess,
    /// Waiting for the attachment to be given up.
    Detaching,
    /// Over: nothing is waited for.
    Finished,
}

/// What the driver is asked to do.
#[derive(Clone, Copy, Debug, PartialEq, Eq, Structural)]
pub enum Request {
    /// Attach to the process.
    Attach { pid: usize },
    /// Stop the attached process and hold it stopped.
    LockProcess,
    /// List the threads of the stopped process.
    ListThreads,
    /// Take the lock of one thread, on top of the process lock.
    LockThread { thread_id: i64 },
    /// Take one more step up the stack of the locked thread.
    Unwind { thread_id: i64 },
    /// Resolve one instruction pointer to its frames, innermost first.
    Symbolicate { ip: u64, include_inlined: bool },
    /// Release the lock of the thread.
    UnlockThread { thread_id: i64 },
    /// Let the process run again.
    UnlockProcess,
    /// Give up the attachment.
    Detach,
    /// Nothing is left to do: the outcome can be taken.
    Finish,
}

/// What the driver answers.
#[derive(Clone, Debug, PartialEq, Eq)]
pub enum Reply {
    /// The request was carried out; it has nothing to hand back.
    Done,
    /// The threads of the process, in the order the system lists them.
    Threads(Vec<ThreadSnapshot>),
    /// The instruction pointer of the next frame up the stack.
    Frame(u64),
    /// The walk reached the base of the stack, or ran out of unwind data.
    StackEnd,
    /// The frames that the instruction pointer stands for, innermost
    /// first.
    Resolved(Vec<String>),
    /// No debug information covers the instruction pointer.
    Unresolved,
    /// The request failed, for the reason given.
    Failed(String),
}

/// The mathematical content of a [`Reply`].
pub enum ReplyView {
    Done,
    Threads(Seq<ThreadSnapshot>),
    Frame(u64),
    StackEnd,
    Resolved(Seq<Seq<char>>),
    Unresolved,
    Failed(Seq<char>),
}

impl View for Reply {
    type V = ReplyView;

    open spec fn view(&self) -> ReplyView {
        match self {
            Reply::Done => ReplyView::Done,
            Reply::Threads(threads) => ReplyView::Threads(threads@),
            Reply::Frame(ip) => ReplyView::Frame(*ip),
            Reply::StackEnd => ReplyView::StackEnd,
            Reply::Resolved(frames) => ReplyView::Resolved(texts(frames@)),
            Reply::Unresolved => ReplyView::Unresolved,
            Reply::Failed(reason) => ReplyView::Failed(reason@),
        }
    }
}

/// How a finished pass ended: the stacks of all threads, or the failure
/// that ended it.
pub type Outcome = Result<Seq<StackView>, ErrorView>;

/// The state of a pass.
pub struct PassView {
    /// The process under inspection.
    pub pid: usize,
    /// Whether inlined frames are asked of the resolver.
    pub include_inlined: bool,
    /// Which reply the pass is waiting for.
    pub phase: Phase,
    /// The threads as listed; empty until then.
    pub threads: Seq<ThreadSnapshot>,
    /// The index in `threads` of the thread in hand.
    pub cursor: nat,
    /// The stacks of the threads that are done.
    pub stacks: Seq<StackView>,
    /// The frames found so far for the thread in hand.
    pub frames: Seq<Seq<char>>,
    /// The instruction pointer that is being resolved.
    pub ip: u64,
    /// The failure that ended the pass, once there is one.
    pub failure: Option<ErrorView>,
}

impl PassView {
    /// A pass that has not begun.
    pub open spec fn initial(pid: usize, include_inlined: bool) -> PassView {
        PassView {
            pid,
            include_inlined,
            phase: Phase::Attaching,
            threads: Seq::empty(),
            cursor: 0,
            stacks: Seq::empty(),
            frames: Seq::empty(),
            ip: 0,
            failure: None,
        }
    }

    /// Whether the pass is busy with one thread.
    pub open spec fn thread_in_hand(self) -> bool {
        self.phase == Phase::LockingThread || self.phase == Phase::Unwinding || self.phase
            == Phase::Resolving || self.phase == Phase::UnlockingThread
    }

    /// Whether the pass is winding down or over.
    pub open spec fn leaving(self) -> bool {
        self.phase == Phase::UnlockingProcess || self.phase == Phase::Detaching || self.phase
            == Phase::Finished
    }

    /// What holds of every state that a pass can reach.
    pub open spec fn wf(self) -> bool {
        &&& self.cursor <= self.threads.len()
        &&& self.thread_in_hand() ==> self.cursor < self.threads.len()
        &&& !self.thread_in_hand() ==> self.frames.len() == 0
        &&& self.phase == Phase::LockingThread ==> self.frames.len() == 0
        &&& (self.phase == Phase::Attaching || self.phase == Phase::LockingProcess || self.phase
            == Phase::ListingThreads) ==> self.threads.len() == 0 && self.failure is None
        &&& self.failure is None ==> {
            &&& self.stacks.len() == self.cursor
            &&& forall|i: int|
                0 <= i < self.stacks.len() ==> (#[trigger] self.stacks[i]).thread_id
                    == self.threads[i].thread_id && self.stacks[i].is_active
                    == self.threads[i].is_active
            &&& self.leaving() ==> self.cursor == self.threads.len()
        }
        &&& self.failure matches Some(error) ==> {
            &&& self.stacks.len() == 0
            &&& self.frames.len() == 0
            &&& self.phase == Phase::UnlockingThread || self.leaving()
            &&& !(error is ProcessAccess)
        }
    }

    /// The thread in hand.
    pub open spec fn current(self) -> ThreadSnapshot
        recommends
            self.cursor < self.threads.len(),
    {
        self.threads[self.cursor as int]
    }

    /// What the driver is asked to do in this state.
    pub open spec fn request(self) -> Request {
        match self.phase {
            Phase::Attaching => Request::Attach { pid: self.pid },
            Phase::LockingProcess => Request::LockProcess,
            Phase::ListingThreads => Request::ListThreads,
            Phase::LockingThread => Request::LockThread { thread_id: self.current().thread_id },
            Phase::Unwinding => Request::Unwind { thread_id: self.current().thread_id },
            Phase::Resolving => Request::Symbolicate {
                ip: self.ip,
                include_inlined: self.include_inlined,
            },
            Phase::UnlockingThread => Request::UnlockThread {
                thread_id: self.current().thread_id,
            },
            Phase::UnlockingProcess => Request::UnlockProcess,
            Phase::Detaching => Request::Detach,
            Phase::Finished => Request::Finish,
        }
    }

    /// The same pass in another phase.
    pub open spec fn enter(self, phase: Phase) -> PassView {
        PassView { phase, ..self }
    }

    /// The pass after `error` ended it: whatever was collected is dropped,
    /// and what is held gets released from `phase` on.
    pub open spec fn fail(self, error: ErrorView, phase: Phase) -> PassView {
        PassView {
            phase,
            stacks: Seq::empty(),
            frames: Seq::empty(),
            failure: Some(error),
            ..self
        }
    }

    /// The pass after the thread in hand is done: its stack is kept, and the
    /// next thread is taken up, if there is one.
    pub open spec fn close_thread(self) -> PassView {
        let stack = StackView {
            thread_id: self.current().thread_id,
            is_active: self.current().is_active,
            frames: self.frames,
        };
        PassView {
            phase: if self.cursor + 1 < self.threads.len() {
                Phase::LockingThread
            } else {
                Phase::UnlockingProcess
            },
            cursor: self.cursor + 1,
            stacks: self.stacks.push(stack),
            frames: Seq::empty(),
            ..self
        }
    }

    /// The state after the driver answered the pending request with
    /// `reply`. A reply that is no answer to the request changes nothing.
    ///
    /// The first failure ends the pass. Where the process cannot be
    /// attached to, stopped or listed, or a thread cannot be locked, that is
    /// a failure to attach; a walk that fails is a failure to unwind, and a
    /// resolver that fails is a failure to resolve. Releases cannot fail.
    pub open spec fn step(self, reply: ReplyView) -> PassView {
        match (self.phase, reply) {
            (Phase::Attaching, ReplyView::Done) => self.enter(Phase::LockingProcess),
            (Phase::Attaching, ReplyView::Failed(reason)) => self.fail(
                ErrorView::ProcessAttach(reason),
                Phase::Finished,
            ),
            (Phase::LockingProcess, ReplyView::Done) => self.enter(Phase::ListingThreads),
            (Phase::LockingProcess, ReplyView::Failed(reason)) => self.fail(
                ErrorView::ProcessAttach(reason),
                Phase::Detaching,
            ),
            (Phase::ListingThreads, ReplyView::Threads(threads)) => PassView {
                phase: if threads.len() == 0 {
                    Phase::UnlockingProcess
                } else {
                    Phase::LockingThread
                },
                threads,
                ..self
            },
            (Phase::ListingThreads, ReplyView::Failed(reason)) => self.fail(
                ErrorView::ProcessAttach(reason),
                Phase::UnlockingProcess,
            ),
            (Phase::LockingThread, ReplyView::Done) => self.enter(Phase::Unwinding),
            (Phase::LockingThread, ReplyView::Failed(reason)) => self.fail(
                ErrorView::ProcessAttach(reason),
                Phase::UnlockingProcess,
            ),
            (Phase::Unwinding, ReplyView::Frame(ip)) => PassView {
                phase: Phase::Resolving,
                ip,
                ..self
            },
            (Phase::Unwinding, ReplyView::StackEnd) => self.enter(Phase::UnlockingThread),
            (Phase::Unwinding, ReplyView::Failed(reason)) => self.fail(
                ErrorView::UnwindStep(reason),
                Phase::UnlockingThread,
            ),
            (Phase::Resolving, ReplyView::Resolved(frames)) => PassView {
                phase: Phase::Unwinding,
                frames: self.frames + frames,
                ..self
            },
            (Phase::Resolving, ReplyView::Unresolved) => PassView {
                phase: Phase::Unwinding,
                frames: self.frames.push(address_text(self.ip)),
                ..self
            },
            (Phase::Resolving, ReplyView::Failed(reason)) => self.fail(
                ErrorView::SymbolResolution(reason),
                Phase::UnlockingThread,
            ),
            (Phase::UnlockingThread, ReplyView::Done) => if self.failure is Some {
                self.enter(Phase::UnlockingProcess)
            } else {
                self.close_thread()
            },
            (Phase::UnlockingProcess, ReplyView::Done) => self.enter(Phase::Detaching),
            (Phase::Detaching, ReplyView::Done) => self.enter(Phase::Finished),
            _ => self,
        }
    }

    /// How the pass ended, once it has.
    pub open spec fn outcome(self) -> Option<Outcome> {
        if self.phase == Phase::Finished {
            Some(
                match self.failure {
                    Some(error) => Err(error),
                    None => Ok(self.stacks),
                },
            )
        } else {
            None
        }
    }
}

/// Whatever the reply, a step leads from a reachable state to a reachable
/// state.
pub proof fn lemma_step_keeps_wf(s: PassView, reply: ReplyView)
    requires
        s.wf(),
    ensures
        s.step(reply).wf(),
{
}

/// A stack inspection pass over one process.
pub struct Pass {
    pid: usize,
    include_inlined: bool,
    phase: Phase,
    threads: Vec<ThreadSnapshot>,
    cursor: usize,
    stacks: Vec<ThreadStack>,
    frames: Vec<String>,
    ip: u64,
    failure: Option<InspectError>,
}

impl View for Pass {
    type V = PassView;

    closed spec fn view(&self) -> PassView {
        PassView {
            pid: self.pid,
            include_inlined: self.include_inlined,
            phase: self.phase,
            threads: self.threads@,
            cursor: self.cursor as nat,
            stacks: stack_views(self.stacks@),
            frames: texts(self.frames@),
            ip: self.ip,
            failure: match self.failure {
                Some(error) => Some(error@),
                None => None,
            },
        }
    }
}

impl Pass {
    #[verifier::type_invariant]
    spec fn reachable(&self) -> bool {
        self@.wf()
    }

    /// A pass over the process `pid` that has not begun. With
    /// `include_inlined` the resolver is asked for inlined frames too.
    pub fn begin(pid: usize, include_inlined: bool) -> (pass: Pass)
        ensures
            pass@ == PassView::initial(pid, include_inlined),
    {
        let pass = Pass {
            pid,
            include_inlined,
            phase: Phase::Attaching,
            threads: Vec::new(),
            cursor: 0,
            stacks: Vec::new(),
            frames: Vec::new(),
            ip: 0,
            failure: None,
        };
        assert(pass@.stacks =~= Seq::empty());
        assert(pass@.frames =~= Seq::empty());
        pass
    }

    /// What the driver is asked to do now.
    pub fn pending(&self) -> (request: Request)
        ensures
            request == self@.request(),
    {
        proof {
            use_type_invariant(self);
        }
        match self.phase {
            Phase::Attaching => Request::Attach { pid: self.pid },
            Phase::LockingProcess => Request::LockProcess,
            Phase::ListingThreads => Request::ListThreads,
            Phase::LockingThread => Request::LockThread {
                thread_id: self.threads[self.cursor].thread_id,
            },
            Phase::Unwinding => Request::Unwind { thread_id: self.threads[self.cursor].thread_id },
            Phase::Resolving => Request::Symbolicate {
                ip: self.ip,
                include_inlined: self.include_inlined,
            },
            Phase::UnlockingThread => Request::UnlockThread {
                thread_id: self.threads[self.cursor].thread_id,
            },
            Phase::UnlockingProcess => Request::UnlockProcess,
            Phase::Detaching => Request::Detach,
            Phase::Finished => Request::Finish,
        }
    }

    /// Where the pass stands.
    pub fn phase(&self) -> (phase: Phase)
        ensures
            phase == self@.phase,
    {
        self.phase
    }

    /// The threads of the process as they were listed; none before the
    /// listing.
    pub fn listed_threads(&self) -> (threads: &Vec<ThreadSnapshot>)
        ensures
            threads@ == self@.threads,
    {
        &self.threads
    }

    /// Whether the pass is over.
    pub fn is_finished(&self) -> (done: bool)
        ensures
            done == (self@.phase == Phase::Finished),
            done == self@.outcome().is_some(),
    {
        match self.phase {
            Phase::Finished => true,
            _ => false,
        }
    }

    /// Takes the driver's reply to the pending request and names the next
    /// request. A reply that is no answer to the pending request is
    /// dropped, and the same request is named again.
    pub fn advance(self, reply: Reply) -> (next: (Pass, Request))
        ensures
            next.0@ == self@.step(reply@),
            next.1 == next.0@.request(),
    {
        proof {
            use_type_invariant(&self);
            lemma_step_keeps_wf(self@, reply@);
        }
        let ghost before = self@;
        let Pass {
            pid,
            include_inlined,
            mut phase,
            mut threads,
            mut cursor,
            mut stacks,
            mut frames,
            mut ip,
            mut failure,
        } = self;
        match reply {
            Reply::Done => match phase {
                Phase::Attaching => {
                    phase = Phase::LockingProcess;
                },
                Phase::LockingProcess => {
                    phase = Phase::ListingThreads;
                },
                Phase::LockingThread => {
                    phase = Phase::Unwinding;
                },
                Phase::UnlockingThread => {
                    if failure.is_some() {
                        phase = Phase::UnlockingProcess;
                    } else {
                        let thread = threads[cursor];
                        let ghost kept = stack_views(stacks@);
                        stacks.push(
                            ThreadStack {
                                thread_id: thread.thread_id,
                                is_active: thread.is_active,
                                frames,
                            },
                        );
                        assert(stack_views(stacks@) =~= kept.push(stacks@.last()@));
                        frames = Vec::new();
                        assert(texts(frames@) =~= Seq::empty());
                        assert(cursor < threads.len());
                        cursor = cursor + 1;
                        phase = if cursor < threads.len() {
                            Phase::LockingThread
                        } else {
                            Phase::UnlockingProcess
                        };
                    }
                },
                Phase::UnlockingProcess => {
                    phase = Phase::Detaching;
                },
                Phase::Detaching => {
                    phase = Phase::Finished;
                },
                _ => {},
            },
            Reply::Threads(listed) => match phase {
                Phase::ListingThreads => {
                    phase = if listed.len() == 0 {
                        Phase::UnlockingProcess
                    } else {
                        Phase::LockingThread
                    };
                    threads = listed;
                },
                _ => {},
            },
            Reply::Frame(next_ip) => match phase {
                Phase::Unwinding => {
                    ip = next_ip;
                    phase = Phase::Resolving;
                },
                _ => {},
            },
            Reply::StackEnd => match phase {
                Phase::Unwinding => {
                    phase = Phase::UnlockingThread;
                },
                _ => {},
            },
            Reply::Resolved(found) => match phase {
                Phase::Resolving => {
                    let mut found = found;
                    let ghost kept = texts(frames@);
                    let ghost added = texts(found@);
                    frames.append(&mut found);
                    assert(texts(frames@) =~= kept + added);
                    phase = Phase::Unwinding;
                },
                _ => {},
            },
            Reply::Unresolved => match phase {
                Phase::Resolving => {
                    let ghost kept = texts(frames@);
                    frames.push(address_only(ip));
                    assert(texts(frames@) =~= kept.push(address_text(ip)));
                    phase = Phase::Unwinding;
                },
                _ => {},
            },
            Reply::Failed(reason) => {
                let ended = match phase {
                    Phase::Attaching => Some((InspectError::ProcessAttach(reason), Phase::Finished)),
                    Phase::LockingProcess => Some(
                        (InspectError::ProcessAttach(reason), Phase::Detaching),
                    ),
                    Phase::ListingThreads => Some(
                        (InspectError::ProcessAttach(reason), Phase::UnlockingProcess),
                    ),
                    Phase::LockingThread => Some(
                        (InspectError::ProcessAttach(reason), Phase::UnlockingProcess),
                    ),
                    Phase::Unwinding => Some(
                        (InspectError::UnwindStep(reason), Phase::UnlockingThread),
                    ),
                    Phase::Resolving => Some(
                        (InspectError::SymbolResolution(reason), Phase::UnlockingThread),
                    ),
                    _ => None,
                };
                match ended {
                    Some((error, release_from)) => {
                        failure = Some(error);
                        phase = release_from;
                        stacks = Vec::new();
                        frames = Vec::new();
                        assert(stack_views(stacks@) =~= Seq::empty());
                        assert(texts(frames@) =~= Seq::empty());
                    },
                    None => {},
                }
            },
        }
        let pass = Pass {
            pid,
            include_inlined,
            phase,
            threads,
            cursor,
            stacks,
            frames,
            ip,
            failure,
        };
        assert(pass@ == before.step(reply@));
        let request = pass.pending();
        (pass, request)
    }

    /// How the pass ended: the stacks of all threads in the order in which
    /// the threads were listed, or the failure that ended it. `None` while
    /// the pass is not over.
    pub fn outcome(self) -> (result: Option<Result<Vec<ThreadStack>, InspectError>>)
        ensures
            match result {
                Some(Ok(stacks)) => self@.outcome() == Some(Ok::<_, ErrorView>(stack_views(stacks@))),
                Some(Err(error)) => self@.outcome() == Some(Err::<Seq<StackView>, _>(error@)),
                None => self@.outcome().is_none(),
            },
    {
        match self.phase {
            Phase::Finished => match self.failure {
                Some(error) => Some(Err(error)),
                None => Some(Ok(self.stacks)),
            },
            _ => None,
        }
    }
}

} // verus!
