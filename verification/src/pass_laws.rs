//! What holds of every stack inspection pass, whatever the driver replies.

use crate::error::ErrorView;
use crate::pass::{PassView, Phase, ReplyView, Request};
use crate::thread::ThreadSnapshot;
use vstd::prelude::*;

verus! {

/// What a driver holds of the target process.
pub struct Held {
    /// The attachment to the process.
    pub attached: bool,
    /// The lock that keeps the process stopped.
    pub process_locked: bool,
    /// The lock on one thread, by the thread's identifier.
    pub thread_locked: Option<i64>,
}

impl Held {
    /// Holding nothing.
    pub open spec fn nothing() -> Held {
        Held { attached: false, process_locked: false, thread_locked: None }
    }

    /// What the driver holds once it has carried out `request` and answered
    /// `reply`: an acquisition that succeeded adds to what is held, a
    /// release takes away from it, and nothing else changes it.
    pub open spec fn after(self, request: Request, reply: ReplyView) -> Held {
        match (request, reply) {
            (Request::Attach { .. }, ReplyView::Done) => Held { attached: true, ..self },
            (Request::LockProcess, ReplyView::Done) => Held { process_locked: true, ..self },
            (Request::LockThread { thread_id }, ReplyView::Done) => Held {
                thread_locked: Some(thread_id),
                ..self
            },
            (Request::UnlockThread { .. }, ReplyView::Done) => Held { thread_locked: None, ..self },
            (Request::UnlockProcess, ReplyView::Done) => Held { process_locked: false, ..self },
            (Request::Detach, ReplyView::Done) => Held { attached: false, ..self },
            _ => self,
        }
    }

    /// Whether `request` is in order for a driver that holds `self`. The
    /// attachment encloses the process lock, and the process lock encloses
    /// the thread lock: each is taken only inside the one before and
    /// released only when the one after is gone. Threads are listed under
    /// the process lock, stacks are walked and resolved under the lock of
    /// their thread, and a pass finishes empty-handed.
    pub open spec fn admits(self, request: Request) -> bool {
        match request {
            Request::Attach { .. } => self == Held::nothing(),
            Request::LockProcess => self.attached && !self.process_locked
                && self.thread_locked is None,
            Request::ListThreads => self.attached && self.process_locked
                && self.thread_locked is None,
            Request::LockThread { .. } => self.attached && self.process_locked
                && self.thread_locked is None,
            Request::Unwind { thread_id } => self.attached && self.process_locked
                && self.thread_locked == Some(thread_id),
            Request::Symbolicate { .. } => self.attached && self.process_locked
                && self.thread_locked is Some,
            Request::UnlockThread { thread_id } => self.attached && self.process_locked
                && self.thread_locked == Some(thread_id),
            Request::UnlockProcess => self.attached && self.process_locked
                && self.thread_locked is None,
            Request::Detach => self.attached && !self.process_locked
                && self.thread_locked is None,
            Request::Finish => self == Held::nothing(),
        }
    }
}

impl PassView {
    /// What the driver of a pass in this state holds.
    pub open spec fn held(self) -> Held {
        match self.phase {
            Phase::Attaching | Phase::Finished => Held::nothing(),
            Phase::LockingProcess | Phase::Detaching => Held {
                attached: true,
                process_locked: false,
                thread_locked: None,
            },
            Phase::ListingThreads | Phase::LockingThread | Phase::UnlockingProcess => Held {
                attached: true,
                process_locked: true,
                thread_locked: None,
            },
            Phase::Unwinding | Phase::Resolving | Phase::UnlockingThread => Held {
                attached: true,
                process_locked: true,
                thread_locked: Some(self.current().thread_id),
            },
        }
    }

    /// The state after the driver answered with `replies`, one after the
    /// other.
    pub open spec fn run(self, replies: Seq<ReplyView>) -> PassView
        decreases replies.len(),
    {
        if replies.len() == 0 {
            self
        } else {
            self.run(replies.drop_last()).step(replies.last())
        }
    }

    /// What the driver holds after it answered with `replies`, if it held
    /// `held` before: the account that the driver's own actions give,
    /// request by request.
    pub open spec fn holding(self, held: Held, replies: Seq<ReplyView>) -> Held
        decreases replies.len(),
    {
        if replies.len() == 0 {
            held
        } else {
            self.holding(held, replies.drop_last()).after(
                self.run(replies.drop_last()).request(),
                replies.last(),
            )
        }
    }
}

/// Every request is in order for what the driver holds, and every step
/// accounts for what the driver's action did to it.
pub proof fn lemma_step_respects_locks(s: PassView, reply: ReplyView)
    requires
        s.wf(),
    ensures
        s.held().admits(s.request()),
        s.step(reply).held() == s.held().after(s.request(), reply),
{
}

/// Every state that replies lead to from the start can be reached.
pub proof fn lemma_run_keeps_wf(s: PassView, replies: Seq<ReplyView>)
    requires
        s.wf(),
    ensures
        s.run(replies).wf(),
    decreases replies.len(),
{
    if replies.len() > 0 {
        lemma_run_keeps_wf(s, replies.drop_last());
        crate::pass::lemma_step_keeps_wf(s.run(replies.drop_last()), replies.last());
    }
}

/// Whatever the driver replies, and however long the pass goes on, each
/// request is in order for what the driver holds by then: locks are taken
/// and released strictly nested, and a finished pass holds nothing.
pub proof fn lemma_pass_respects_locks(
    pid: usize,
    include_inlined: bool,
    replies: Seq<ReplyView>,
)
    ensures
        ({
            let start = PassView::initial(pid, include_inlined);
            let now = start.run(replies);
            let held = start.holding(Held::nothing(), replies);
            &&& now.wf()
            &&& held == now.held()
            &&& held.admits(now.request())
            &&& now.phase == Phase::Finished ==> held == Held::nothing()
        }),
    decreases replies.len(),
{
    let start = PassView::initial(pid, include_inlined);
    lemma_run_keeps_wf(start, replies);
    if replies.len() > 0 {
        lemma_pass_respects_locks(pid, include_inlined, replies.drop_last());
        lemma_step_respects_locks(start.run(replies.drop_last()), replies.last());
    }
    lemma_step_respects_locks(start.run(replies), ReplyView::Done);
}

/// A pass whose attach fails is over at once. Its outcome is the attach
/// failure; the attach was the only request made, so no lock was taken;
/// and the pass holds no thread and no frame.
pub proof fn lemma_failed_attach_ends_the_pass(
    pid: usize,
    include_inlined: bool,
    reason: Seq<char>,
)
    ensures
        ({
            let start = PassView::initial(pid, include_inlined);
            let end = start.step(ReplyView::Failed(reason));
            &&& start.request() == Request::Attach { pid }
            &&& end.request() == Request::Finish
            &&& end.outcome() == Some(Err::<Seq<crate::thread::StackView>, _>(ErrorView::ProcessAttach(reason)))
            &&& end.held() == Held::nothing()
            &&& end.threads.len() == 0
            &&& end.stacks.len() == 0
            &&& end.frames.len() == 0
        }),
{
}

/// A finished pass stays as it is, whatever is replied to it.
pub proof fn lemma_finished_is_final(s: PassView, replies: Seq<ReplyView>)
    requires
        s.phase == Phase::Finished,
    ensures
        s.run(replies) == s,
    decreases replies.len(),
{
    if replies.len() > 0 {
        lemma_finished_is_final(s, replies.drop_last());
    }
}

/// Whether the threads have been listed.
pub open spec fn threads_listed(s: PassView) -> bool {
    s.phase != Phase::Attaching && s.phase != Phase::LockingProcess && s.phase
        != Phase::ListingThreads
}

/// Once listed, the threads stay listed and the same, step by step.
pub proof fn lemma_step_keeps_threads(s: PassView, reply: ReplyView)
    requires
        threads_listed(s),
    ensures
        threads_listed(s.step(reply)),
        s.step(reply).threads == s.threads,
{
}

/// The threads that were listed under the process lock are the threads of
/// the pass from then on: no reply adds, removes or changes one.
pub proof fn lemma_listed_threads_stay(
    s: PassView,
    listed: Seq<ThreadSnapshot>,
    later: Seq<ReplyView>,
)
    requires
        s.phase == Phase::ListingThreads,
    ensures
        threads_listed(s.step(ReplyView::Threads(listed)).run(later)),
        s.step(ReplyView::Threads(listed)).run(later).threads == listed,
    decreases later.len(),
{
    let from = s.step(ReplyView::Threads(listed));
    if later.len() > 0 {
        lemma_listed_threads_stay(s, listed, later.drop_last());
        lemma_step_keeps_threads(from.run(later.drop_last()), later.last());
    }
}

/// A failure, once met, is the outcome: no later reply replaces it, and
/// nothing is collected after it.
pub proof fn lemma_failure_is_kept(s: PassView, later: Seq<ReplyView>)
    requires
        s.wf(),
        s.failure is Some,
    ensures
        s.run(later).failure == s.failure,
        s.run(later).stacks.len() == 0,
        s.run(later).frames.len() == 0,
        s.run(later).outcome() is Some ==> s.run(later).outcome() == Some(
            Err::<Seq<crate::thread::StackView>, _>(s.failure.unwrap()),
        ),
    decreases later.len(),
{
    lemma_run_keeps_wf(s, later);
    if later.len() > 0 {
        lemma_failure_is_kept(s, later.drop_last());
        lemma_run_keeps_wf(s, later.drop_last());
    }
}

/// A corrupt stack ends the pass, wherever in the walk it shows: the
/// failure to unwind is the outcome, and no frame of this thread, nor the
/// stack of any thread before it, is kept. The locks are released on the
/// way out, after which the pass is over.
pub proof fn lemma_corrupt_stack_ends_the_pass(
    s: PassView,
    reason: Seq<char>,
    later: Seq<ReplyView>,
)
    requires
        s.wf(),
        s.phase == Phase::Unwinding,
    ensures
        ({
            let failed = s.step(ReplyView::Failed(reason));
            let end = failed.run(later);
            &&& failed.request() == Request::UnlockThread { thread_id: s.current().thread_id }
            &&& failed.step(ReplyView::Done).request() == Request::UnlockProcess
            &&& failed.step(ReplyView::Done).step(ReplyView::Done).request() == Request::Detach
            &&& failed.step(ReplyView::Done).step(ReplyView::Done).step(ReplyView::Done).outcome()
                == Some(Err::<Seq<crate::thread::StackView>, _>(ErrorView::UnwindStep(reason)))
            &&& end.failure == Some(ErrorView::UnwindStep(reason))
            &&& end.stacks.len() == 0
            &&& end.frames.len() == 0
            &&& end.outcome() is Some ==> end.outcome() == Some(
                Err::<Seq<crate::thread::StackView>, _>(ErrorView::UnwindStep(reason)),
            )
        }),
{
    let failed = s.step(ReplyView::Failed(reason));
    crate::pass::lemma_step_keeps_wf(s, ReplyView::Failed(reason));
    lemma_failure_is_kept(failed, later);
}

/// A resolver that fails ends the pass in the same way, with the failure
/// to resolve as the outcome.
pub proof fn lemma_failed_resolution_ends_the_pass(
    s: PassView,
    reason: Seq<char>,
    later: Seq<ReplyView>,
)
    requires
        s.wf(),
        s.phase == Phase::Resolving,
    ensures
        ({
            let failed = s.step(ReplyView::Failed(reason));
            let end = failed.run(later);
            &&& failed.request() == Request::UnlockThread { thread_id: s.current().thread_id }
            &&& failed.step(ReplyView::Done).step(ReplyView::Done).step(ReplyView::Done).outcome()
                == Some(
                Err::<Seq<crate::thread::StackView>, _>(ErrorView::SymbolResolution(reason)),
            )
            &&& end.failure == Some(ErrorView::SymbolResolution(reason))
            &&& end.stacks.len() == 0
            &&& end.frames.len() == 0
            &&& end.outcome() is Some ==> end.outcome() == Some(
                Err::<Seq<crate::thread::StackView>, _>(ErrorView::SymbolResolution(reason)),
            )
        }),
{
    let failed = s.step(ReplyView::Failed(reason));
    crate::pass::lemma_step_keeps_wf(s, ReplyView::Failed(reason));
    lemma_failure_is_kept(failed, later);
}

/// Once a pass has failed, three acknowledged releases at most end it:
/// the thread lock, the process lock and the attachment, as far as each is
/// held.
pub proof fn lemma_failed_pass_winds_down(s: PassView)
    requires
        s.wf(),
        s.failure is Some,
    ensures
        s.step(ReplyView::Done).step(ReplyView::Done).step(ReplyView::Done).phase
            == Phase::Finished,
        s.step(ReplyView::Done).step(ReplyView::Done).step(ReplyView::Done).held()
            == Held::nothing(),
{
}

/// A pass yields all or nothing. A good outcome has one stack for each
/// listed thread, in the order of the listing, under the thread's own
/// identifier and activity. A failure comes alone, with nothing of what was
/// collected before it, and it is never a failure to read the memory map.
pub proof fn lemma_outcome_is_whole(s: PassView)
    requires
        s.wf(),
    ensures
        match s.outcome() {
            Some(Ok(stacks)) => {
                &&& s.failure is None
                &&& stacks.len() == s.threads.len()
                &&& forall|i: int|
                    0 <= i < stacks.len() ==> (#[trigger] stacks[i]).thread_id
                        == s.threads[i].thread_id && stacks[i].is_active == s.threads[i].is_active
            },
            Some(Err(error)) => {
                &&& s.failure == Some(error)
                &&& s.stacks.len() == 0
                &&& s.frames.len() == 0
                &&& !(error is ProcessAccess)
            },
            None => s.phase != Phase::Finished,
        },
{
}

} // verus!
