//! What a stack inspection pass yields against a target that does not fail.

use crate::frame::address_text;
use crate::pass::{PassView, Phase, ReplyView};
use crate::thread::{StackView, ThreadSnapshot};
use vstd::prelude::*;

verus! {

/// One step up a stack: the instruction pointer found there, and the frames
/// it resolves to, innermost first; `None` where no debug information
/// covers it.
pub struct UnwindStep {
    pub ip: u64,
    pub resolved: Option<Seq<Seq<char>>>,
}

impl UnwindStep {
    /// The frames that the step contributes to its stack.
    pub open spec fn frames(self) -> Seq<Seq<char>> {
        match self.resolved {
            Some(frames) => frames,
            None => seq![address_text(self.ip)],
        }
    }

    /// What a driver replies when asked to resolve the step.
    pub open spec fn resolution(self) -> ReplyView {
        match self.resolved {
            Some(frames) => ReplyView::Resolved(frames),
            None => ReplyView::Unresolved,
        }
    }
}

/// The frames of a stack: those of its steps, innermost step first.
pub open spec fn stack_frames(steps: Seq<UnwindStep>) -> Seq<Seq<char>>
    decreases steps.len(),
{
    if steps.len() == 0 {
        Seq::empty()
    } else {
        stack_frames(steps.drop_last()) + steps.last().frames()
    }
}

/// What a driver replies while it walks a stack: for each step the
/// instruction pointer, then its resolution.
pub open spec fn walk_replies(steps: Seq<UnwindStep>) -> Seq<ReplyView>
    decreases steps.len(),
{
    if steps.len() == 0 {
        Seq::empty()
    } else {
        walk_replies(steps.drop_last()).push(ReplyView::Frame(steps.last().ip)).push(
            steps.last().resolution(),
        )
    }
}

/// What a driver replies for one thread: the lock is granted, the stack is
/// walked to its end, the lock is released.
pub open spec fn thread_replies(steps: Seq<UnwindStep>) -> Seq<ReplyView> {
    (seq![ReplyView::Done] + walk_replies(steps)).push(ReplyView::StackEnd).push(ReplyView::Done)
}

/// What a driver replies for the threads one after the other.
pub open spec fn threads_replies(stacks: Seq<Seq<UnwindStep>>) -> Seq<ReplyView>
    decreases stacks.len(),
{
    if stacks.len() == 0 {
        Seq::empty()
    } else {
        threads_replies(stacks.drop_last()) + thread_replies(stacks.last())
    }
}

/// What a driver replies over a whole pass in which nothing fails: the
/// process is attached and stopped, its threads are listed, each stack is
/// walked, and the process is let go.
pub open spec fn smooth_replies(
    threads: Seq<ThreadSnapshot>,
    stacks: Seq<Seq<UnwindStep>>,
) -> Seq<ReplyView> {
    (seq![ReplyView::Done, ReplyView::Done, ReplyView::Threads(threads)] + threads_replies(
        stacks,
    )).push(ReplyView::Done).push(ReplyView::Done)
}

/// The stacks of the threads: one for each thread, in the order of the
/// listing, with the frames of the thread's stack.
pub open spec fn resolved_stacks(
    threads: Seq<ThreadSnapshot>,
    stacks: Seq<Seq<UnwindStep>>,
) -> Seq<StackView> {
    Seq::new(
        threads.len(),
        |i: int|
            StackView {
                thread_id: threads[i].thread_id,
                is_active: threads[i].is_active,
                frames: stack_frames(stacks[i]),
            },
    )
}

/// Whether `after` is `before` but for the fields that a walk changes.
spec fn same_pass(before: PassView, after: PassView) -> bool {
    &&& after.pid == before.pid
    &&& after.include_inlined == before.include_inlined
    &&& after.threads == before.threads
    &&& after.failure == before.failure
}

/// Answering one reply more is one step more.
pub proof fn lemma_run_push(s: PassView, replies: Seq<ReplyView>, reply: ReplyView)
    ensures
        s.run(replies.push(reply)) == s.run(replies).step(reply),
{
    assert(replies.push(reply).drop_last() == replies);
}

/// Answering two lists of replies in a row is answering their
/// concatenation.
pub proof fn lemma_run_concat(s: PassView, first: Seq<ReplyView>, second: Seq<ReplyView>)
    ensures
        s.run(first + second) == s.run(first).run(second),
    decreases second.len(),
{
    if second.len() == 0 {
        assert(first + second == first);
    } else {
        assert((first + second).drop_last() == first + second.drop_last());
        lemma_run_concat(s, first, second.drop_last());
    }
}

/// Walking a stack adds its frames, in order, to those of the thread in
/// hand.
proof fn lemma_walk(s: PassView, steps: Seq<UnwindStep>)
    requires
        s.phase == Phase::Unwinding,
    ensures
        ({
            let end = s.run(walk_replies(steps));
            &&& same_pass(s, end)
            &&& end.phase == Phase::Unwinding
            &&& end.cursor == s.cursor
            &&& end.stacks == s.stacks
            &&& end.frames == s.frames + stack_frames(steps)
        }),
    decreases steps.len(),
{
    if steps.len() == 0 {
        assert(s.frames + stack_frames(steps) == s.frames);
    } else {
        let earlier = walk_replies(steps.drop_last());
        let last = steps.last();
        lemma_walk(s, steps.drop_last());
        lemma_run_push(s, earlier, ReplyView::Frame(last.ip));
        lemma_run_push(s, earlier.push(ReplyView::Frame(last.ip)), last.resolution());
        let mid = s.run(earlier);
        let end = mid.step(ReplyView::Frame(last.ip)).step(last.resolution());
        assert(end.frames == s.frames + stack_frames(steps)) by {
            assert(end.frames == mid.frames + last.frames());
            assert(mid.frames + last.frames() == s.frames + (stack_frames(steps.drop_last())
                + last.frames()));
        }
    }
}

/// Going through one thread keeps its stack and turns to the next.
proof fn lemma_thread(s: PassView, steps: Seq<UnwindStep>)
    requires
        s.phase == Phase::LockingThread,
        s.failure is None,
        s.cursor < s.threads.len(),
        s.frames == Seq::<Seq<char>>::empty(),
    ensures
        ({
            let end = s.run(thread_replies(steps));
            &&& same_pass(s, end)
            &&& end.phase == (if s.cursor + 1 < s.threads.len() {
                Phase::LockingThread
            } else {
                Phase::UnlockingProcess
            })
            &&& end.cursor == s.cursor + 1
            &&& end.stacks == s.stacks.push(
                StackView {
                    thread_id: s.current().thread_id,
                    is_active: s.current().is_active,
                    frames: stack_frames(steps),
                },
            )
            &&& end.frames == Seq::<Seq<char>>::empty()
        }),
{
    let walk = walk_replies(steps);
    let locked = s.step(ReplyView::Done);
    assert(s.run(seq![ReplyView::Done]) == locked) by {
        assert(seq![ReplyView::Done] == Seq::<ReplyView>::empty().push(ReplyView::Done));
        lemma_run_push(s, Seq::empty(), ReplyView::Done);
    }
    lemma_run_concat(s, seq![ReplyView::Done], walk);
    lemma_walk(locked, steps);
    lemma_run_push(s, seq![ReplyView::Done] + walk, ReplyView::StackEnd);
    lemma_run_push(
        s,
        (seq![ReplyView::Done] + walk).push(ReplyView::StackEnd),
        ReplyView::Done,
    );
    let walked = locked.run(walk);
    assert(walked.frames == stack_frames(steps)) by {
        assert(locked.frames + stack_frames(steps) == stack_frames(steps));
    }
}

/// Going through the first `count` threads keeps their stacks, in order.
proof fn lemma_threads(s: PassView, stacks: Seq<Seq<UnwindStep>>, count: nat)
    requires
        s.phase == (if s.threads.len() > 0 {
            Phase::LockingThread
        } else {
            Phase::UnlockingProcess
        }),
        s.failure is None,
        s.cursor == 0,
        s.stacks == Seq::<StackView>::empty(),
        s.frames == Seq::<Seq<char>>::empty(),
        stacks.len() == s.threads.len(),
        count <= stacks.len(),
    ensures
        ({
            let end = s.run(threads_replies(stacks.take(count as int)));
            &&& same_pass(s, end)
            &&& end.phase == (if count < s.threads.len() {
                Phase::LockingThread
            } else {
                Phase::UnlockingProcess
            })
            &&& end.cursor == count
            &&& end.stacks == resolved_stacks(s.threads, stacks).take(count as int)
            &&& end.frames == Seq::<Seq<char>>::empty()
        }),
    decreases count,
{
    let all = resolved_stacks(s.threads, stacks);
    if count == 0 {
        assert(stacks.take(0).len() == 0);
        assert(all.take(0) == Seq::<StackView>::empty());
    } else {
        let done = (count - 1) as nat;
        let earlier = stacks.take(done as int);
        lemma_threads(s, stacks, done);
        assert(stacks.take(count as int).drop_last() == earlier);
        assert(stacks.take(count as int).last() == stacks[done as int]);
        lemma_run_concat(s, threads_replies(earlier), thread_replies(stacks[done as int]));
        let mid = s.run(threads_replies(earlier));
        lemma_thread(mid, stacks[done as int]);
        assert(all.take(count as int) == all.take(done as int).push(all[done as int]));
    }
}

/// Against a target that does not fail, a pass yields the stack of every
/// thread: one for each thread, in the order in which the threads were
/// listed, holding the frames of the thread's instruction pointers in the
/// order of the walk, each instruction pointer with all its frames in the
/// resolver's order, or with its address alone where it has no debug
/// information.
pub proof fn lemma_smooth_pass_yields_all_stacks(
    pid: usize,
    include_inlined: bool,
    threads: Seq<ThreadSnapshot>,
    stacks: Seq<Seq<UnwindStep>>,
)
    requires
        threads.len() == stacks.len(),
    ensures
        PassView::initial(pid, include_inlined).run(smooth_replies(threads, stacks)).outcome()
            == Some(Ok::<_, crate::error::ErrorView>(resolved_stacks(threads, stacks))),
{
    let start = PassView::initial(pid, include_inlined);
    let opening = seq![ReplyView::Done, ReplyView::Done, ReplyView::Threads(threads)];
    let listed = start.step(ReplyView::Done).step(ReplyView::Done).step(
        ReplyView::Threads(threads),
    );
    assert(start.run(opening) == listed) by {
        let none = Seq::<ReplyView>::empty();
        assert(opening == none.push(ReplyView::Done).push(ReplyView::Done).push(
            ReplyView::Threads(threads),
        ));
        lemma_run_push(start, none, ReplyView::Done);
        lemma_run_push(start, none.push(ReplyView::Done), ReplyView::Done);
        lemma_run_push(
            start,
            none.push(ReplyView::Done).push(ReplyView::Done),
            ReplyView::Threads(threads),
        );
    }
    let middle = threads_replies(stacks);
    assert(stacks.take(stacks.len() as int) == stacks);
    lemma_threads(listed, stacks, stacks.len());
    lemma_run_concat(start, opening, middle);
    lemma_run_push(start, opening + middle, ReplyView::Done);
    lemma_run_push(start, (opening + middle).push(ReplyView::Done), ReplyView::Done);
    assert(resolved_stacks(threads, stacks).take(threads.len() as int) == resolved_stacks(
        threads,
        stacks,
    ));
}

} // verus!
