use memreader::aggregate::memory_view;
use memreader::error::InspectError;
use memreader::pass::{Pass, Phase, Reply, Request};
use memreader::thread::{ThreadSnapshot, ThreadStack};

fn thread(thread_id: i64, is_active: bool) -> ThreadSnapshot {
    ThreadSnapshot { thread_id, is_active }
}

fn names(frames: &[&str]) -> Vec<String> {
    frames.iter().map(|f| f.to_string()).collect()
}

/// Feeds `replies` to `pass` and returns it with the requests it made,
/// the first pending one included.
fn drive(pass: Pass, replies: Vec<Reply>) -> (Pass, Vec<Request>) {
    let mut requests = vec![pass.pending()];
    let mut pass = pass;
    for reply in replies {
        let (next, request) = pass.advance(reply);
        pass = next;
        requests.push(request);
    }
    (pass, requests)
}

#[test]
fn attach_to_missing_process_fails() {
    let pass = Pass::begin(4242, true);
    assert_eq!(pass.pending(), Request::Attach { pid: 4242 });
    let (pass, request) = pass.advance(Reply::Failed("No such process".to_string()));
    assert_eq!(request, Request::Finish);
    assert!(pass.is_finished());
    let outcome = pass.outcome().expect("the pass is over");
    let error = outcome.expect_err("attach failed");
    assert_eq!(error, InspectError::ProcessAttach("No such process".to_string()));
    assert_eq!(error.message(), "cannot attach to the process: No such process");

    let maps = memory_view(Err("No such file or directory".to_string()));
    assert_eq!(
        maps.err(),
        Some(InspectError::ProcessAccess("No such file or directory".to_string()))
    );
}

#[test]
fn failed_attach_takes_no_lock_and_yields_no_data() {
    let (pass, requests) = drive(
        Pass::begin(99, false),
        vec![Reply::Failed("Operation not permitted".to_string()), Reply::Done, Reply::Done],
    );
    assert_eq!(
        requests,
        vec![Request::Attach { pid: 99 }, Request::Finish, Request::Finish, Request::Finish]
    );
    assert!(!requests.contains(&Request::LockProcess));
    assert_eq!(
        pass.outcome(),
        Some(Err(InspectError::ProcessAttach("Operation not permitted".to_string())))
    );
}

#[test]
fn inlined_frames_come_in_unwind_order() {
    let (pass, requests) = drive(
        Pass::begin(7, true),
        vec![
            Reply::Done,
            Reply::Done,
            Reply::Threads(vec![thread(11, true)]),
            Reply::Done,
            Reply::Frame(0x1000),
            Reply::Resolved(names(&["step1"])),
            Reply::Frame(0x2000),
            Reply::Resolved(names(&["step2a", "step2b"])),
            Reply::Frame(0x3000),
            Reply::Resolved(names(&["step3"])),
            Reply::StackEnd,
            Reply::Done,
            Reply::Done,
            Reply::Done,
        ],
    );
    assert_eq!(
        requests,
        vec![
            Request::Attach { pid: 7 },
            Request::LockProcess,
            Request::ListThreads,
            Request::LockThread { thread_id: 11 },
            Request::Unwind { thread_id: 11 },
            Request::Symbolicate { ip: 0x1000, include_inlined: true },
            Request::Unwind { thread_id: 11 },
            Request::Symbolicate { ip: 0x2000, include_inlined: true },
            Request::Unwind { thread_id: 11 },
            Request::Symbolicate { ip: 0x3000, include_inlined: true },
            Request::Unwind { thread_id: 11 },
            Request::UnlockThread { thread_id: 11 },
            Request::UnlockProcess,
            Request::Detach,
            Request::Finish,
        ]
    );
    assert_eq!(
        pass.outcome(),
        Some(Ok(vec![ThreadStack {
            thread_id: 11,
            is_active: true,
            frames: names(&["step1", "step2a", "step2b", "step3"]),
        }]))
    );
}

#[test]
fn corrupt_stack_aborts_the_pass() {
    let (pass, requests) = drive(
        Pass::begin(7, true),
        vec![
            Reply::Done,
            Reply::Done,
            Reply::Threads(vec![thread(11, true)]),
            Reply::Done,
            Reply::Frame(0x1000),
            Reply::Resolved(names(&["step1"])),
            Reply::Failed("bad frame pointer".to_string()),
            Reply::Done,
            Reply::Done,
            Reply::Done,
        ],
    );
    assert_eq!(
        requests[7..].to_vec(),
        vec![
            Request::UnlockThread { thread_id: 11 },
            Request::UnlockProcess,
            Request::Detach,
            Request::Finish,
        ]
    );
    assert_eq!(
        pass.outcome(),
        Some(Err(InspectError::UnwindStep("bad frame pointer".to_string())))
    );
}

#[test]
fn threads_come_in_the_order_listed() {
    let (pass, requests) = drive(
        Pass::begin(7, true),
        vec![
            Reply::Done,
            Reply::Done,
            Reply::Threads(vec![thread(30, false), thread(10, true)]),
            Reply::Done,
            Reply::Frame(0xa),
            Reply::Resolved(names(&["wait"])),
            Reply::StackEnd,
            Reply::Done,
            Reply::Done,
            Reply::Frame(0xb),
            Reply::Resolved(names(&["work", "main"])),
            Reply::StackEnd,
            Reply::Done,
            Reply::Done,
            Reply::Done,
        ],
    );
    assert_eq!(requests[3], Request::LockThread { thread_id: 30 });
    assert_eq!(requests[7], Request::UnlockThread { thread_id: 30 });
    assert_eq!(requests[8], Request::LockThread { thread_id: 10 });
    assert_eq!(requests[12], Request::UnlockThread { thread_id: 10 });
    assert_eq!(requests[13], Request::UnlockProcess);
    assert_eq!(
        pass.outcome(),
        Some(Ok(vec![
            ThreadStack { thread_id: 30, is_active: false, frames: names(&["wait"]) },
            ThreadStack { thread_id: 10, is_active: true, frames: names(&["work", "main"]) },
        ]))
    );
}

#[test]
fn listed_threads_do_not_change_during_the_pass() {
    let listed = vec![thread(1, true), thread(2, false), thread(3, false)];
    let mut replies = vec![Reply::Done, Reply::Done, Reply::Threads(listed.clone())];
    for _ in &listed {
        replies.push(Reply::Done);
        replies.push(Reply::StackEnd);
        replies.push(Reply::Done);
    }
    // A second listing in the middle of the pass is no answer to anything.
    replies.insert(5, Reply::Threads(vec![thread(77, true)]));
    replies.push(Reply::Done);
    replies.push(Reply::Done);
    let mut pass = Pass::begin(7, true);
    let mut requests = vec![pass.pending()];
    assert!(pass.listed_threads().is_empty());
    for (answered, reply) in replies.into_iter().enumerate() {
        let (next, request) = pass.advance(reply);
        pass = next;
        requests.push(request);
        if answered >= 2 {
            assert_eq!(pass.listed_threads(), &listed);
        } else {
            assert!(pass.listed_threads().is_empty());
        }
    }
    let locked: Vec<i64> = requests
        .iter()
        .filter_map(|r| match r {
            Request::LockThread { thread_id } => Some(*thread_id),
            _ => None,
        })
        .collect();
    assert_eq!(locked, vec![1, 2, 3]);
    let unlocked: Vec<i64> = requests
        .iter()
        .filter_map(|r| match r {
            Request::UnlockThread { thread_id } => Some(*thread_id),
            _ => None,
        })
        .collect();
    assert_eq!(unlocked, vec![1, 1, 2, 3]);
    let stacks = pass.outcome().expect("over").expect("no failure");
    let ids: Vec<(i64, bool)> = stacks.iter().map(|s| (s.thread_id, s.is_active)).collect();
    assert_eq!(ids, vec![(1, true), (2, false), (3, false)]);
}

#[test]
fn process_without_threads_has_no_stacks() {
    let (pass, requests) = drive(
        Pass::begin(7, true),
        vec![Reply::Done, Reply::Done, Reply::Threads(Vec::new()), Reply::Done, Reply::Done],
    );
    assert_eq!(
        requests,
        vec![
            Request::Attach { pid: 7 },
            Request::LockProcess,
            Request::ListThreads,
            Request::UnlockProcess,
            Request::Detach,
            Request::Finish,
        ]
    );
    assert_eq!(pass.outcome(), Some(Ok(Vec::new())));
}

#[test]
fn thread_without_frames_has_an_empty_stack() {
    let (pass, _) = drive(
        Pass::begin(7, true),
        vec![
            Reply::Done,
            Reply::Done,
            Reply::Threads(vec![thread(5, false)]),
            Reply::Done,
            Reply::StackEnd,
            Reply::Done,
            Reply::Done,
            Reply::Done,
        ],
    );
    assert_eq!(
        pass.outcome(),
        Some(Ok(vec![ThreadStack { thread_id: 5, is_active: false, frames: Vec::new() }]))
    );
}

#[test]
fn missing_debug_information_gives_an_address_only_frame() {
    let (pass, _) = drive(
        Pass::begin(7, true),
        vec![
            Reply::Done,
            Reply::Done,
            Reply::Threads(vec![thread(5, true)]),
            Reply::Done,
            Reply::Frame(0x7f00_dead_beef),
            Reply::Unresolved,
            Reply::Frame(0x401000),
            Reply::Resolved(names(&["main"])),
            Reply::StackEnd,
            Reply::Done,
            Reply::Done,
            Reply::Done,
        ],
    );
    assert_eq!(
        pass.outcome(),
        Some(Ok(vec![ThreadStack {
            thread_id: 5,
            is_active: true,
            frames: names(&["0x7f00deadbeef", "main"]),
        }]))
    );
}

#[test]
fn instruction_pointer_without_frames_adds_none() {
    let (pass, _) = drive(
        Pass::begin(7, true),
        vec![
            Reply::Done,
            Reply::Done,
            Reply::Threads(vec![thread(5, true)]),
            Reply::Done,
            Reply::Frame(0x10),
            Reply::Resolved(Vec::new()),
            Reply::Frame(0x20),
            Reply::Resolved(names(&["main"])),
            Reply::StackEnd,
            Reply::Done,
            Reply::Done,
            Reply::Done,
        ],
    );
    assert_eq!(
        pass.outcome(),
        Some(Ok(vec![ThreadStack { thread_id: 5, is_active: true, frames: names(&["main"]) }]))
    );
}

#[test]
fn inlined_frames_are_asked_for_only_on_demand() {
    let (_, requests) = drive(
        Pass::begin(7, false),
        vec![
            Reply::Done,
            Reply::Done,
            Reply::Threads(vec![thread(5, true)]),
            Reply::Done,
            Reply::Frame(0x10),
        ],
    );
    assert_eq!(requests[5], Request::Symbolicate { ip: 0x10, include_inlined: false });
}

#[test]
fn process_lock_failure_is_an_attach_failure() {
    let (pass, requests) = drive(
        Pass::begin(7, true),
        vec![Reply::Done, Reply::Failed("already traced".to_string()), Reply::Done],
    );
    assert_eq!(
        requests,
        vec![Request::Attach { pid: 7 }, Request::LockProcess, Request::Detach, Request::Finish]
    );
    assert_eq!(
        pass.outcome(),
        Some(Err(InspectError::ProcessAttach("already traced".to_string())))
    );
}

#[test]
fn thread_listing_failure_releases_the_process() {
    let (pass, requests) = drive(
        Pass::begin(7, true),
        vec![
            Reply::Done,
            Reply::Done,
            Reply::Failed("process exited".to_string()),
            Reply::Done,
            Reply::Done,
        ],
    );
    assert_eq!(
        requests[3..].to_vec(),
        vec![Request::UnlockProcess, Request::Detach, Request::Finish]
    );
    assert_eq!(
        pass.outcome(),
        Some(Err(InspectError::ProcessAttach("process exited".to_string())))
    );
}

#[test]
fn thread_lock_failure_releases_the_process() {
    let (pass, requests) = drive(
        Pass::begin(7, true),
        vec![
            Reply::Done,
            Reply::Done,
            Reply::Threads(vec![thread(5, true)]),
            Reply::Failed("thread exited".to_string()),
            Reply::Done,
            Reply::Done,
        ],
    );
    assert_eq!(
        requests[4..].to_vec(),
        vec![Request::UnlockProcess, Request::Detach, Request::Finish]
    );
    assert_eq!(
        pass.outcome(),
        Some(Err(InspectError::ProcessAttach("thread exited".to_string())))
    );
}

#[test]
fn resolution_failure_discards_the_stacks_already_collected() {
    let (pass, requests) = drive(
        Pass::begin(7, true),
        vec![
            Reply::Done,
            Reply::Done,
            Reply::Threads(vec![thread(1, true), thread(2, false)]),
            Reply::Done,
            Reply::Frame(0x10),
            Reply::Resolved(names(&["main"])),
            Reply::StackEnd,
            Reply::Done,
            Reply::Done,
            Reply::Frame(0x20),
            Reply::Failed("corrupt debug data".to_string()),
            Reply::Done,
            Reply::Done,
            Reply::Done,
        ],
    );
    assert_eq!(
        requests[11..].to_vec(),
        vec![
            Request::UnlockThread { thread_id: 2 },
            Request::UnlockProcess,
            Request::Detach,
            Request::Finish,
        ]
    );
    assert_eq!(
        pass.outcome(),
        Some(Err(InspectError::SymbolResolution("corrupt debug data".to_string())))
    );
}

#[test]
fn replies_that_answer_nothing_are_dropped() {
    let (pass, requests) = drive(
        Pass::begin(7, true),
        vec![
            Reply::StackEnd,
            Reply::Frame(1),
            Reply::Threads(vec![thread(9, true)]),
            Reply::Resolved(names(&["x"])),
            Reply::Unresolved,
            Reply::Done,
            Reply::Unresolved,
        ],
    );
    assert_eq!(
        requests,
        vec![
            Request::Attach { pid: 7 },
            Request::Attach { pid: 7 },
            Request::Attach { pid: 7 },
            Request::Attach { pid: 7 },
            Request::Attach { pid: 7 },
            Request::Attach { pid: 7 },
            Request::LockProcess,
            Request::LockProcess,
        ]
    );
    assert!(!pass.is_finished());
    assert_eq!(pass.outcome(), None);
}

#[test]
fn failure_while_releasing_is_not_an_answer() {
    let (pass, requests) = drive(
        Pass::begin(7, true),
        vec![
            Reply::Done,
            Reply::Done,
            Reply::Threads(Vec::new()),
            Reply::Failed("late".to_string()),
            Reply::Done,
            Reply::Done,
        ],
    );
    assert_eq!(
        requests[3..].to_vec(),
        vec![Request::UnlockProcess, Request::UnlockProcess, Request::Detach, Request::Finish]
    );
    assert_eq!(pass.outcome(), Some(Ok(Vec::new())));
}

#[test]
fn finished_pass_stays_finished() {
    let (pass, _) = drive(Pass::begin(7, true), vec![Reply::Failed("gone".to_string())]);
    let (pass, requests) = drive(
        pass,
        vec![Reply::Done, Reply::Threads(vec![thread(1, true)]), Reply::Failed("x".to_string())],
    );
    assert_eq!(requests, vec![Request::Finish; 4]);
    assert_eq!(pass.outcome(), Some(Err(InspectError::ProcessAttach("gone".to_string()))));
}

#[test]
fn unfinished_pass_has_no_outcome() {
    let (pass, _) = drive(Pass::begin(7, true), vec![Reply::Done, Reply::Done]);
    assert!(!pass.is_finished());
    assert_eq!(pass.phase(), Phase::ListingThreads);
    assert_eq!(pass.pending(), Request::ListThreads);
    assert_eq!(pass.outcome(), None);
}

#[test]
fn phases_follow_the_requests() {
    let pass = Pass::begin(7, true);
    assert_eq!(pass.phase(), Phase::Attaching);
    let (pass, _) = pass.advance(Reply::Done);
    assert_eq!(pass.phase(), Phase::LockingProcess);
    let (pass, _) = pass.advance(Reply::Done);
    assert_eq!(pass.phase(), Phase::ListingThreads);
    let (pass, _) = pass.advance(Reply::Threads(vec![thread(3, true)]));
    assert_eq!(pass.phase(), Phase::LockingThread);
    let (pass, _) = pass.advance(Reply::Done);
    assert_eq!(pass.phase(), Phase::Unwinding);
    let (pass, _) = pass.advance(Reply::Frame(0x40));
    assert_eq!(pass.phase(), Phase::Resolving);
    let (pass, _) = pass.advance(Reply::Unresolved);
    assert_eq!(pass.phase(), Phase::Unwinding);
    let (pass, _) = pass.advance(Reply::StackEnd);
    assert_eq!(pass.phase(), Phase::UnlockingThread);
    let (pass, _) = pass.advance(Reply::Done);
    assert_eq!(pass.phase(), Phase::UnlockingProcess);
    let (pass, _) = pass.advance(Reply::Done);
    assert_eq!(pass.phase(), Phase::Detaching);
    let (pass, _) = pass.advance(Reply::Done);
    assert_eq!(pass.phase(), Phase::Finished);
    assert!(pass.is_finished());
}
