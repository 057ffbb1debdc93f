//! Threads of an inspected process and their resolved call stacks.

use vstd::prelude::*;

verus! {

/// One thread of the target, as seen while the target is stopped.
#[derive(Clone, Copy, Debug, PartialEq, Eq, Structural)]
pub struct ThreadSnapshot {
    /// The operating system's identifier of the thread.
    pub thread_id: i64,
    /// Whether the thread was running when the target was stopped.
    pub is_active: bool,
}

/// The resolved call stack of one thread, innermost frame first.
#[derive(Clone, Debug, PartialEq, Eq)]
pub struct ThreadStack {
    /// The operating system's identifier of the thread.
    pub thread_id: i64,
    /// Whether the thread was running when the target was stopped.
    pub is_active: bool,
    /// One display string for each resolved frame.
    pub frames: Vec<String>,
}

/// The mathematical content of a [`ThreadStack`].
pub struct StackView {
    pub thread_id: i64,
    pub is_active: bool,
    pub frames: Seq<Seq<char>>,
}

/// The contents of a list of strings, in order.
pub open spec fn texts(strings: Seq<String>) -> Seq<Seq<char>> {
    strings.map_values(|s: String| s@)
}

impl View for ThreadStack {
    type V = StackView;

    open spec fn view(&self) -> StackView {
        StackView {
            thread_id: self.thread_id,
            is_active: self.is_active,
            frames: texts(self.frames@),
        }
    }
}

/// The contents of a list of stacks, in order.
pub open spec fn stack_views(stacks: Seq<ThreadStack>) -> Seq<StackView> {
    stacks.map_values(|s: ThreadStack| s@)
}

} // verus!
