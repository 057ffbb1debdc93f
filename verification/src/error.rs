//! The ways an inspection can fail.

use vstd::prelude::*;
use vstd::string::StringExecFns;

verus! {

/// Why an inspection produced no result. Each failure carries the detail
/// that the operating system or the resolver gave.
#[derive(Clone, Debug, PartialEq, Eq)]
pub enum InspectError {
    /// The memory map could not be read: the process is gone or access to
    /// it is denied.
    ProcessAccess(String),
    /// The process could not be attached to or stopped: it is gone, access
    /// is denied, or another tracer controls it.
    ProcessAttach(String),
    /// A stack turned out to be corrupt in the middle of the walk.
    UnwindStep(String),
    /// The resolver failed on its own account, as on corrupt debug data or
    /// an unreadable symbol file.
    SymbolResolution(String),
}

/// The mathematical content of an [`InspectError`].
pub enum ErrorView {
    ProcessAccess(Seq<char>),
    ProcessAttach(Seq<char>),
    UnwindStep(Seq<char>),
    SymbolResolution(Seq<char>),
}

impl View for InspectError {
    type V = ErrorView;

    open spec fn view(&self) -> ErrorView {
        match self {
            InspectError::ProcessAccess(detail) => ErrorView::ProcessAccess(detail@),
            InspectError::ProcessAttach(detail) => ErrorView::ProcessAttach(detail@),
            InspectError::UnwindStep(detail) => ErrorView::UnwindStep(detail@),
            InspectError::SymbolResolution(detail) => ErrorView::SymbolResolution(detail@),
        }
    }
}

impl ErrorView {
    /// What the failure says of its kind, before the detail.
    pub open spec fn heading(self) -> Seq<char> {
        match self {
            ErrorView::ProcessAccess(_) => "cannot read the memory map: "@,
            ErrorView::ProcessAttach(_) => "cannot attach to the process: "@,
            ErrorView::UnwindStep(_) => "stack unwinding failed: "@,
            ErrorView::SymbolResolution(_) => "symbol resolution failed: "@,
        }
    }

    /// The detail that came with the failure.
    pub open spec fn detail(self) -> Seq<char> {
        match self {
            ErrorView::ProcessAccess(detail) => detail,
            ErrorView::ProcessAttach(detail) => detail,
            ErrorView::UnwindStep(detail) => detail,
            ErrorView::SymbolResolution(detail) => detail,
        }
    }

    /// The one message that stands for the failure: heading, then detail.
    pub open spec fn message(self) -> Seq<char> {
        self.heading() + self.detail()
    }
}

impl InspectError {
    /// The detail that came with the failure.
    pub fn detail(&self) -> (text: &String)
        ensures
            text@ == self@.detail(),
    {
        match self {
            InspectError::ProcessAccess(detail) => detail,
            InspectError::ProcessAttach(detail) => detail,
            InspectError::UnwindStep(detail) => detail,
            InspectError::SymbolResolution(detail) => detail,
        }
    }

    /// The failure as a single message for display.
    pub fn message(&self) -> (text: String)
        ensures
            text@ == self@.message(),
    {
        let heading = match self {
            InspectError::ProcessAccess(_) => "cannot read the memory map: ",
            InspectError::ProcessAttach(_) => "cannot attach to the process: ",
            InspectError::UnwindStep(_) => "stack unwinding failed: ",
            InspectError::SymbolResolution(_) => "symbol resolution failed: ",
        };
        String::from_str(heading).concat(self.detail().as_str())
    }
}

} // verus!
