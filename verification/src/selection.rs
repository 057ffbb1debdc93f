//! Which process is under inspection, and what the display shows for it.

use crate::aggregate::{aggregated, memory_view, AggregatedMap};
use crate::error::{ErrorView, InspectError};
use crate::pass::{Pass, PassView};
use crate::region::{region_views, MemoryRegion};
use vstd::prelude::*;

verus! {

/// The process identifier that stands for "no process selected".
pub const NO_SELECTION: usize = usize::MAX;

/// The chosen target and the message of the last failed inspection, if any.
#[derive(Clone, Debug, PartialEq, Eq)]
pub struct Selection {
    pid: usize,
    message: Option<String>,
}

/// The mathematical content of a [`Selection`].
pub struct SelectionView {
    pub pid: usize,
    pub message: Option<Seq<char>>,
}

/// What the display shows for a selection.
#[derive(Clone, Debug, PartialEq, Eq)]
pub enum Panel {
    /// No process is selected: there is nothing to show.
    Nothing,
    /// The last inspection failed: its message stands in place of results.
    Message(String),
    /// The results of inspecting this process.
    Inspect(usize),
}

/// The mathematical content of a [`Panel`].
pub enum PanelView {
    Nothing,
    Message(Seq<char>),
    Inspect(usize),
}

impl View for Panel {
    type V = PanelView;

    open spec fn view(&self) -> PanelView {
        match self {
            Panel::Nothing => PanelView::Nothing,
            Panel::Message(text) => PanelView::Message(text@),
            Panel::Inspect(pid) => PanelView::Inspect(*pid),
        }
    }
}

impl SelectionView {
    /// The selected process, unless none is.
    pub open spec fn target(self) -> Option<usize> {
        if self.pid == NO_SELECTION {
            None
        } else {
            Some(self.pid)
        }
    }

    /// What the display shows: nothing without a target, else the pending
    /// message, else the inspection results.
    pub open spec fn panel(self) -> PanelView {
        if self.pid == NO_SELECTION {
            PanelView::Nothing
        } else {
            match self.message {
                Some(text) => PanelView::Message(text),
                None => PanelView::Inspect(self.pid),
            }
        }
    }
}

impl View for Selection {
    type V = SelectionView;

    closed spec fn view(&self) -> SelectionView {
        SelectionView {
            pid: self.pid,
            message: match self.message {
                Some(text) => Some(text@),
                None => None,
            },
        }
    }
}

impl Selection {
    /// The state before any process was chosen.
    pub fn none() -> (s: Selection)
        ensures
            s@ == (SelectionView { pid: NO_SELECTION, message: None }),
    {
        Selection { pid: NO_SELECTION, message: None }
    }

    /// Chooses `pid` as the target. This starts afresh: a message left by an
    /// earlier inspection is dropped.
    pub fn select(&mut self, pid: usize)
        ensures
            final(self)@ == (SelectionView { pid, message: None }),
    {
        self.pid = pid;
        self.message = None;
    }

    /// Notes that the inspection of the current target failed with
    /// `message`.
    pub fn report(&mut self, message: String)
        ensures
            final(self)@ == (SelectionView { pid: old(self)@.pid, message: Some(message@) }),
    {
        self.message = Some(message);
    }

    /// Notes that the inspection of the current target failed with `error`:
    /// its message is shown from now on.
    pub fn report_failure(&mut self, error: &InspectError)
        ensures
            final(self)@ == (SelectionView {
                pid: old(self)@.pid,
                message: Some(error@.message()),
            }),
    {
        self.message = Some(error.message());
    }

    /// A fresh stack inspection pass over the target, where the display
    /// shows inspection results; none without a target or while a message
    /// stands in their place.
    pub fn begin_pass(&self, include_inlined: bool) -> (pass: Option<Pass>)
        ensures
            match self@.panel() {
                PanelView::Inspect(pid) => pass matches Some(begun) && begun@ == PassView::initial(
                    pid,
                    include_inlined,
                ),
                _ => pass is None,
            },
    {
        if self.pid == NO_SELECTION || self.message.is_some() {
            None
        } else {
            Some(Pass::begin(self.pid, include_inlined))
        }
    }

    /// Takes what reading the target's memory map gave. A good reading is
    /// handed back grouped by backing file, and the selection stays as it
    /// is. A failed reading is noted as the failure to access the process,
    /// whose message is shown from now on, and nothing is handed back.
    pub fn take_reading(&mut self, reading: Result<Vec<MemoryRegion>, String>) -> (shown: Option<
        AggregatedMap,
    >)
        ensures
            match reading {
                Ok(regions) => {
                    &&& shown matches Some(map) && map@ == aggregated(region_views(regions@))
                    &&& final(self)@ == old(self)@
                },
                Err(reason) => {
                    &&& shown is None
                    &&& final(self)@ == (SelectionView {
                        pid: old(self)@.pid,
                        message: Some(ErrorView::ProcessAccess(reason@).message()),
                    })
                },
            },
    {
        match memory_view(reading) {
            Ok(map) => Some(map),
            Err(error) => {
                self.report_failure(&error);
                None
            },
        }
    }

    /// Drops the pending message, so that the next refresh inspects again.
    pub fn clear_message(&mut self)
        ensures
            final(self)@ == (SelectionView { pid: old(self)@.pid, message: None }),
    {
        self.message = None;
    }

    /// The selected process, unless none is.
    pub fn target(&self) -> (pid: Option<usize>)
        ensures
            pid == self@.target(),
    {
        if self.pid == NO_SELECTION {
            None
        } else {
            Some(self.pid)
        }
    }

    /// What the display shows for this selection.
    pub fn panel(&self) -> (shown: Panel)
        ensures
            shown@ == self@.panel(),
    {
        if self.pid == NO_SELECTION {
            Panel::Nothing
        } else {
            match &self.message {
                Some(text) => Panel::Message(text.clone()),
                None => Panel::Inspect(self.pid),
            }
        }
    }
}

impl Default for Selection {
    fn default() -> (s: Selection)
        ensures
            s@ == (SelectionView { pid: NO_SELECTION, message: None }),
    {
        Selection::none()
    }
}

} // verus!
