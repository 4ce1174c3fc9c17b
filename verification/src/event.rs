//! What workers and the interrupt watcher report to the aggregator.

use vstd::prelude::*;

verus! {

/// The outcome of one file, or the request to stop.
pub enum Event {
    /// A file of the group was processed.
    Progress { group: usize, file: String },
    /// A file of the group could not be processed; `error` says why.
    Failure { group: usize, error: String },
    /// The user asked for the run to end.
    Quit,
}

/// The mathematical content of an [`Event`].
pub enum EventView {
    Progress { group: usize, file: Seq<char> },
    Failure { group: usize, error: Seq<char> },
    Quit,
}

impl View for Event {
    type V = EventView;

    open spec fn view(&self) -> EventView {
        match *self {
            Event::Progress { group, file } => EventView::Progress { group, file: file@ },
            Event::Failure { group, error } => EventView::Failure { group, error: error@ },
            Event::Quit => EventView::Quit,
        }
    }
}

impl EventView {
    /// The group that the event is about, if it is about one.
    pub open spec fn subject(self) -> Option<usize> {
        match self {
            EventView::Progress { group, .. } => Some(group),
            EventView::Failure { group, .. } => Some(group),
            EventView::Quit => None,
        }
    }
}

impl Event {
    /// The group that the event is about, if it is about one.
    pub fn subject(&self) -> (g: Option<usize>)
        ensures
            g == self@.subject(),
    {
        match self {
            Event::Progress { group, .. } => Some(*group),
            Event::Failure { group, .. } => Some(*group),
            Event::Quit => None,
        }
    }
}

} // verus!
