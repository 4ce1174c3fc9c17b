//! What a worker reports when it is done with a file.

use crate::event::{Event, EventView};
use crate::plan::{WorkItem, WorkItemView};
use vstd::prelude::*;

verus! {

/// The event for the outcome of an item: progress with the item's source
/// after success, a failure with the cause after an error, for the item's
/// group either way.
pub open spec fn report_of(item: WorkItemView, outcome: Result<(), Seq<char>>) -> EventView {
    match outcome {
        Ok(_) => EventView::Progress { group: item.group, file: item.source },
        Err(cause) => EventView::Failure { group: item.group, error: cause },
    }
}

/// The content of an outcome.
pub open spec fn outcome_view(outcome: Result<(), String>) -> Result<(), Seq<char>> {
    match outcome {
        Ok(_) => Ok(()),
        Err(cause) => Err(cause@),
    }
}

/// The one event that a worker sends for an item.
pub fn report(item: WorkItem, outcome: Result<(), String>) -> (event: Event)
    ensures
        event@ == report_of(item@, outcome_view(outcome)),
{
    match outcome {
        Ok(_) => Event::Progress { group: item.group, file: item.source },
        Err(cause) => Event::Failure { group: item.group, error: cause },
    }
}

} // verus!
