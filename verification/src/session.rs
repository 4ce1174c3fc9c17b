//! A run from the side of its one consumer: which file to start next, and
//! what an arriving event does to the run and to the pane.

use crate::aggregator::{
    all_done, any_errored, exit_status, exit_status_of, Aggregator, RunState, Snapshot,
};
use crate::dispatch::{
    after_finish, after_start, first_ready, is_first_busy, is_first_ready, lanes_wf,
    lemma_first_busy_unique, started_item, Dispatcher, LaneView,
};
use crate::event::{Event, EventView};
use crate::plan::{plan_in_step, Plan, WorkItem};
use crate::render::{close_pane, closing_of, frame_of, open_pane, opening_of, render};
use crate::roster::lemma_slot_is_position;
use vstd::prelude::*;

verus! {

/// The mathematical content of a [`Session`].
pub struct SessionView {
    pub run: Snapshot,
    pub lanes: Seq<LaneView>,
}

impl SessionView {
    /// The lanes after an event: an event about a group frees one of that
    /// group's permits.
    pub open spec fn lanes_after(self, e: EventView) -> Seq<LaneView> {
        match e.subject() {
            Some(group) => after_finish(self.lanes, group),
            None => self.lanes,
        }
    }

    /// The session after an event. A run that is over takes no more events.
    pub open spec fn after(self, e: EventView) -> SessionView {
        if self.run.state != RunState::Running {
            self
        } else {
            SessionView { run: self.run.after(e), lanes: self.lanes_after(e) }
        }
    }

    /// What is drawn after an event: the whole pane while the run was
    /// running, nothing once it is over.
    pub open spec fn drawn_after(self, e: EventView) -> Seq<char> {
        if self.run.state != RunState::Running {
            Seq::empty()
        } else {
            frame_of(self.run.after(e).groups)
        }
    }

    /// The session after an attempt to start an item. A run that is over
    /// starts nothing.
    pub open spec fn after_start(self) -> SessionView {
        if self.run.state != RunState::Running {
            self
        } else {
            SessionView { lanes: after_start(self.lanes), ..self }
        }
    }
}

/// Progress and dispatch agree: there is a lane for every group, in the same
/// order and under the same identifier, with an item for every file of the
/// group; and of the items that were started, those that are not in flight
/// have been counted as finished.
pub open spec fn in_step(s: SessionView) -> bool {
    &&& s.lanes.len() == s.run.groups.len()
    &&& forall|k: int|
        0 <= k < s.lanes.len() ==> {
            &&& (#[trigger] s.lanes[k]).group == s.run.groups[k].0
            &&& s.lanes[k].items.len() == s.run.groups[k].1.total
            &&& s.run.groups[k].1.completed + s.lanes[k].pool.held == s.lanes[k].started
        }
}

/// The event is one that a worker in flight can send: it is about a group
/// whose lane has an item in flight.
pub open spec fn is_due(s: SessionView, e: EventView) -> bool {
    match e.subject() {
        Some(group) => exists|k: int|
            0 <= k < s.lanes.len() && (#[trigger] s.lanes[k]).group == group && s.lanes[k].pool.held
                > 0,
        None => false,
    }
}

/// Starting an item keeps progress and dispatch in agreement.
pub proof fn lemma_start_keeps_step(s: SessionView)
    requires
        s.run.wf(),
        lanes_wf(s.lanes),
        in_step(s),
    ensures
        in_step(s.after_start()),
{
    let t = s.after_start();
    if t != s {
        let i = first_ready(s.lanes)->0;
        assert(is_first_ready(s.lanes, i));
        assert forall|k: int| 0 <= k < t.lanes.len() implies {
            &&& (#[trigger] t.lanes[k]).group == t.run.groups[k].0
            &&& t.lanes[k].items.len() == t.run.groups[k].1.total
            &&& t.run.groups[k].1.completed + t.lanes[k].pool.held == t.lanes[k].started
        } by {
            assert(s.lanes[k].group == s.run.groups[k].0);
        }
    }
}

/// While the run goes on, the report of a worker in flight keeps progress
/// and dispatch in agreement: what leaves the lane is counted for the group.
pub proof fn lemma_report_keeps_step(s: SessionView, e: EventView)
    requires
        s.run.wf(),
        lanes_wf(s.lanes),
        in_step(s),
        is_due(s, e),
        s.after(e).run.state == RunState::Running,
    ensures
        in_step(s.after(e)),
{
    let t = s.after(e);
    let group = e.subject()->0;
    let k = choose|k: int|
        0 <= k < s.lanes.len() && (#[trigger] s.lanes[k]).group == group && s.lanes[k].pool.held > 0;
    assert(s.lanes[k].wf());
    assert(s.run.groups[k].0 == group);
    lemma_slot_is_position(s.run.groups, k);
    assert forall|j: int| 0 <= j < k implies !((#[trigger] s.lanes[j]).group == group
        && s.lanes[j].pool.held > 0) by {
        assert(s.run.groups[j].0 != s.run.groups[k].0);
    }
    assert(is_first_busy(s.lanes, group, k));
    lemma_first_busy_unique(s.lanes, group, k);
    assert(!any_errored(s.run.groups));
    assert(s.run.groups[k].1.last_error is None);
    assert(s.run.concerns_live_group(group));
    if e is Failure {
        assert(t.run.groups[k].1.last_error is Some);
        assert(any_errored(t.run.groups));
    }
    assert forall|j: int| 0 <= j < t.lanes.len() implies {
        &&& (#[trigger] t.lanes[j]).group == t.run.groups[j].0
        &&& t.lanes[j].items.len() == t.run.groups[j].1.total
        &&& t.run.groups[j].1.completed + t.lanes[j].pool.held == t.lanes[j].started
    } by {
        assert(s.lanes[j].group == s.run.groups[j].0);
    }
}

/// A run that goes on is never stuck: where every pool has a permit at all,
/// some item is in flight or some item can be started.
pub proof fn lemma_never_stuck(s: SessionView)
    requires
        s.run.wf(),
        lanes_wf(s.lanes),
        in_step(s),
        s.run.state == RunState::Running,
        forall|k: int| 0 <= k < s.lanes.len() ==> (#[trigger] s.lanes[k]).pool.capacity > 0,
    ensures
        first_ready(s.lanes) is Some || exists|k: int|
            0 <= k < s.lanes.len() && (#[trigger] s.lanes[k]).pool.held > 0,
{
    assert(!all_done(s.run.groups));
    let k = choose|k: int|
        0 <= k < s.run.groups.len() && (#[trigger] s.run.groups[k]).1.completed
            != s.run.groups[k].1.total;
    assert(s.run.groups[k].1.wf());
    assert(s.lanes[k].group == s.run.groups[k].0);
    if s.lanes[k].pool.held == 0 {
        assert(s.lanes[k].ready());
        lemma_some_lane_is_first_ready(s.lanes, k);
    }
}

/// Where a lane is ready, some lane is the first that is.
pub proof fn lemma_some_lane_is_first_ready(lanes: Seq<LaneView>, k: int)
    requires
        0 <= k < lanes.len(),
        lanes[k].ready(),
    ensures
        first_ready(lanes) is Some,
    decreases k,
{
    if forall|j: int| 0 <= j < k ==> !(#[trigger] lanes[j]).ready() {
        assert(is_first_ready(lanes, k));
    } else {
        let j = choose|j: int| 0 <= j < k && (#[trigger] lanes[j]).ready();
        lemma_some_lane_is_first_ready(lanes, j);
    }
}

/// A run is completed only when every file was started and none is left in
/// flight.
pub proof fn lemma_completed_means_all_reported(s: SessionView)
    requires
        s.run.wf(),
        lanes_wf(s.lanes),
        in_step(s),
        s.run.state == RunState::Completed,
    ensures
        forall|k: int|
            0 <= k < s.lanes.len() ==> (#[trigger] s.lanes[k]).started == s.lanes[k].items.len()
                && s.lanes[k].pool.held == 0,
{
    assert(all_done(s.run.groups));
    assert forall|k: int| 0 <= k < s.lanes.len() implies (#[trigger] s.lanes[k]).started
        == s.lanes[k].items.len() && s.lanes[k].pool.held == 0 by {
        assert(s.lanes[k].wf());
        assert(s.run.groups[k].1.completed == s.run.groups[k].1.total);
    }
}

/// What an event has led to.
pub struct Turn {
    /// The state of the run after the event.
    pub state: RunState,
    /// What is to be written to the terminal.
    pub frame: String,
    /// The exit status of the process, once the run is over.
    pub exit: Option<i32>,
}

/// The progress and the dispatch of one run.
pub struct Session {
    aggregator: Aggregator,
    dispatcher: Dispatcher,
}

impl View for Session {
    type V = SessionView;

    closed spec fn view(&self) -> SessionView {
        SessionView { run: self.aggregator@, lanes: self.dispatcher@ }
    }
}

impl Session {
    pub closed spec fn wf(&self) -> bool {
        self.aggregator.wf() && self.dispatcher.wf()
    }

    /// What `wf` says of the run and the lanes.
    pub proof fn lemma_wf(&self)
        requires
            self.wf(),
        ensures
            self@.run.wf(),
            lanes_wf(self@.lanes),
    {
        self.aggregator.lemma_wf();
        self.dispatcher.lemma_wf();
    }

    /// A session for a plan, with `capacity` permits for every group. Where
    /// the plan is in step with itself, as every plan made by planning is,
    /// progress and dispatch begin in agreement.
    pub fn new(plan: Plan, capacity: usize) -> (s: Session)
        requires
            plan.roster.wf(),
        ensures
            s.wf(),
            plan_in_step(plan@) ==> in_step(s@),
            s@.run == Snapshot::initial(plan@.groups),
            s@.lanes.len() == plan@.batches.len(),
            forall|k: int|
                0 <= k < plan@.batches.len() ==> (#[trigger] s@.lanes[k]) == (LaneView {
                    group: plan@.batches[k].group,
                    items: plan@.batches[k].items,
                    started: 0,
                    pool: crate::dispatch::PoolView { capacity: capacity as nat, held: 0 },
                }),
    {
        let Plan { roster, batches } = plan;
        let aggregator = Aggregator::new(roster);
        let dispatcher = Dispatcher::new(batches, capacity);
        let s = Session { aggregator, dispatcher };
        proof {
            if plan_in_step(plan@) {
                assert forall|k: int| 0 <= k < s@.lanes.len() implies {
                    &&& (#[trigger] s@.lanes[k]).group == s@.run.groups[k].0
                    &&& s@.lanes[k].items.len() == s@.run.groups[k].1.total
                    &&& s@.run.groups[k].1.completed + s@.lanes[k].pool.held == s@.lanes[k].started
                } by {
                    assert(plan@.batches[k].group == plan@.groups[k].0);
                }
            }
        }
        s
    }

    /// The state of the run.
    pub fn state(&self) -> (s: RunState)
        ensures
            s == self@.run.state,
    {
        self.aggregator.state()
    }

    /// The progress of the run, for reading.
    pub fn aggregator(&self) -> (a: &Aggregator)
        ensures
            a@ == self@.run,
            self.wf() ==> a.wf(),
    {
        &self.aggregator
    }

    /// The dispatch of the run, for reading.
    pub fn dispatcher(&self) -> (d: &Dispatcher)
        ensures
            d@ == self@.lanes,
            self.wf() ==> d.wf(),
    {
        &self.dispatcher
    }

    /// What is written before the first event: the cursor is hidden and a
    /// row set aside for every group.
    pub fn open(&self) -> (text: String)
        ensures
            text@ == opening_of(self@.run.groups.len()),
    {
        open_pane(self.aggregator.roster().len())
    }

    /// What is written when the run is over.
    pub fn close(&self) -> (text: String)
        ensures
            text@ == closing_of(self@.run.state),
    {
        close_pane(self.aggregator.state())
    }

    /// The next item to start, if the run is running and some group has an
    /// item waiting and a permit free.
    pub fn next_start(&mut self) -> (item: Option<WorkItem>)
        requires
            old(self).wf(),
        ensures
            final(self).wf(),
            final(self)@ == old(self)@.after_start(),
            match item {
                Some(w) => old(self)@.run.state == RunState::Running && started_item(
                    old(self)@.lanes,
                ) == Some(w@),
                None => old(self)@.run.state != RunState::Running || started_item(
                    old(self)@.lanes,
                ) is None,
            },
    {
        if self.aggregator.state() != RunState::Running {
            return None;
        }
        self.dispatcher.start_next()
    }

    /// Whether the event is about no group or about one of this run.
    pub fn recognizes(&self, event: &Event) -> (b: bool)
        ensures
            b == self@.run.recognizes(event@),
    {
        self.aggregator.recognizes(event)
    }

    /// Takes one event: the group's permit is free again, the progress is
    /// brought up to date, and the pane is drawn anew. A run that is over
    /// takes no event and draws nothing.
    pub fn handle(&mut self, event: Event) -> (turn: Turn)
        requires
            old(self).wf(),
        ensures
            final(self).wf(),
            final(self)@ == old(self)@.after(event@),
            turn.state == final(self)@.run.state,
            turn.frame@ == old(self)@.drawn_after(event@),
            turn.exit == exit_status_of(turn.state),
    {
        let state = self.aggregator.state();
        if state != RunState::Running {
            return Turn { state, frame: String::new(), exit: exit_status(state) };
        }
        match event.subject() {
            Some(group) => {
                self.dispatcher.finish(group);
            },
            None => {},
        }
        let state = self.aggregator.apply(event);
        let frame = render(self.aggregator.roster());
        Turn { state, frame, exit: exit_status(state) }
    }
}

} // verus!
