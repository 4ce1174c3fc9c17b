//! The aggregator: the one owner of progress state. It takes events in the
//! order of their arrival, updates the group they are about, and decides
//! when the run is over.

use crate::event::{Event, EventView};
use crate::group::GroupView;
use crate::roster::{knows, roster_wf, slot, Roster};
use vstd::prelude::*;

verus! {

/// The life of a run. Everything but `Running` is final.
#[derive(Clone, Copy, Debug, PartialEq, Eq, Structural)]
pub enum RunState {
    Running,
    Completed,
    Failed,
    Interrupted,
}

/// Every group has all of its files behind it.
pub open spec fn all_done(groups: Seq<(usize, GroupView)>) -> bool {
    forall|i: int| 0 <= i < groups.len() ==> (#[trigger] groups[i]).1.completed == groups[i].1.total
}

/// Some group has recorded a failure.
pub open spec fn any_errored(groups: Seq<(usize, GroupView)>) -> bool {
    exists|i: int| 0 <= i < groups.len() && (#[trigger] groups[i]).1.last_error is Some
}

/// The state of an uninterrupted run, as its groups determine it.
pub open spec fn settle(groups: Seq<(usize, GroupView)>) -> RunState {
    if any_errored(groups) {
        RunState::Failed
    } else if all_done(groups) {
        RunState::Completed
    } else {
        RunState::Running
    }
}

/// The progress of a run at one moment: its groups and its own state.
pub struct Snapshot {
    pub groups: Seq<(usize, GroupView)>,
    pub state: RunState,
}

impl Snapshot {
    /// The groups are consistent, and the run's state is the one they
    /// determine, unless the run was interrupted while it was running.
    pub open spec fn wf(self) -> bool {
        &&& roster_wf(self.groups)
        &&& self.state != RunState::Interrupted ==> self.state == settle(self.groups)
        &&& self.state == RunState::Interrupted ==> settle(self.groups) == RunState::Running
    }

    /// A run begins in the state that its groups determine.
    pub open spec fn initial(groups: Seq<(usize, GroupView)>) -> Snapshot {
        Snapshot { groups, state: settle(groups) }
    }

    /// Whether the event can be taken: it is about no group, or about one of
    /// this run.
    pub open spec fn recognizes(self, e: EventView) -> bool {
        match e.subject() {
            Some(id) => knows(self.groups, id),
            None => true,
        }
    }

    /// The group that the event is about stands at this position and can
    /// still change.
    pub open spec fn concerns_live_group(self, id: usize) -> bool {
        knows(self.groups, id) && !self.groups[slot(self.groups, id)].1.terminal()
    }

    /// The groups with the one that goes by `id` replaced.
    pub open spec fn with_group(self, id: usize, g: GroupView) -> Seq<(usize, GroupView)> {
        self.groups.update(slot(self.groups, id), (id, g))
    }

    /// The run after one event. A run that is over takes no more events; a
    /// group that is done or has failed is not changed again; and an event
    /// about a group that the run does not have changes nothing. Otherwise
    /// progress counts one file for its group, a failure marks its group and
    /// fails the run, and a request to stop interrupts the run.
    pub open spec fn after(self, e: EventView) -> Snapshot {
        if self.state != RunState::Running {
            self
        } else {
            match e {
                EventView::Quit => Snapshot { state: RunState::Interrupted, ..self },
                EventView::Progress { group, file } => if self.concerns_live_group(group) {
                    let groups = self.with_group(
                        group,
                        self.groups[slot(self.groups, group)].1.advanced(file),
                    );
                    Snapshot { groups, state: settle(groups) }
                } else {
                    self
                },
                EventView::Failure { group, error } => if self.concerns_live_group(group) {
                    let groups = self.with_group(
                        group,
                        self.groups[slot(self.groups, group)].1.failed(error),
                    );
                    Snapshot { groups, state: settle(groups) }
                } else {
                    self
                },
            }
        }
    }
}

/// The process exit status that goes with the end of a run: zero after full
/// success, one after a failure or an interruption. A running run has none.
pub open spec fn exit_status_of(state: RunState) -> Option<i32> {
    match state {
        RunState::Running => None,
        RunState::Completed => Some(0i32),
        RunState::Failed => Some(1i32),
        RunState::Interrupted => Some(1i32),
    }
}

pub fn exit_status(state: RunState) -> (code: Option<i32>)
    ensures
        code == exit_status_of(state),
{
    match state {
        RunState::Running => None,
        RunState::Completed => Some(0),
        RunState::Failed => Some(1),
        RunState::Interrupted => Some(1),
    }
}

/// What a group adds to the count of unfinished groups.
spec fn pending(g: GroupView) -> nat {
    if g.completed < g.total {
        1
    } else {
        0
    }
}

/// The number of groups with files outstanding.
spec fn unfinished(groups: Seq<(usize, GroupView)>) -> nat
    decreases groups.len(),
{
    if groups.len() == 0 {
        0
    } else {
        unfinished(groups.drop_last()) + pending(groups.last().1)
    }
}

/// Replacing one group changes the count by what the old and the new group
/// add to it.
proof fn lemma_unfinished_update(groups: Seq<(usize, GroupView)>, i: int, x: (usize, GroupView))
    requires
        0 <= i < groups.len(),
    ensures
        unfinished(groups.update(i, x)) + pending(groups[i].1) == unfinished(groups) + pending(x.1),
    decreases groups.len(),
{
    let changed = groups.update(i, x);
    if i == groups.len() - 1 {
        assert(changed.drop_last() =~= groups.drop_last());
    } else {
        assert(changed.drop_last() =~= groups.drop_last().update(i, x));
        lemma_unfinished_update(groups.drop_last(), i, x);
    }
}

/// No group is unfinished exactly when every group is done.
proof fn lemma_unfinished_zero(groups: Seq<(usize, GroupView)>)
    requires
        forall|i: int| 0 <= i < groups.len() ==> (#[trigger] groups[i]).1.completed <= groups[i].1.total,
    ensures
        unfinished(groups) == 0 <==> all_done(groups),
    decreases groups.len(),
{
    if groups.len() > 0 {
        let front = groups.drop_last();
        assert forall|i: int| 0 <= i < front.len() implies (#[trigger] front[i]).1.completed
            <= front[i].1.total by {
            assert(front[i] == groups[i]);
        }
        lemma_unfinished_zero(front);
        if all_done(groups) {
            assert forall|i: int| 0 <= i < front.len() implies (#[trigger] front[i]).1.completed
                == front[i].1.total by {
                assert(front[i] == groups[i]);
            }
            assert(groups[groups.len() - 1].1.completed == groups.last().1.total);
        }
        if unfinished(groups) == 0 {
            assert forall|i: int| 0 <= i < groups.len() implies (#[trigger] groups[i]).1.completed
                == groups[i].1.total by {
                if i < front.len() {
                    assert(front[i] == groups[i]);
                }
            }
        }
    }
}

/// The single consumer of events and sole writer of group state.
pub struct Aggregator {
    roster: Roster,
    remaining: usize,
    state: RunState,
}

impl View for Aggregator {
    type V = Snapshot;

    closed spec fn view(&self) -> Snapshot {
        Snapshot { groups: self.roster@, state: self.state }
    }
}

impl Aggregator {
    /// The snapshot is consistent, and the count of unfinished groups that
    /// the aggregator keeps is right.
    pub closed spec fn wf(&self) -> bool {
        &&& self@.wf()
        &&& self.remaining == unfinished(self.roster@)
    }

    /// What `wf` says of the snapshot.
    pub proof fn lemma_wf(&self)
        requires
            self.wf(),
        ensures
            self@.wf(),
    {
    }

    /// Takes charge of the groups of a run. The run begins in the state that
    /// the groups determine: completed at once where no group has a file
    /// outstanding.
    pub fn new(roster: Roster) -> (a: Aggregator)
        requires
            roster.wf(),
        ensures
            a@ == Snapshot::initial(roster@),
            a.wf(),
    {
        let n = roster.len();
        let mut remaining: usize = 0;
        let mut errored = false;
        let mut i: usize = 0;
        while i < n
            invariant
                n == roster@.len(),
                i <= n,
                remaining == unfinished(roster@.take(i as int)),
                remaining <= i,
                errored == any_errored(roster@.take(i as int)),
            decreases n - i,
        {
            let (_, group) = roster.at(i);
            proof {
                let now = roster@.take(i as int);
                let next = roster@.take(i as int + 1);
                assert(next.drop_last() =~= now);
                assert(next.last() == roster@[i as int]);
                if any_errored(now) {
                    let k = choose|k: int| 0 <= k < now.len() && (#[trigger] now[k]).1.last_error is Some;
                    assert(next[k] == now[k]);
                }
                if any_errored(next) {
                    let k = choose|k: int|
                        0 <= k < next.len() && (#[trigger] next[k]).1.last_error is Some;
                    if k < i {
                        assert(now[k] == next[k]);
                    }
                }
                if roster@[i as int].1.last_error is Some {
                    assert(next[i as int].1.last_error is Some);
                }
            }
            if group.completed() < group.total() {
                remaining = remaining + 1;
            }
            if group.last_error().is_some() {
                errored = true;
            }
            i = i + 1;
        }
        proof {
            assert(roster@.take(n as int) =~= roster@);
            lemma_unfinished_zero(roster@);
        }
        let state = if errored {
            RunState::Failed
        } else if remaining == 0 {
            RunState::Completed
        } else {
            RunState::Running
        };
        Aggregator { roster, remaining, state }
    }

    /// The state of the run.
    pub fn state(&self) -> (s: RunState)
        ensures
            s == self@.state,
    {
        self.state
    }

    /// The groups, for reading.
    pub fn roster(&self) -> (r: &Roster)
        ensures
            r@ == self@.groups,
            self.wf() ==> r.wf(),
    {
        &self.roster
    }

    /// Whether the event is about no group or about one of this run.
    pub fn recognizes(&self, event: &Event) -> (b: bool)
        ensures
            b == self@.recognizes(event@),
    {
        match event.subject() {
            Some(id) => self.roster.contains(id),
            None => true,
        }
    }

    /// Takes one event and says in what state it leaves the run. An event
    /// about a group that the run does not have changes nothing.
    pub fn apply(&mut self, event: Event) -> (s: RunState)
        requires
            old(self).wf(),
        ensures
            final(self)@ == old(self)@.after(event@),
            final(self).wf(),
            s == final(self)@.state,
    {
        if self.state != RunState::Running {
            return self.state;
        }
        match event {
            Event::Quit => {
                self.state = RunState::Interrupted;
            },
            Event::Progress { group, file } => {
                let live = match self.roster.get(group) {
                    Some(g) => !g.is_terminal(),
                    None => false,
                };
                if live {
                    let ghost before = self.roster@;
                    let ghost at = slot(before, group);
                    self.roster.record_progress(group, file);
                    proof {
                        lemma_unfinished_update(before, at, self.roster@[at]);
                        lemma_unfinished_zero(self.roster@);
                        assert(!any_errored(before));
                        assert forall|k: int| 0 <= k < self.roster@.len() implies (
                        #[trigger] self.roster@[k]).1.last_error is None by {
                            if k != at {
                                assert(before[k].1.last_error is None);
                            }
                        }
                    }
                    let done = match self.roster.get(group) {
                        Some(g) => g.completed() == g.total(),
                        None => false,
                    };
                    proof {
                        crate::roster::lemma_slot_is_position(self.roster@, at);
                    }
                    if done {
                        self.remaining = self.remaining - 1;
                    }
                    if self.remaining == 0 {
                        self.state = RunState::Completed;
                    }
                }
            },
            Event::Failure { group, error } => {
                let live = match self.roster.get(group) {
                    Some(g) => !g.is_terminal(),
                    None => false,
                };
                if live {
                    let ghost before = self.roster@;
                    let ghost at = slot(before, group);
                    self.roster.record_failure(group, error);
                    proof {
                        lemma_unfinished_update(before, at, self.roster@[at]);
                        assert(self.roster@[at].1.last_error is Some);
                    }
                    self.state = RunState::Failed;
                }
            },
        }
        self.state
    }
}

} // verus!
