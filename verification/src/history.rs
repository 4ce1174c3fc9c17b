//! What holds of a run along any sequence of events: counters only grow and
//! stay within their totals, a finished or failed group is never changed
//! again, empty groups hold nothing up, and a run in which every file
//! succeeds ends completed, in whatever order the files report.

use crate::aggregator::{all_done, any_errored, settle, RunState, Snapshot};
use crate::event::EventView;
use crate::group::{GroupState, GroupView};
use crate::roster::{distinct_ids, knows, lemma_slot_is_position, roster_wf, slot};
use vstd::prelude::*;

verus! {

/// The run after a sequence of events, taken in order.
pub open spec fn replay(s: Snapshot, events: Seq<EventView>) -> Snapshot
    decreases events.len(),
{
    if events.len() == 0 {
        s
    } else {
        replay(s.after(events[0]), events.drop_first())
    }
}

/// `later` has the groups of `earlier`, under the same identifiers, names and
/// totals, and no group has fewer files behind it.
pub open spec fn continues(earlier: Snapshot, later: Snapshot) -> bool {
    &&& later.groups.len() == earlier.groups.len()
    &&& forall|i: int|
        0 <= i < earlier.groups.len() ==> {
            &&& (#[trigger] later.groups[i]).0 == earlier.groups[i].0
            &&& later.groups[i].1.name == earlier.groups[i].1.name
            &&& later.groups[i].1.total == earlier.groups[i].1.total
            &&& earlier.groups[i].1.completed <= later.groups[i].1.completed
            &&& later.groups[i].1.completed <= later.groups[i].1.total
        }
}

/// One event leaves a consistent run consistent; it adds and removes no
/// group, renames none, changes no total, and never lowers a count, which
/// stays within its total.
pub proof fn lemma_event_keeps_counts(s: Snapshot, e: EventView)
    requires
        s.wf(),
    ensures
        s.after(e).wf(),
        continues(s, s.after(e)),
{
    let t = s.after(e);
    if t != s && !(e is Quit) {
        let id = e.subject()->0;
        let at = slot(s.groups, id);
        assert(s.groups[at].0 == id);
        assert forall|i: int| 0 <= i < t.groups.len() implies (#[trigger] t.groups[i]).1.wf() by {
            if i != at {
                assert(t.groups[i] == s.groups[i]);
            }
        }
        assert(distinct_ids(t.groups)) by {
            assert forall|i: int, j: int|
                0 <= i < t.groups.len() && 0 <= j < t.groups.len() && i != j implies (
            #[trigger] t.groups[i]).0 != (#[trigger] t.groups[j]).0 by {
                assert(t.groups[i].0 == s.groups[i].0);
                assert(t.groups[j].0 == s.groups[j].0);
            }
        }
    }
}

/// Along any sequence of events the run stays consistent, keeps its groups,
/// and no count ever goes down or beyond its total.
pub proof fn lemma_history_keeps_counts(s: Snapshot, events: Seq<EventView>)
    requires
        s.wf(),
    ensures
        replay(s, events).wf(),
        continues(s, replay(s, events)),
    decreases events.len(),
{
    if events.len() > 0 {
        lemma_event_keeps_counts(s, events[0]);
        lemma_history_keeps_counts(s.after(events[0]), events.drop_first());
    }
}

/// A consistent group is done exactly when all of its files are behind it.
pub proof fn lemma_done_iff_complete(g: GroupView)
    requires
        g.wf(),
    ensures
        g.state() == GroupState::Done <==> g.completed == g.total,
{
}

/// A group that is done or has failed is left as it is by every event.
pub proof fn lemma_terminal_group_is_final(s: Snapshot, e: EventView, i: int)
    requires
        s.wf(),
        0 <= i < s.groups.len(),
        s.groups[i].1.terminal(),
    ensures
        s.after(e).groups.len() == s.groups.len(),
        s.after(e).groups[i] == s.groups[i],
{
    let t = s.after(e);
    if t != s && !(e is Quit) {
        let id = e.subject()->0;
        let at = slot(s.groups, id);
        assert(s.groups[at].0 == id);
        lemma_slot_is_position(s.groups, i);
    }
}

/// Once a group is done or has failed, no sequence of events changes it: it
/// reaches its final state once and does not leave it.
pub proof fn lemma_terminal_group_stays(s: Snapshot, events: Seq<EventView>, i: int)
    requires
        s.wf(),
        0 <= i < s.groups.len(),
        s.groups[i].1.terminal(),
    ensures
        replay(s, events).groups.len() == s.groups.len(),
        replay(s, events).groups[i] == s.groups[i],
    decreases events.len(),
{
    if events.len() > 0 {
        lemma_event_keeps_counts(s, events[0]);
        lemma_terminal_group_is_final(s, events[0], i);
        lemma_terminal_group_stays(s.after(events[0]), events.drop_first(), i);
    }
}

/// Replaying a sequence is replaying its beginning and then its rest.
pub proof fn lemma_replay_split(s: Snapshot, events: Seq<EventView>, j: int)
    requires
        0 <= j <= events.len(),
    ensures
        replay(s, events) == replay(replay(s, events.take(j)), events.skip(j)),
    decreases j,
{
    if j == 0 {
        assert(events.take(0) =~= Seq::<EventView>::empty());
        assert(events.skip(0) =~= events);
    } else {
        let rest = events.drop_first();
        assert(events.take(j)[0] == events[0]);
        assert(events.take(j).drop_first() =~= rest.take(j - 1));
        assert(events.skip(j) =~= rest.skip(j - 1));
        lemma_replay_split(s.after(events[0]), rest, j - 1);
    }
}

/// If a group is done or has failed after the first `j` events of a
/// sequence, it is the same after any longer beginning of it.
pub proof fn lemma_final_state_is_kept(
    s: Snapshot,
    events: Seq<EventView>,
    j: int,
    k: int,
    i: int,
)
    requires
        s.wf(),
        0 <= j <= k <= events.len(),
        0 <= i < s.groups.len(),
        replay(s, events.take(j)).groups[i].1.terminal(),
    ensures
        replay(s, events.take(k)).groups.len() == s.groups.len(),
        replay(s, events.take(k)).groups[i] == replay(s, events.take(j)).groups[i],
{
    lemma_history_keeps_counts(s, events.take(j));
    let mid = replay(s, events.take(j));
    assert(events.take(k).take(j) =~= events.take(j));
    lemma_replay_split(s, events.take(k), j);
    lemma_terminal_group_stays(mid, events.take(k).skip(j), i);
}

/// A group without files is done from the start.
pub proof fn lemma_empty_group_is_done(name: Seq<char>)
    ensures
        GroupView::fresh(name, 0).wf(),
        GroupView::fresh(name, 0).state() == GroupState::Done,
{
}

/// A group without files does not change the state that the other groups
/// determine: it cannot keep a run from completing.
pub proof fn lemma_empty_group_never_blocks(
    groups: Seq<(usize, GroupView)>,
    id: usize,
    name: Seq<char>,
)
    ensures
        settle(groups.push((id, GroupView::fresh(name, 0)))) == settle(groups),
{
    let more = groups.push((id, GroupView::fresh(name, 0)));
    if any_errored(groups) {
        let k = choose|k: int| 0 <= k < groups.len() && (#[trigger] groups[k]).1.last_error is Some;
        assert(more[k] == groups[k]);
    }
    if any_errored(more) {
        let k = choose|k: int| 0 <= k < more.len() && (#[trigger] more[k]).1.last_error is Some;
        assert(more[k] == groups[k]);
    }
    if all_done(groups) {
        assert forall|i: int| 0 <= i < more.len() implies (#[trigger] more[i]).1.completed
            == more[i].1.total by {
            if i < groups.len() {
                assert(more[i] == groups[i]);
            }
        }
    }
    if all_done(more) {
        assert forall|i: int| 0 <= i < groups.len() implies (#[trigger] groups[i]).1.completed
            == groups[i].1.total by {
            assert(more[i] == groups[i]);
        }
    }
}

/// A run whose groups are all without files is complete before any event.
pub proof fn lemma_nothing_to_do_is_complete(groups: Seq<(usize, GroupView)>)
    requires
        forall|i: int|
            0 <= i < groups.len() ==> (#[trigger] groups[i]).1 == GroupView::fresh(
                groups[i].1.name,
                0,
            ),
    ensures
        Snapshot::initial(groups).state == RunState::Completed,
{
    assert forall|i: int| 0 <= i < groups.len() implies (#[trigger] groups[i]).1.last_error
        is None by {}
}

/// How many of the events report progress for the group that goes by `id`.
pub open spec fn deliveries(events: Seq<EventView>, id: usize) -> nat
    decreases events.len(),
{
    if events.len() == 0 {
        0
    } else {
        let here: nat = if events[0] == (EventView::Progress { group: id, file: events[0]->Progress_file }) {
            1
        } else {
            0
        };
        here + deliveries(events.drop_first(), id)
    }
}

/// The events report success for exactly the files that are outstanding:
/// each is progress for a group of the run, and each group receives as many
/// as it still lacks.
pub open spec fn delivers_outstanding(s: Snapshot, events: Seq<EventView>) -> bool {
    &&& forall|k: int|
        0 <= k < events.len() ==> (#[trigger] events[k]) is Progress && knows(
            s.groups,
            events[k]->Progress_group,
        )
    &&& forall|i: int|
        0 <= i < s.groups.len() ==> (#[trigger] s.groups[i]).1.completed + deliveries(
            events,
            s.groups[i].0,
        ) == s.groups[i].1.total
}

/// The groups with every one of them finished.
pub open spec fn all_finished(groups: Seq<(usize, GroupView)>) -> Seq<(usize, GroupView)> {
    Seq::new(groups.len(), |i: int| (groups[i].0, groups[i].1.finished()))
}

/// When every outstanding file reports success, the run ends completed with
/// every group at its total, whatever the order of the reports.
pub proof fn lemma_full_history_completes(s: Snapshot, events: Seq<EventView>)
    requires
        s.wf(),
        s.state == settle(s.groups),
        !any_errored(s.groups),
        delivers_outstanding(s, events),
    ensures
        replay(s, events) == (Snapshot {
            groups: all_finished(s.groups),
            state: RunState::Completed,
        }),
    decreases events.len(),
{
    if events.len() == 0 {
        assert forall|i: int| 0 <= i < s.groups.len() implies (#[trigger] s.groups[i]).1
            == s.groups[i].1.finished() by {
            assert(s.groups[i].1.wf());
            assert(s.groups[i].1.last_error is None);
        }
        assert(all_finished(s.groups) =~= s.groups);
        assert(all_done(s.groups));
    } else {
        let e = events[0];
        let rest = events.drop_first();
        let id = e->Progress_group;
        let at = slot(s.groups, id);
        assert(knows(s.groups, id));
        assert(s.groups[at].0 == id);
        assert(deliveries(events, id) >= 1);
        assert(s.groups[at].1.last_error is None);
        assert(s.groups[at].1.completed < s.groups[at].1.total);
        assert(!all_done(s.groups));
        assert(s.state == RunState::Running);
        let t = s.after(e);
        lemma_event_keeps_counts(s, e);
        assert(t.groups == s.groups.update(at, (id, s.groups[at].1.advanced(e->Progress_file))));
        assert forall|k: int| 0 <= k < t.groups.len() implies (#[trigger] t.groups[k]).1.last_error
            is None by {
            if k != at {
                assert(s.groups[k].1.last_error is None);
            }
        }
        assert forall|k: int| 0 <= k < rest.len() implies (#[trigger] rest[k]) is Progress && knows(
            t.groups,
            rest[k]->Progress_group,
        ) by {
            assert(rest[k] == events[k + 1]);
            let g = rest[k]->Progress_group;
            let w = slot(s.groups, g);
            assert(s.groups[w].0 == g);
            assert(t.groups[w].0 == g);
        }
        assert forall|i: int| 0 <= i < t.groups.len() implies (#[trigger] t.groups[i]).1.completed
            + deliveries(rest, t.groups[i].0) == t.groups[i].1.total by {
            assert(s.groups[i].1.completed + deliveries(events, s.groups[i].0)
                == s.groups[i].1.total);
            if i != at {
                assert(t.groups[i] == s.groups[i]);
                assert(s.groups[i].0 != id);
            }
        }
        lemma_full_history_completes(t, rest);
        assert(all_finished(t.groups) =~= all_finished(s.groups));
    }
}

/// Two runs over the same groups, each with a success reported for every
/// file, end alike: completed, with the same counts.
pub proof fn lemma_reruns_agree(
    groups: Seq<(usize, GroupView)>,
    first: Seq<EventView>,
    second: Seq<EventView>,
)
    requires
        roster_wf(groups),
        !any_errored(groups),
        delivers_outstanding(Snapshot::initial(groups), first),
        delivers_outstanding(Snapshot::initial(groups), second),
    ensures
        replay(Snapshot::initial(groups), first) == replay(Snapshot::initial(groups), second),
        replay(Snapshot::initial(groups), first).state == RunState::Completed,
{
    lemma_full_history_completes(Snapshot::initial(groups), first);
    lemma_full_history_completes(Snapshot::initial(groups), second);
}

} // verus!
