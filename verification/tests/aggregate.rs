use batch_convert::aggregator::{exit_status, Aggregator, RunState};
use batch_convert::event::Event;
use batch_convert::group::{Group, GroupState};
use batch_convert::roster::Roster;

fn roster_of(groups: &[(usize, &str, usize)]) -> Roster {
    let mut roster = Roster::new();
    for (id, name, total) in groups {
        assert!(roster.enroll(*id, Group::new(name.to_string(), *total)));
    }
    roster
}

fn progress(group: usize, file: &str) -> Event {
    Event::Progress { group, file: file.to_string() }
}

fn failure(group: usize, error: &str) -> Event {
    Event::Failure { group, error: error.to_string() }
}

#[test]
fn a_new_group_is_pending() {
    let g = Group::new("holiday".to_string(), 4);
    assert_eq!(g.name(), "holiday");
    assert_eq!(g.total(), 4);
    assert_eq!(g.completed(), 0);
    assert_eq!(g.last_file(), None);
    assert_eq!(g.last_error(), None);
    assert_eq!(g.state(), GroupState::Pending);
    assert!(!g.is_terminal());
}

#[test]
fn a_group_without_files_is_done_at_once() {
    let g = Group::new("empty".to_string(), 0);
    assert_eq!(g.state(), GroupState::Done);
    assert!(g.is_terminal());
}

#[test]
fn the_roster_keeps_the_order_of_enrolment() {
    let roster = roster_of(&[(5, "e", 1), (2, "b", 2), (9, "i", 3)]);
    assert_eq!(roster.len(), 3);
    let ids: Vec<usize> = (0..3).map(|i| roster.at(i).0).collect();
    assert_eq!(ids, vec![5, 2, 9]);
    assert_eq!(roster.at(1).1.name(), "b");
    assert_eq!(roster.at(2).1.total(), 3);
}

#[test]
fn the_roster_takes_an_identifier_once() {
    let mut roster = roster_of(&[(1, "first", 2)]);
    assert!(!roster.enroll(1, Group::new("second".to_string(), 7)));
    assert_eq!(roster.len(), 1);
    assert_eq!(roster.get(1).unwrap().name(), "first");
    assert_eq!(roster.get(1).unwrap().total(), 2);
}

#[test]
fn the_roster_finds_groups_by_identifier() {
    let roster = roster_of(&[(4, "d", 1), (0, "a", 6)]);
    assert!(roster.contains(4));
    assert!(roster.contains(0));
    assert!(!roster.contains(1));
    assert_eq!(roster.get(0).unwrap().name(), "a");
    assert!(roster.get(3).is_none());
}

#[test]
fn progress_counts_for_its_group_only() {
    let mut agg = Aggregator::new(roster_of(&[(0, "a", 3), (1, "b", 2)]));
    assert_eq!(agg.state(), RunState::Running);
    assert_eq!(agg.apply(progress(1, "in/b/x")), RunState::Running);
    let a = agg.roster().get(0).unwrap();
    let b = agg.roster().get(1).unwrap();
    assert_eq!(a.completed(), 0);
    assert_eq!(a.state(), GroupState::Pending);
    assert_eq!(a.last_file(), None);
    assert_eq!(b.completed(), 1);
    assert_eq!(b.total(), 2);
    assert_eq!(b.state(), GroupState::InProgress);
    assert_eq!(b.last_file(), Some("in/b/x"));
    assert_eq!(agg.roster().at(0).0, 0);
    assert_eq!(agg.roster().at(1).0, 1);
}

#[test]
fn the_last_file_is_cleared_when_a_group_is_done() {
    let mut agg = Aggregator::new(roster_of(&[(0, "a", 2), (1, "b", 1)]));
    agg.apply(progress(0, "one"));
    assert_eq!(agg.roster().get(0).unwrap().last_file(), Some("one"));
    agg.apply(progress(0, "two"));
    let a = agg.roster().get(0).unwrap();
    assert_eq!(a.completed(), 2);
    assert_eq!(a.state(), GroupState::Done);
    assert_eq!(a.last_file(), None);
    assert_eq!(agg.state(), RunState::Running);
}

#[test]
fn the_run_completes_with_the_last_file() {
    let mut agg = Aggregator::new(roster_of(&[(0, "a", 1), (1, "b", 1)]));
    assert_eq!(agg.apply(progress(1, "y")), RunState::Running);
    assert_eq!(agg.apply(progress(0, "x")), RunState::Completed);
    assert_eq!(agg.state(), RunState::Completed);
    assert_eq!(exit_status(agg.state()), Some(0));
}

#[test]
fn a_failure_fails_the_run_and_marks_the_group() {
    let mut agg = Aggregator::new(roster_of(&[(0, "a", 1), (1, "b", 2)]));
    agg.apply(progress(0, "x"));
    assert_eq!(agg.apply(failure(1, "cannot decode")), RunState::Failed);
    let a = agg.roster().get(0).unwrap();
    let b = agg.roster().get(1).unwrap();
    assert_eq!(a.state(), GroupState::Done);
    assert_eq!(a.completed(), 1);
    assert_eq!(b.state(), GroupState::Errored);
    assert_eq!(b.last_error(), Some("cannot decode"));
    assert_eq!(b.completed(), 0);
    assert_eq!(exit_status(agg.state()), Some(1));
}

#[test]
fn a_failure_keeps_the_last_file() {
    let mut agg = Aggregator::new(roster_of(&[(3, "c", 3)]));
    agg.apply(progress(3, "first"));
    agg.apply(failure(3, "disk full"));
    let c = agg.roster().get(3).unwrap();
    assert_eq!(c.completed(), 1);
    assert_eq!(c.last_file(), Some("first"));
    assert_eq!(c.last_error(), Some("disk full"));
    assert!(c.is_terminal());
}

#[test]
fn quit_interrupts_a_running_run() {
    let mut agg = Aggregator::new(roster_of(&[(0, "a", 2)]));
    agg.apply(progress(0, "x"));
    assert_eq!(agg.apply(Event::Quit), RunState::Interrupted);
    assert_eq!(exit_status(agg.state()), Some(1));
    assert_eq!(agg.roster().get(0).unwrap().completed(), 1);
}

#[test]
fn a_run_that_is_over_takes_no_more_events() {
    let mut agg = Aggregator::new(roster_of(&[(0, "a", 3)]));
    agg.apply(progress(0, "x"));
    agg.apply(Event::Quit);
    assert_eq!(agg.apply(progress(0, "y")), RunState::Interrupted);
    assert_eq!(agg.apply(failure(0, "late")), RunState::Interrupted);
    let a = agg.roster().get(0).unwrap();
    assert_eq!(a.completed(), 1);
    assert_eq!(a.last_file(), Some("x"));
    assert_eq!(a.last_error(), None);
}

#[test]
fn a_completed_run_ignores_quit() {
    let mut agg = Aggregator::new(roster_of(&[(0, "a", 1)]));
    assert_eq!(agg.apply(progress(0, "x")), RunState::Completed);
    assert_eq!(agg.apply(Event::Quit), RunState::Completed);
}

#[test]
fn a_done_group_is_not_changed_again() {
    let mut agg = Aggregator::new(roster_of(&[(0, "a", 1), (1, "b", 5)]));
    agg.apply(progress(0, "x"));
    assert_eq!(agg.apply(progress(0, "again")), RunState::Running);
    assert_eq!(agg.apply(failure(0, "late")), RunState::Running);
    let a = agg.roster().get(0).unwrap();
    assert_eq!(a.completed(), 1);
    assert_eq!(a.state(), GroupState::Done);
    assert_eq!(a.last_file(), None);
    assert_eq!(a.last_error(), None);
}

#[test]
fn counts_never_pass_their_totals() {
    let mut agg = Aggregator::new(roster_of(&[(0, "a", 2), (1, "b", 9)]));
    let mut seen = 0;
    for i in 0..6 {
        agg.apply(progress(0, &format!("f{}", i)));
        let now = agg.roster().get(0).unwrap().completed();
        assert!(now >= seen);
        assert!(now <= 2);
        seen = now;
    }
    assert_eq!(seen, 2);
}

#[test]
fn a_run_without_files_is_complete_from_the_start() {
    let agg = Aggregator::new(roster_of(&[(0, "a", 0), (1, "b", 0)]));
    assert_eq!(agg.state(), RunState::Completed);
    let none = Aggregator::new(Roster::new());
    assert_eq!(none.state(), RunState::Completed);
}

#[test]
fn an_empty_group_does_not_hold_up_the_run() {
    let mut agg = Aggregator::new(roster_of(&[(0, "empty", 0), (1, "b", 1)]));
    assert_eq!(agg.state(), RunState::Running);
    assert_eq!(agg.roster().get(0).unwrap().state(), GroupState::Done);
    assert_eq!(agg.apply(progress(1, "x")), RunState::Completed);
}

#[test]
fn the_order_of_reports_does_not_change_the_end() {
    let orders: [[usize; 5]; 3] = [[0, 0, 0, 1, 1], [1, 0, 1, 0, 0], [0, 1, 0, 1, 0]];
    for order in orders {
        let mut agg = Aggregator::new(roster_of(&[(0, "a", 3), (1, "b", 2)]));
        for (n, group) in order.iter().enumerate() {
            agg.apply(progress(*group, &format!("file{}", n)));
        }
        assert_eq!(agg.state(), RunState::Completed);
        let a = agg.roster().get(0).unwrap();
        let b = agg.roster().get(1).unwrap();
        assert_eq!((a.completed(), a.total()), (3, 3));
        assert_eq!((b.completed(), b.total()), (2, 2));
        assert_eq!(a.last_file(), None);
        assert_eq!(b.last_file(), None);
    }
}

#[test]
fn events_about_unknown_groups_are_told_apart() {
    let agg = Aggregator::new(roster_of(&[(2, "c", 1)]));
    assert!(agg.recognizes(&progress(2, "x")));
    assert!(agg.recognizes(&Event::Quit));
    assert!(!agg.recognizes(&progress(0, "x")));
    assert!(!agg.recognizes(&failure(7, "e")));
}

#[test]
fn an_event_names_its_group() {
    assert_eq!(progress(4, "x").subject(), Some(4));
    assert_eq!(failure(6, "e").subject(), Some(6));
    assert_eq!(Event::Quit.subject(), None);
}

#[test]
fn a_running_run_has_no_exit_status() {
    assert_eq!(exit_status(RunState::Running), None);
    assert_eq!(exit_status(RunState::Completed), Some(0));
    assert_eq!(exit_status(RunState::Failed), Some(1));
    assert_eq!(exit_status(RunState::Interrupted), Some(1));
}

#[test]
fn a_roster_with_a_failed_group_starts_failed() {
    let mut agg = Aggregator::new(roster_of(&[(0, "a", 2)]));
    agg.apply(failure(0, "bad"));
    assert_eq!(agg.state(), RunState::Failed);
}

#[test]
fn an_event_about_an_unknown_group_changes_nothing() {
    let mut agg = Aggregator::new(roster_of(&[(2, "c", 2)]));
    assert_eq!(agg.apply(progress(0, "x")), RunState::Running);
    assert_eq!(agg.apply(failure(9, "e")), RunState::Running);
    let c = agg.roster().get(2).unwrap();
    assert_eq!(c.completed(), 0);
    assert_eq!(c.last_error(), None);
    assert_eq!(agg.roster().len(), 1);
}
