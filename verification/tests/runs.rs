use batch_convert::aggregator::RunState;
use batch_convert::event::Event;
use batch_convert::group::GroupState;
use batch_convert::plan::{plan, Listing, WorkItem};
use batch_convert::session::Session;
use batch_convert::worker::report;

fn listing(path: &str, files: &[&str]) -> Listing {
    Listing { path: path.to_string(), files: files.iter().map(|f| f.to_string()).collect() }
}

fn two_groups() -> Session {
    let listings = vec![
        listing("in/A", &["in/A/1.txt", "in/A/2.txt", "in/A/3.txt"]),
        listing("in/B", &["in/B/1.HEIC", "in/B/2.HEIC"]),
    ];
    match plan("out", &listings) {
        Ok(p) => Session::new(p, 10),
        Err(_) => panic!("the plan can be made"),
    }
}

fn start_all(session: &mut Session) -> Vec<WorkItem> {
    let mut items = Vec::new();
    while let Some(item) = session.next_start() {
        items.push(item);
    }
    items
}

fn counts(session: &Session, id: usize) -> (usize, usize, GroupState) {
    let g = session.aggregator().roster().get(id).unwrap();
    (g.completed(), g.total(), g.state())
}

#[test]
fn two_groups_run_to_completion() {
    let mut session = two_groups();
    assert_eq!(counts(&session, 0), (0, 3, GroupState::Pending));
    assert_eq!(counts(&session, 1), (0, 2, GroupState::Pending));
    assert_eq!(session.state(), RunState::Running);
    assert_eq!(session.open(), "\x1b[?25l\n\r\n\r");

    let items = start_all(&mut session);
    assert_eq!(items.len(), 5);
    let mut last = None;
    for item in items {
        let event = report(item, Ok(()));
        assert!(session.recognizes(&event));
        let turn = session.handle(event);
        assert!(turn.frame.starts_with("\x1b[2A"));
        last = Some(turn);
    }
    let last = last.unwrap();
    assert_eq!(last.state, RunState::Completed);
    assert_eq!(last.exit, Some(0));
    assert_eq!(counts(&session, 0), (3, 3, GroupState::Done));
    assert_eq!(counts(&session, 1), (2, 2, GroupState::Done));
    assert_eq!(session.close(), "\x1b[?25h");
    assert_eq!(
        last.frame,
        "\x1b[2A\x1b[2K\x1b[38;5;10mA | 0003/0003  \r\n\x1b[2K\x1b[38;5;10mB | 0002/0002  \r\n"
    );
}

#[test]
fn a_file_that_cannot_be_decoded_fails_the_run() {
    let mut session = two_groups();
    let items = start_all(&mut session);
    let (a, b): (Vec<WorkItem>, Vec<WorkItem>) = items.into_iter().partition(|i| i.group == 0);
    for item in a {
        let turn = session.handle(report(item, Ok(())));
        assert_eq!(turn.exit, None);
    }
    assert_eq!(counts(&session, 0), (3, 3, GroupState::Done));
    let mut b = b.into_iter();
    let turn = session.handle(report(b.next().unwrap(), Err("not an image".to_string())));
    assert_eq!(turn.state, RunState::Failed);
    assert_eq!(turn.exit, Some(1));
    assert_eq!(counts(&session, 0), (3, 3, GroupState::Done));
    assert_eq!(counts(&session, 1), (0, 2, GroupState::Errored));
    assert_eq!(
        session.aggregator().roster().get(1).unwrap().last_error(),
        Some("not an image")
    );
    assert!(turn.frame.ends_with("\x1b[2K\x1b[38;5;1mB | 0000/0002  not an image\r\n"));
    assert_eq!(session.close(), "\x1b[?25h\r\n");
}

#[test]
fn an_interrupt_ends_the_run_at_once() {
    let mut session = two_groups();
    let mut items = start_all(&mut session).into_iter();
    session.handle(report(items.next().unwrap(), Ok(())));
    let turn = session.handle(Event::Quit);
    assert_eq!(turn.state, RunState::Interrupted);
    assert_eq!(turn.exit, Some(1));
    assert!(!turn.frame.is_empty());
    assert_eq!(counts(&session, 0), (1, 3, GroupState::InProgress));

    // tasks that end afterwards are neither counted nor drawn
    let late = session.handle(report(items.next().unwrap(), Ok(())));
    assert_eq!(late.state, RunState::Interrupted);
    assert_eq!(late.exit, Some(1));
    assert_eq!(late.frame, "");
    assert_eq!(counts(&session, 0), (1, 3, GroupState::InProgress));
    assert!(session.next_start().is_none());
    assert_eq!(session.close(), "\x1b[?25h\r\n");
}

#[test]
fn nothing_is_started_once_the_run_has_failed() {
    let listings = vec![listing("in/A", &["in/A/1", "in/A/2", "in/A/3"])];
    let mut session = match plan("out", &listings) {
        Ok(p) => Session::new(p, 1),
        Err(_) => panic!("the plan can be made"),
    };
    let first = session.next_start().unwrap();
    assert!(session.next_start().is_none());
    session.handle(report(first, Err("boom".to_string())));
    assert_eq!(session.state(), RunState::Failed);
    assert!(session.next_start().is_none());
    assert_eq!(session.dispatcher().in_flight(0), 0);
}

#[test]
fn every_event_frees_a_permit_of_its_group() {
    let listings = vec![listing("in/A", &["in/A/1", "in/A/2", "in/A/3"])];
    let mut session = match plan("out", &listings) {
        Ok(p) => Session::new(p, 2),
        Err(_) => panic!("the plan can be made"),
    };
    let a = session.next_start().unwrap();
    let b = session.next_start().unwrap();
    assert!(session.next_start().is_none());
    assert_eq!(session.dispatcher().in_flight(0), 2);
    session.handle(report(a, Ok(())));
    assert_eq!(session.dispatcher().in_flight(0), 1);
    let c = session.next_start().unwrap();
    assert_eq!(c.source, "in/A/3");
    session.handle(report(b, Ok(())));
    let turn = session.handle(report(c, Ok(())));
    assert_eq!(turn.state, RunState::Completed);
    assert_eq!(session.dispatcher().in_flight(0), 0);
}

#[test]
fn running_twice_ends_alike() {
    let mut ends = Vec::new();
    for reversed in [false, true] {
        let mut session = two_groups();
        let mut items = start_all(&mut session);
        if reversed {
            items.reverse();
        }
        for item in items {
            session.handle(report(item, Ok(())));
        }
        ends.push((session.state(), counts(&session, 0), counts(&session, 1)));
    }
    assert_eq!(ends[0], ends[1]);
    assert_eq!(ends[0].0, RunState::Completed);
}

#[test]
fn a_run_of_empty_groups_is_over_before_it_begins() {
    let listings = vec![listing("in/A", &[]), listing("in/.MISC", &["in/.MISC/x"])];
    let mut session = match plan("out", &listings) {
        Ok(p) => Session::new(p, 10),
        Err(_) => panic!("the plan can be made"),
    };
    assert_eq!(session.state(), RunState::Completed);
    assert!(session.next_start().is_none());
    assert_eq!(counts(&session, 0), (0, 0, GroupState::Done));
    assert_eq!(session.open(), "\x1b[?25l\n\r");
}
