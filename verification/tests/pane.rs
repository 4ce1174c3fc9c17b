use batch_convert::aggregator::{Aggregator, RunState};
use batch_convert::event::Event;
use batch_convert::group::Group;
use batch_convert::render::{close_pane, cursor_to_top, open_pane, render, render_line};
use batch_convert::roster::Roster;

const CLEAR: &str = "\x1b[2K";
const GRAY: &str = "\x1b[38;5;8m";
const RED: &str = "\x1b[38;5;1m";
const GREEN: &str = "\x1b[38;5;10m";
const BLUE: &str = "\x1b[38;5;12m";

fn after(groups: &[(usize, &str, usize)], events: Vec<Event>) -> Aggregator {
    let mut roster = Roster::new();
    for (id, name, total) in groups {
        roster.enroll(*id, Group::new(name.to_string(), *total));
    }
    let mut agg = Aggregator::new(roster);
    for e in events {
        agg.apply(e);
    }
    agg
}

fn progress(group: usize, file: &str) -> Event {
    Event::Progress { group, file: file.to_string() }
}

#[test]
fn a_pending_group_is_blue() {
    let g = Group::new("Trip".to_string(), 3);
    assert_eq!(render_line(&g), format!("{}{}Trip | 0000/0003  \r\n", CLEAR, BLUE));
}

#[test]
fn a_group_without_files_is_gray() {
    let g = Group::new("Nothing".to_string(), 0);
    assert_eq!(render_line(&g), format!("{}{}Nothing | 0000/0000  \r\n", CLEAR, GRAY));
}

#[test]
fn a_group_in_progress_shows_its_last_file() {
    let agg = after(&[(0, "Trip", 12)], vec![progress(0, "in/Trip/a.HEIC")]);
    let line = render_line(agg.roster().get(0).unwrap());
    assert_eq!(line, format!("{}{}Trip | 0001/0012  [in/Trip/a.HEIC] \r\n", CLEAR, BLUE));
}

#[test]
fn a_done_group_is_green() {
    let agg = after(&[(0, "Trip", 2), (1, "Other", 1)], vec![progress(0, "a"), progress(0, "b")]);
    let line = render_line(agg.roster().get(0).unwrap());
    assert_eq!(line, format!("{}{}Trip | 0002/0002  \r\n", CLEAR, GREEN));
}

#[test]
fn a_failed_group_is_red_and_shows_the_error() {
    let agg = after(
        &[(0, "Trip", 5)],
        vec![progress(0, "a"), Event::Failure { group: 0, error: "no such file".to_string() }],
    );
    let line = render_line(agg.roster().get(0).unwrap());
    assert_eq!(line, format!("{}{}Trip | 0001/0005  [a] no such file\r\n", CLEAR, RED));
}

#[test]
fn counts_are_padded_to_four_digits_and_no_further() {
    let g = Group::new("n".to_string(), 7);
    assert!(render_line(&g).contains(" | 0000/0007 "));
    let g = Group::new("n".to_string(), 42);
    assert!(render_line(&g).contains(" | 0000/0042 "));
    let g = Group::new("n".to_string(), 999);
    assert!(render_line(&g).contains(" | 0000/0999 "));
    let g = Group::new("n".to_string(), 1000);
    assert!(render_line(&g).contains(" | 0000/1000 "));
    let g = Group::new("n".to_string(), 9999);
    assert!(render_line(&g).contains(" | 0000/9999 "));
    let g = Group::new("n".to_string(), 10000);
    assert!(render_line(&g).contains(" | 0000/10000 "));
    let g = Group::new("n".to_string(), 1234567);
    assert!(render_line(&g).contains(" | 0000/1234567 "));
    let g = Group::new("n".to_string(), usize::MAX);
    assert!(render_line(&g).contains(&format!(" | 0000/{} ", usize::MAX)));
}

#[test]
fn the_cursor_goes_up_by_the_number_of_rows() {
    assert_eq!(cursor_to_top(1), "\x1b[1A");
    assert_eq!(cursor_to_top(3), "\x1b[3A");
    assert_eq!(cursor_to_top(120), "\x1b[120A");
    assert_eq!(cursor_to_top(65535), "\x1b[65535A");
}

#[test]
fn no_rows_need_no_movement() {
    assert_eq!(cursor_to_top(0), "");
}

#[test]
fn many_rows_take_more_than_one_movement() {
    assert_eq!(cursor_to_top(65536), "\x1b[65535A\x1b[1A");
    assert_eq!(cursor_to_top(70000), "\x1b[65535A\x1b[4465A");
    assert_eq!(cursor_to_top(131070), "\x1b[65535A\x1b[65535A");
    assert_eq!(cursor_to_top(131071), "\x1b[65535A\x1b[65535A\x1b[1A");
}

#[test]
fn a_frame_has_a_line_for_every_group_in_order() {
    let agg = after(&[(0, "A", 3), (2, "B", 2), (3, "C", 0)], vec![progress(2, "in/B/x")]);
    let expected = format!(
        "\x1b[3A{c}{b}A | 0000/0003  \r\n{c}{b}B | 0001/0002  [in/B/x] \r\n{c}{g}C | 0000/0000  \r\n",
        c = CLEAR,
        b = BLUE,
        g = GRAY
    );
    assert_eq!(render(agg.roster()), expected);
}

#[test]
fn a_frame_without_groups_is_empty() {
    assert_eq!(render(&Roster::new()), "");
}

#[test]
fn opening_hides_the_cursor_and_sets_rows_aside() {
    assert_eq!(open_pane(0), "\x1b[?25l");
    assert_eq!(open_pane(1), "\x1b[?25l\n\r");
    assert_eq!(open_pane(3), "\x1b[?25l\n\r\n\r\n\r");
}

#[test]
fn closing_shows_the_cursor() {
    assert_eq!(close_pane(RunState::Completed), "\x1b[?25h");
    assert_eq!(close_pane(RunState::Running), "\x1b[?25h");
}

#[test]
fn closing_after_trouble_begins_a_new_line() {
    assert_eq!(close_pane(RunState::Failed), "\x1b[?25h\r\n");
    assert_eq!(close_pane(RunState::Interrupted), "\x1b[?25h\r\n");
}
