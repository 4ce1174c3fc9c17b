//! The live status pane: one line per group, in the order of the groups,
//! redrawn as a whole after every change.

use crate::aggregator::RunState;
use crate::group::{Group, GroupView};
use crate::roster::Roster;
use crate::term::{
    blue, blue_code, clear_line, clear_line_code, cursor_up, cursor_up_code, decimal, digit, gray,
    gray_code, green, green_code, hide_cursor, hide_cursor_code, red, red_code, show_cursor,
    show_cursor_code,
};
use vstd::prelude::*;
use vstd::string::StringExecFns;

verus! {

/// As many zeros as asked for.
pub open spec fn zeros(count: nat) -> Seq<char> {
    Seq::new(count, |i: int| '0')
}

/// A number in decimal, with zeros in front where it has fewer than `width`
/// digits.
pub open spec fn padded(n: nat, width: nat) -> Seq<char> {
    if decimal(n).len() < width {
        zeros((width - decimal(n).len()) as nat) + decimal(n)
    } else {
        decimal(n)
    }
}

/// The colour of a group's line: gray for a group without files, red for one
/// that has failed, green for one that is done, blue for any other.
pub open spec fn color_of(g: GroupView) -> Seq<char> {
    if g.total == 0 {
        gray_code()
    } else if g.last_error is Some {
        red_code()
    } else if g.completed == g.total {
        green_code()
    } else {
        blue_code()
    }
}

/// The last finished file in brackets after a blank, or nothing.
pub open spec fn file_note(g: GroupView) -> Seq<char> {
    match g.last_file {
        Some(file) => " ["@ + file + "]"@,
        None => Seq::empty(),
    }
}

/// The last failure, or nothing.
pub open spec fn error_note(g: GroupView) -> Seq<char> {
    match g.last_error {
        Some(error) => error,
        None => Seq::empty(),
    }
}

/// A group's line: the line is cleared and the colour set; then come the
/// name, the counts of finished and of all files in at least four digits
/// each, and the two notes; a carriage return and a line feed end it.
pub open spec fn line_of(g: GroupView) -> Seq<char> {
    clear_line_code() + color_of(g) + g.name + " | "@ + padded(g.completed, 4) + "/"@ + padded(
        g.total,
        4,
    ) + " "@ + file_note(g) + " "@ + error_note(g) + "\r\n"@
}

/// The lines of the groups, one after the other.
pub open spec fn lines_of(groups: Seq<(usize, GroupView)>) -> Seq<char>
    decreases groups.len(),
{
    if groups.len() == 0 {
        Seq::empty()
    } else {
        lines_of(groups.drop_last()) + line_of(groups.last().1)
    }
}

/// The most rows that one cursor movement can cover.
pub const MAX_CLIMB: u16 = 0xffff;

/// The movements that take the cursor up by `rows` lines: none for no rows,
/// and more than one where a single movement cannot cover them.
pub open spec fn climb(rows: nat) -> Seq<char>
    decreases rows,
{
    if rows == 0 {
        Seq::empty()
    } else if rows <= MAX_CLIMB {
        cursor_up_code(rows as u16)
    } else {
        cursor_up_code(MAX_CLIMB) + climb((rows - MAX_CLIMB) as nat)
    }
}

/// A redraw of the pane: the cursor goes to the top of the pane, then every
/// group's line is written anew.
pub open spec fn frame_of(groups: Seq<(usize, GroupView)>) -> Seq<char> {
    climb(groups.len()) + lines_of(groups)
}

/// As many empty rows as asked for: each a line feed and a carriage return.
pub open spec fn blank_rows(rows: nat) -> Seq<char>
    decreases rows,
{
    if rows == 0 {
        Seq::empty()
    } else {
        blank_rows((rows - 1) as nat) + "\n\r"@
    }
}

/// What opens the pane: the cursor is hidden and a row is set aside for every
/// group.
pub open spec fn opening_of(rows: nat) -> Seq<char> {
    hide_cursor_code() + blank_rows(rows)
}

/// What closes the pane: the cursor is shown again, and after a failure or an
/// interruption a new line is begun.
pub open spec fn closing_of(state: RunState) -> Seq<char> {
    if state == RunState::Failed || state == RunState::Interrupted {
        show_cursor_code() + "\r\n"@
    } else {
        show_cursor_code()
    }
}

/// The character for a digit.
fn digit_char(d: usize) -> (c: char)
    requires
        d < 10,
    ensures
        c == digit(d as nat),
{
    if d == 0 {
        '0'
    } else if d == 1 {
        '1'
    } else if d == 2 {
        '2'
    } else if d == 3 {
        '3'
    } else if d == 4 {
        '4'
    } else if d == 5 {
        '5'
    } else if d == 6 {
        '6'
    } else if d == 7 {
        '7'
    } else if d == 8 {
        '8'
    } else {
        '9'
    }
}

/// The number of decimal digits of a number.
fn digit_count(n: usize) -> (count: usize)
    ensures
        count == decimal(n as nat).len(),
{
    let mut count: usize = 1;
    let mut rest = n;
    while rest >= 10
        invariant
            count + decimal(rest as nat).len() == decimal(n as nat).len() + 1,
            count + rest <= n + 1,
        decreases rest,
    {
        rest = rest / 10;
        count = count + 1;
    }
    count
}

/// Appends a number in decimal.
fn push_decimal(out: &mut String, n: usize)
    ensures
        final(out)@ == old(out)@ + decimal(n as nat),
    decreases n,
{
    if n >= 10 {
        push_decimal(out, n / 10);
    }
    out.push(digit_char(n % 10));
    proof {
        if n >= 10 {
            assert(decimal(n as nat) == decimal((n / 10) as nat).push(digit((n % 10) as nat)));
        } else {
            assert(decimal(n as nat) == seq![digit(n as nat)]);
        }
        assert(out@ =~= old(out)@ + decimal(n as nat));
    }
}

/// Appends a number in decimal, with zeros in front where it has fewer than
/// `width` digits.
fn push_padded(out: &mut String, n: usize, width: usize)
    ensures
        final(out)@ == old(out)@ + padded(n as nat, width as nat),
{
    let mut have = digit_count(n);
    let ghost digits = have;
    while have < width
        invariant
            digits <= have,
            digits < width ==> have <= width,
            digits >= width ==> have == digits,
            out@ == old(out)@ + zeros((have - digits) as nat),
        decreases width - have,
    {
        out.push('0');
        proof {
            assert(out@ =~= old(out)@ + zeros((have + 1 - digits) as nat));
        }
        have = have + 1;
    }
    proof {
        assert(zeros(0) =~= Seq::<char>::empty());
    }
    let ghost before = out@;
    push_decimal(out, n);
    proof {
        if digits < width {
            assert(out@ =~= old(out)@ + (zeros((width - digits) as nat) + decimal(n as nat)));
        } else {
            assert(have == digits);
            assert(before =~= old(out)@);
        }
    }
}

/// The line of one group in the pane.
pub fn render_line(group: &Group) -> (line: String)
    ensures
        line@ == line_of(group@),
{
    let mut out = clear_line();
    if group.total() == 0 {
        out.append(gray());
    } else if group.last_error().is_some() {
        out.append(red());
    } else if group.completed() == group.total() {
        out.append(green());
    } else {
        out.append(blue());
    }
    out.append(group.name());
    out.append(" | ");
    push_padded(&mut out, group.completed(), 4);
    out.append("/");
    push_padded(&mut out, group.total(), 4);
    out.append(" ");
    let ghost head = out@;
    match group.last_file() {
        Some(file) => {
            out.append(" [");
            out.append(file);
            out.append("]");
        },
        None => {},
    }
    proof {
        assert(out@ =~= head + file_note(group@));
    }
    out.append(" ");
    let ghost middle = out@;
    match group.last_error() {
        Some(error) => {
            out.append(error);
        },
        None => {},
    }
    proof {
        assert(out@ =~= middle + error_note(group@));
    }
    out.append("\r\n");
    out
}

/// The movements that take the cursor up by `rows` lines.
pub fn cursor_to_top(rows: usize) -> (moves: String)
    ensures
        moves@ == climb(rows as nat),
{
    let mut out = String::new();
    let mut left = rows;
    while left > MAX_CLIMB as usize
        invariant
            out@ + climb(left as nat) == climb(rows as nat),
        decreases left,
    {
        let ghost before = out@;
        let step = cursor_up(MAX_CLIMB);
        out.append(step.as_str());
        proof {
            assert(out@ + climb((left - MAX_CLIMB) as nat) =~= before + climb(left as nat));
        }
        left = left - MAX_CLIMB as usize;
    }
    if left > 0 {
        let step = cursor_up(left as u16);
        out.append(step.as_str());
    }
    proof {
        assert(out@ =~= climb(rows as nat)) by {
            if left == 0 {
                assert(climb(0) =~= Seq::<char>::empty());
            }
        }
    }
    out
}

/// A redraw of the pane for the groups as they stand.
pub fn render(roster: &Roster) -> (frame: String)
    ensures
        frame@ == frame_of(roster@),
{
    let n = roster.len();
    let mut out = cursor_to_top(n);
    let mut i: usize = 0;
    proof {
        assert(roster@.take(0) =~= Seq::<(usize, GroupView)>::empty());
    }
    while i < n
        invariant
            n == roster@.len(),
            i <= n,
            out@ == climb(n as nat) + lines_of(roster@.take(i as int)),
        decreases n - i,
    {
        let (_, group) = roster.at(i);
        let line = render_line(group);
        let ghost before = out@;
        out.append(line.as_str());
        proof {
            let now = roster@.take(i as int);
            let next = roster@.take(i as int + 1);
            assert(next.drop_last() =~= now);
            assert(next.last() == roster@[i as int]);
            assert(out@ =~= climb(n as nat) + lines_of(next));
        }
        i = i + 1;
    }
    proof {
        assert(roster@.take(n as int) =~= roster@);
    }
    out
}

/// What is written before the first redraw, for a pane of `rows` rows.
pub fn open_pane(rows: usize) -> (text: String)
    ensures
        text@ == opening_of(rows as nat),
{
    let mut out = hide_cursor();
    let mut i: usize = 0;
    while i < rows
        invariant
            i <= rows,
            out@ == hide_cursor_code() + blank_rows(i as nat),
        decreases rows - i,
    {
        out.append("\n\r");
        proof {
            assert(out@ =~= hide_cursor_code() + blank_rows((i + 1) as nat));
        }
        i = i + 1;
    }
    out
}

/// What is written after the last redraw, when the run has ended in `state`.
pub fn close_pane(state: RunState) -> (text: String)
    ensures
        text@ == closing_of(state),
{
    let mut out = show_cursor();
    match state {
        RunState::Failed => {
            out.append("\r\n");
        },
        RunState::Interrupted => {
            out.append("\r\n");
        },
        _ => {},
    }
    out
}

} // verus!
