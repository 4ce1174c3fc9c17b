//! The terminal control sequences that the status pane is made of, as the
//! `termion` crate spells them. Nothing in this file is proved: each
//! contract restates the text that `termion` writes.

use vstd::prelude::*;

verus! {

/// The digit for a number below ten.
pub open spec fn digit(d: nat) -> char {
    if d == 0 {
        '0'
    } else if d == 1 {
        '1'
    } else if d == 2 {
        '2'
    } else if d == 3 {
        '3'
    } else if d == 4 {
        '4'
    } else if d == 5 {
        '5'
    } else if d == 6 {
        '6'
    } else if d == 7 {
        '7'
    } else if d == 8 {
        '8'
    } else {
        '9'
    }
}

/// A number in decimal digits, without leading zeros.
pub open spec fn decimal(n: nat) -> Seq<char>
    decreases n,
{
    if n < 10 {
        seq![digit(n)]
    } else {
        decimal(n / 10).push(digit(n % 10))
    }
}

/// The sequence that clears the line of the cursor.
pub open spec fn clear_line_code() -> Seq<char> {
    "\x1b[2K"@
}

/// The sequence that hides the cursor.
pub open spec fn hide_cursor_code() -> Seq<char> {
    "\x1b[?25l"@
}

/// The sequence that shows the cursor.
pub open spec fn show_cursor_code() -> Seq<char> {
    "\x1b[?25h"@
}

/// The sequence that moves the cursor up by `rows` lines.
pub open spec fn cursor_up_code(rows: u16) -> Seq<char> {
    "\x1b["@ + decimal(rows as nat) + "A"@
}

/// The sequence that sets the foreground to red.
pub open spec fn red_code() -> Seq<char> {
    "\x1b[38;5;1m"@
}

/// The sequence that sets the foreground to light green.
pub open spec fn green_code() -> Seq<char> {
    "\x1b[38;5;10m"@
}

/// The sequence that sets the foreground to light blue.
pub open spec fn blue_code() -> Seq<char> {
    "\x1b[38;5;12m"@
}

/// The sequence that sets the foreground to gray.
pub open spec fn gray_code() -> Seq<char> {
    "\x1b[38;5;8m"@
}

/// What `termion::clear::CurrentLine` displays as.
#[verifier::external_body]
pub(crate) fn clear_line() -> (s: String)
    ensures
        s@ == clear_line_code(),
{
    format!("{}", termion::clear::CurrentLine)
}

/// What `termion::cursor::Hide` displays as.
#[verifier::external_body]
pub(crate) fn hide_cursor() -> (s: String)
    ensures
        s@ == hide_cursor_code(),
{
    format!("{}", termion::cursor::Hide)
}

/// What `termion::cursor::Show` displays as.
#[verifier::external_body]
pub(crate) fn show_cursor() -> (s: String)
    ensures
        s@ == show_cursor_code(),
{
    format!("{}", termion::cursor::Show)
}

/// What `termion::cursor::Up` displays as: the row count in decimal between
/// the sequence's introducer and the letter `A`.
#[verifier::external_body]
pub(crate) fn cursor_up(rows: u16) -> (s: String)
    ensures
        s@ == cursor_up_code(rows),
{
    format!("{}", termion::cursor::Up(rows))
}

/// `termion::color::Red::fg_str`.
#[verifier::external_body]
pub(crate) fn red() -> (s: &'static str)
    ensures
        s@ == red_code(),
{
    termion::color::Red.fg_str()
}

/// `termion::color::LightGreen::fg_str`.
#[verifier::external_body]
pub(crate) fn green() -> (s: &'static str)
    ensures
        s@ == green_code(),
{
    termion::color::LightGreen.fg_str()
}

/// `termion::color::LightBlue::fg_str`.
#[verifier::external_body]
pub(crate) fn blue() -> (s: &'static str)
    ensures
        s@ == blue_code(),
{
    termion::color::LightBlue.fg_str()
}

/// `termion::color::LightBlack::fg_str`.
#[verifier::external_body]
pub(crate) fn gray() -> (s: &'static str)
    ensures
        s@ == gray_code(),
{
    termion::color::LightBlack.fg_str()
}

} // verus!
