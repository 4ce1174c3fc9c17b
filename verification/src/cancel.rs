//! Watching the keyboard for the request to stop.

use crate::event::{Event, EventView};
use vstd::prelude::*;

verus! {

/// A key press, as far as the watch tells keys apart.
#[derive(Clone, Copy, Debug)]
pub enum Keystroke {
    /// A character typed with the control key held down.
    Ctrl(char),
    /// Anything else.
    Other,
}

impl Keystroke {
    /// Control-C is the request to stop.
    pub open spec fn is_interrupt(self) -> bool {
        self == Keystroke::Ctrl('c')
    }
}

/// Watches key presses until the first request to stop.
pub struct InterruptWatch {
    armed: bool,
}

/// What a watch reports for a key press: the request to stop, if it is still
/// watching and the key asks for it.
pub open spec fn report_of(armed: bool, key: Keystroke) -> Option<EventView> {
    if armed && key.is_interrupt() {
        Some(EventView::Quit)
    } else {
        None
    }
}

/// Whether a watch is still watching after a key press.
pub open spec fn armed_after(armed: bool, key: Keystroke) -> bool {
    armed && !key.is_interrupt()
}

/// How many requests to stop a watch reports over a sequence of key presses.
pub open spec fn reports(armed: bool, keys: Seq<Keystroke>) -> nat
    decreases keys.len(),
{
    if keys.len() == 0 {
        0
    } else {
        let here: nat = if report_of(armed, keys[0]) is Some {
            1
        } else {
            0
        };
        here + reports(armed_after(armed, keys[0]), keys.drop_first())
    }
}

/// A watch that has stopped watching reports nothing more.
pub proof fn lemma_silent_once_disarmed(keys: Seq<Keystroke>)
    ensures
        reports(false, keys) == 0,
    decreases keys.len(),
{
    if keys.len() > 0 {
        lemma_silent_once_disarmed(keys.drop_first());
    }
}

/// Over any sequence of key presses a watch reports the request to stop
/// once if the sequence holds one, and never more than once.
pub proof fn lemma_reports_once(keys: Seq<Keystroke>)
    ensures
        reports(true, keys) == if exists|i: int| 0 <= i < keys.len() && (#[trigger] keys[i]).is_interrupt() {
            1nat
        } else {
            0nat
        },
    decreases keys.len(),
{
    if keys.len() > 0 {
        let rest = keys.drop_first();
        if keys[0].is_interrupt() {
            lemma_silent_once_disarmed(rest);
        } else {
            lemma_reports_once(rest);
            if exists|i: int| 0 <= i < keys.len() && (#[trigger] keys[i]).is_interrupt() {
                let i = choose|i: int| 0 <= i < keys.len() && (#[trigger] keys[i]).is_interrupt();
                assert(rest[i - 1].is_interrupt());
            }
            if exists|i: int| 0 <= i < rest.len() && (#[trigger] rest[i]).is_interrupt() {
                let i = choose|i: int| 0 <= i < rest.len() && (#[trigger] rest[i]).is_interrupt();
                assert(keys[i + 1].is_interrupt());
            }
        }
    }
}

impl View for InterruptWatch {
    type V = bool;

    /// Whether the watch is still watching.
    closed spec fn view(&self) -> bool {
        self.armed
    }
}

impl InterruptWatch {
    /// A watch that is watching.
    pub fn new() -> (w: InterruptWatch)
        ensures
            w@,
    {
        InterruptWatch { armed: true }
    }

    /// Whether the watch is still watching.
    pub fn is_armed(&self) -> (b: bool)
        ensures
            b == self@,
    {
        self.armed
    }

    /// Takes a key press. The first request to stop is reported and ends the
    /// watch.
    pub fn observe(&mut self, key: Keystroke) -> (event: Option<Event>)
        ensures
            shown_event(event) == report_of(old(self)@, key),
            final(self)@ == armed_after(old(self)@, key),
    {
        if !self.armed {
            return None;
        }
        match key {
            Keystroke::Ctrl(c) => {
                if c == 'c' {
                    self.armed = false;
                    Some(Event::Quit)
                } else {
                    None
                }
            },
            Keystroke::Other => None,
        }
    }
}

/// The content of an optional event.
pub open spec fn shown_event(event: Option<Event>) -> Option<EventView> {
    match event {
        Some(e) => Some(e@),
        None => None,
    }
}

} // verus!
