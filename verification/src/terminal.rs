//! Decisions of the terminal plumbing: which terminal inputs become events, and how long to
//! wait for the input task to stop.

use vstd::prelude::*;

use crate::app::{Event, Key};

verus! {

/// Waits of this length, in milliseconds, go by between checks that the input task stopped.
pub const STOP_POLL_MS: u64 = 250;

/// After this many waits the input task is aborted.
pub const STOP_ABORT_AFTER: u32 = 5;

/// After this many waits stopping is given up.
pub const STOP_GIVE_UP_AFTER: u32 = 10;

/// What the terminal delivered.
#[derive(PartialEq, Eq, Structural, Debug, Clone, Copy)]
pub enum TerminalInput {
    /// A key; `press` is whether it went down (rather than up or repeating).
    Key { key: Key, press: bool },
    /// Anything else the terminal reports (mouse, resize, focus).
    Other,
    /// Reading the terminal failed.
    ReadError,
    /// The terminal has nothing more to deliver.
    Closed,
}

/// The event a terminal input gives: key presses and read errors are passed on, the rest
/// is dropped.
pub open spec fn event_for_input(input: TerminalInput) -> Option<Event> {
    match input {
        TerminalInput::Key { key, press } => if press {
            Some(Event::Key(key))
        } else {
            None
        },
        TerminalInput::ReadError => Some(Event::Error),
        _ => None,
    }
}

pub fn input_event(input: TerminalInput) -> (e: Option<Event>)
    ensures
        e == event_for_input(input),
{
    match input {
        TerminalInput::Key { key, press } => {
            if press {
                Some(Event::Key(key))
            } else {
                None
            }
        },
        TerminalInput::ReadError => Some(Event::Error),
        _ => None,
    }
}

/// What to do after a wait for the input task to stop.
#[derive(PartialEq, Eq, Structural, Debug, Clone, Copy)]
pub enum StopAction {
    /// Wait again.
    Wait,
    /// Abort the task, then wait again.
    Abort,
    /// Abort the task and give up: stopping failed.
    AbortAndGiveUp,
}

/// One more wait went by, after `waits` earlier ones and the task still runs: the number of
/// waits so far and what to do now.
pub fn stop_step(waits: u32) -> (r: (u32, StopAction))
    requires
        waits < u32::MAX,
    ensures
        r.0 == waits + 1,
        r.1 == (if r.0 > STOP_GIVE_UP_AFTER {
            StopAction::AbortAndGiveUp
        } else if r.0 > STOP_ABORT_AFTER {
            StopAction::Abort
        } else {
            StopAction::Wait
        }),
{
    let counter = waits + 1;
    let action = if counter > STOP_GIVE_UP_AFTER {
        StopAction::AbortAndGiveUp
    } else if counter > STOP_ABORT_AFTER {
        StopAction::Abort
    } else {
        StopAction::Wait
    };
    (counter, action)
}

} // verus!
