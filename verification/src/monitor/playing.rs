//! The playback-status monitor's decisions.
use vstd::prelude::*;

use crate::shell::CommandResult;
use crate::strings::{contains_sub, str_contains};

verus! {

/// The reported playback state.
#[derive(Debug, Clone, PartialEq)]
pub enum PlayingMonitorEvent {
    Playing,
    Paused,
    Idle,
}

impl PlayingMonitorEvent {
    /// Whether two observations are the same state.
    pub fn same(&self, other: &PlayingMonitorEvent) -> (r: bool)
        ensures
            r == (*self == *other),
    {
        match (self, other) {
            (PlayingMonitorEvent::Playing, PlayingMonitorEvent::Playing) => true,
            (PlayingMonitorEvent::Paused, PlayingMonitorEvent::Paused) => true,
            (PlayingMonitorEvent::Idle, PlayingMonitorEvent::Idle) => true,
            _ => false,
        }
    }
}

/// The playback-status monitor.
pub struct PlayingMonitor;

impl PlayingMonitor {
    /// A monitor value; it carries no state of its own.
    pub fn new() -> (m: Self) {
        PlayingMonitor {  }
    }

    /// The monitor instance for a caller that keeps a single one.
    pub fn instance() -> (m: Self) {
        PlayingMonitor {  }
    }

    /// The state a status probe reported: a `1` anywhere means playing,
    /// else a `2` means paused, else idle.
    pub fn status_of(res: &CommandResult) -> (r: PlayingMonitorEvent)
        ensures
            contains_sub(res@.stdout, "1"@) ==> r is Playing,
            !contains_sub(res@.stdout, "1"@) && contains_sub(res@.stdout, "2"@) ==> r is Paused,
            !contains_sub(res@.stdout, "1"@) && !contains_sub(res@.stdout, "2"@) ==> r is Idle,
    {
        if str_contains(res.stdout.as_str(), "1") {
            PlayingMonitorEvent::Playing
        } else if str_contains(res.stdout.as_str(), "2") {
            PlayingMonitorEvent::Paused
        } else {
            PlayingMonitorEvent::Idle
        }
    }

    /// Whether the new observation must be reported: only on a change.
    pub fn should_report(last: &PlayingMonitorEvent, now: &PlayingMonitorEvent) -> (r: bool)
        ensures
            r == (*last != *now),
    {
        !last.same(now)
    }
}

} // verus!
