//! The log-tail monitor's decisions.
//!
//! The caller polls a file; this module decides what the observations mean:
//! a shrink is a fresh file, a read line is an event only once trimmed and
//! nonempty.
use vstd::prelude::*;

use crate::strings::{trim_str, trimmed};

verus! {

/// What the tailed file did.
#[derive(Debug, Clone, PartialEq)]
pub enum FileMonitorEvent {
    /// The file was replaced or truncated: start over from the beginning.
    NewFile,
    /// One fresh nonblank line, already trimmed.
    NewLine(String),
}

/// The log-tail monitor.
pub struct FileMonitor;

impl FileMonitor {
    /// A monitor value; it carries no state of its own.
    pub fn new() -> (m: Self) {
        FileMonitor {  }
    }

    /// The monitor instance for a caller that keeps a single one.
    pub fn instance() -> (m: Self) {
        FileMonitor {  }
    }

    /// Where to continue reading after a size observation: a file smaller
    /// than the last position was replaced, so reading restarts at the
    /// beginning and a fresh-file event fires.
    pub fn position_after(current_size: u64, position: u64) -> (r: (u64, bool))
        ensures
            current_size < position ==> r == (0u64, true),
            current_size >= position ==> r == (position, false),
    {
        if current_size < position {
            (0, true)
        } else {
            (position, false)
        }
    }

    /// The event for one read line: its trimmed text, or nothing when the
    /// line is blank.
    pub fn line_event(line: &str) -> (r: Option<FileMonitorEvent>)
        ensures
            match r {
                Some(e) => e matches FileMonitorEvent::NewLine(t) && t@ == trimmed(line@)
                    && trimmed(line@).len() > 0,
                None => trimmed(line@).len() == 0,
            },
    {
        let t = trim_str(line);
        if t.as_str().unicode_len() == 0 {
            None
        } else {
            Some(FileMonitorEvent::NewLine(t))
        }
    }
}

} // verus!
