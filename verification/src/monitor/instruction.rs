//! The shapes of the device's instruction log, as plain data.
//!
//! The log is tailed by the file monitor; these records are what its JSON
//! lines carry.  Only their structure matters to the library: reading the
//! log and reacting to it happens with the caller.
use vstd::prelude::*;

verus! {

/// The instruction-log monitor.
pub struct InstructionMonitor;

/// The path of the instruction log that the monitor tails.
pub fn instruction_file_path() -> (p: String)
    ensures
        p@ == "/tmp/mico_aivs_lab/instruction.log"@,
{
    String::from_str("/tmp/mico_aivs_lab/instruction.log")
}

/// The addressing header of one instruction record.
#[derive(Debug, Clone, PartialEq)]
pub struct Header {
    pub dialog_id: String,
    pub id: String,
    pub name: String,
    pub namespace: String,
}

/// A voice emotion annotation.
#[derive(Debug, Clone, PartialEq)]
pub struct Emotion {
    pub category: String,
    pub level: String,
}

/// The identity of one playable item.
#[derive(Debug, Clone, PartialEq)]
pub struct ItemId {
    pub audio_id: String,
    pub cp: Cp,
}

/// The content provider of a playable item.
#[derive(Debug, Clone, PartialEq)]
pub struct Cp {
    pub id: String,
    pub name: String,
}

/// Tracking fields of a playable item.
#[derive(Debug, Clone, PartialEq)]
pub struct Log {
    pub eid: String,
    pub refer: String,
}


/// One playable item of a play instruction.
#[derive(Debug, Clone, PartialEq)]
pub struct AudioItem {
    pub item_id: ItemId,
    pub log: Log,
    pub stream: Stream,
}

/// Where and how a playable item streams.
#[derive(Debug, Clone, PartialEq)]
pub struct Stream {
    pub authentication: bool,
    pub duration_in_ms: u64,
    pub offset_in_ms: u64,
    pub url: String,
}

} // verus!
