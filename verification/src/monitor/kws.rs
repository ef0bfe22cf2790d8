//! The keyword-spotting monitor's decisions.
//!
//! Each fresh log line carries a timestamp and a keyword; a line repeating
//! the last seen timestamp is a duplicate and stays silent.
use vstd::prelude::*;

use crate::num::{int_text, parse_int_text};
use crate::strings::{contains_sub, first_space, first_space_exec, str_contains};
use vstd::string::StringExecFns;
use vstd::string::StrSliceExecFns;

verus! {

/// What the keyword spotter reported.
#[derive(Debug, Clone, PartialEq)]
pub enum KwsMonitorEvent {
    /// The spotter itself (re)started.
    Started,
    /// It heard this keyword.
    Keyword(String),
}

/// The keyword-spotting monitor.
pub struct KwsMonitor;

impl KwsMonitor {
    /// Splits one log line into its timestamp and keyword: the text before
    /// the first space must be a decimal timestamp, the text between the
    /// first and second spaces (or the end) is the keyword.
    pub fn parse_line(line: &str) -> (r: Option<(i64, String)>)
        ensures
            match r {
                Some((t, kw)) => {
                    let p1 = first_space(line@, 0);
                    let p2 = first_space(line@, p1 + 1);
                    &&& p1 < line@.len()
                    &&& line@.subrange(0, p1) == int_text(t as int)
                    &&& kw@ == line@.subrange(p1 + 1, p2)
                },
                None => {
                    let p1 = first_space(line@, 0);
                    p1 >= line@.len() || (forall|t: i64|
                        line@.subrange(0, p1) != int_text(t as int))
                },
            },
    {
        let len = line.unicode_len();
        let p1 = first_space_exec(line, 0);
        if p1 >= len {
            return None;
        }
        let head = line.substring_char(0, p1);
        let t = match crate::num::parse_int_str(head) {
            Some(t) => t,
            None => {
                return None;
            },
        };
        let p2 = first_space_exec(line, p1 + 1);
        let kw = line.substring_char(p1 + 1, p2);
        Some((t, kw.to_owned()))
    }

    /// Deduplicates by timestamp and names the event: a repeated timestamp
    /// is silent; the reserved keyword marks a spotter restart, everything
    /// else is the keyword itself.
    pub fn step(last_timestamp: i64, timestamp: i64, keyword: String) -> (r: Option<
        KwsMonitorEvent,
    >)
        ensures
            timestamp == last_timestamp ==> r is None,
            timestamp != last_timestamp && keyword@ == "__STARTED__"@ ==> r == Some(
                KwsMonitorEvent::Started,
            ),
            timestamp != last_timestamp && keyword@ != "__STARTED__"@ ==> (r matches Some(
                e,
            ) && e matches KwsMonitorEvent::Keyword(k) && k@ == keyword@),
    {
        if timestamp == last_timestamp {
            return None;
        }
        if keyword == String::from_str("__STARTED__") {
            Some(KwsMonitorEvent::Started)
        } else {
            Some(KwsMonitorEvent::Keyword(keyword))
        }
    }
}

/// The path of the keyword-spotter log that the monitor tails.
pub fn kws_file_path() -> (p: String)
    ensures
        p@ == "/tmp/open-xiaoai/kws.log"@,
{
    String::from_str("/tmp/open-xiaoai/kws.log")
}


/// The script that plays one wake-up reply: a URL goes to the media player,
/// anything else is spoken by the device's own voice.
pub fn reply_script(reply: &str) -> (s: String)
    ensures
        contains_sub(reply@, "://"@) ==> s@ == "miplayer -f '"@ + reply@ + "'"@,
        !contains_sub(reply@, "://"@) ==> s@ == "/usr/sbin/tts_play.sh '"@ + reply@ + "'"@,
{
    if str_contains(reply, "://") {
        let mut s = String::from_str("miplayer -f '");
        s.append(reply);
        s.append("'");
        proof {
            assert(s@ =~= "miplayer -f '"@ + reply@ + "'"@);
        }
        s
    } else {
        let mut s = String::from_str("/usr/sbin/tts_play.sh '");
        s.append(reply);
        s.append("'");
        proof {
            assert(s@ =~= "/usr/sbin/tts_play.sh '"@ + reply@ + "'"@);
        }
        s
    }
}

} // verus!
