//! Routing of chain-engine log messages.
//!
//! The chain engine hands over log lines that may still carry a trailing
//! line break. `MainLog` is the sink the host binary registers with the
//! engine; the cleaning of each message is the part that belongs here.

use vstd::prelude::*;
use vstd::string::*;

verus! {

/// Sink for the chain engine's log messages. The host binary registers it
/// with the engine and forwards each cleaned line to its logger.
pub struct MainLog {}

/// A log line with its trailing line break removed: a final `"\r\n"` or a
/// final `'\n'` is dropped, anything else is kept as it is.
pub open spec fn spec_clean_line(s: Seq<char>) -> Seq<char> {
    if s.len() >= 2 && s[s.len() - 2] == '\r' && s[s.len() - 1] == '\n' {
        s.take(s.len() - 2)
    } else if s.len() >= 1 && s[s.len() - 1] == '\n' {
        s.take(s.len() - 1)
    } else {
        s
    }
}

impl MainLog {
    /// Strip the trailing line break, if any, from one log message.
    pub fn clean_line<'a>(&self, msg: &'a str) -> (r: &'a str)
        ensures
            r@ == spec_clean_line(msg@),
    {
        let len = msg.unicode_len();
        if len >= 2 && msg.get_char(len - 2) == '\r' && msg.get_char(len - 1) == '\n' {
            let r = msg.substring_char(0, len - 2);
            proof {
                assert(r@ =~= spec_clean_line(msg@));
            }
            r
        } else if len >= 1 && msg.get_char(len - 1) == '\n' {
            let r = msg.substring_char(0, len - 1);
            proof {
                assert(r@ =~= spec_clean_line(msg@));
            }
            r
        } else {
            msg
        }
    }
}

} // verus!
