//! Formatting of the strings handed to an optional trace sink.
//!
//! A host may register a single string-sink callback and have the
//! dispatcher's notable moments (start, stop, transits, messages) reported
//! to it.  The sink itself is plain I/O and lives with the host; this
//! module owns the one piece of logic in it: how a log line is formatted.

use vstd::prelude::*;
use vstd::string::StringExecFns;

verus! {

/// The formatted trace line: the machine's name and the action, with the
/// detail text appended after a dash when there is one.
pub open spec fn spec_format_log(
    sfsm_name: Seq<char>,
    action: Seq<char>,
    log: Seq<char>,
) -> Seq<char> {
    if log.len() != 0 {
        sfsm_name + ": "@ + action + " - "@ + log
    } else {
        sfsm_name + ": "@ + action
    }
}

/// Formats one trace line from the machine's name, the action taken, and
/// optional detail text (empty means none).
pub fn format_log(sfsm_name: &str, action: &str, log: &str) -> (r: String)
    ensures
        r@ == spec_format_log(sfsm_name@, action@, log@),
{
    let mut out = String::from_str(sfsm_name);
    out.append(": ");
    out.append(action);
    if !log.is_empty() {
        out.append(" - ");
        out.append(log);
    }
    out
}

} // verus!
