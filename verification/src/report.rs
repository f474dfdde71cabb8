//! The lines that open and close the output of a scan.
//!
//! The lines in between, one for each open port, and the count that follows
//! them are the dispatcher's. A time is taken as the text that the caller read
//! from its clock.

use crate::target::PortScanner;
use crate::text::{append_decimal, decimal};
use vstd::prelude::*;
use vstd::string::*;

verus! {

/// The first line: the target, and when the scan began.
pub open spec fn start_line(target: Seq<char>, timestamp: Seq<char>) -> Seq<char> {
    "Scanning target: "@ + target + " (time started: "@ + timestamp + ")"@
}

/// How a flag is written.
pub open spec fn flag_text(flag: bool) -> Seq<char> {
    if flag {
        "true"@
    } else {
        "false"@
    }
}

/// The second line: the range, and whether the SSL flag is set.
pub open spec fn range_line(start_port: int, end_port: int, use_ssl: bool) -> Seq<char>
    recommends
        0 <= start_port,
        0 <= end_port,
{
    "Scanning ports from "@ + decimal(start_port as nat) + " to "@ + decimal(end_port as nat)
        + " (SSL/TLS enabled: "@ + flag_text(use_ssl) + ")"@
}

/// The last line: when the scan ended.
pub open spec fn end_line(timestamp: Seq<char>) -> Seq<char> {
    "Time finished: "@ + timestamp
}

/// Writes the first line of the output.
pub fn scan_start_line(scanner: &PortScanner, timestamp: &str) -> (line: String)
    ensures
        line@ == start_line(scanner@.text, timestamp@),
{
    proof {
        reveal_strlit("Scanning target: ");
        reveal_strlit(" (time started: ");
        reveal_strlit(")");
    }
    let mut line = String::new();
    line.append("Scanning target: ");
    line.append(scanner.target_text());
    line.append(" (time started: ");
    line.append(timestamp);
    line.append(")");
    assert(line@ =~= start_line(scanner@.text, timestamp@));
    line
}

/// Writes the second line of the output.
pub fn scan_range_line(scanner: &PortScanner) -> (line: String)
    ensures
        line@ == range_line(scanner@.start_port, scanner@.end_port, scanner@.config.use_ssl),
{
    proof {
        reveal_strlit("Scanning ports from ");
        reveal_strlit(" to ");
        reveal_strlit(" (SSL/TLS enabled: ");
        reveal_strlit(")");
    }
    let mut line = String::new();
    line.append("Scanning ports from ");
    append_decimal(&mut line, scanner.start_port() as u32);
    line.append(" to ");
    append_decimal(&mut line, scanner.end_port() as u32);
    line.append(" (SSL/TLS enabled: ");
    if scanner.config().use_ssl {
        line.append("true");
    } else {
        line.append("false");
    }
    line.append(")");
    assert(line@ =~= range_line(
        scanner@.start_port,
        scanner@.end_port,
        scanner@.config.use_ssl,
    ));
    line
}

/// Writes the last line of the output.
pub fn scan_end_line(timestamp: &str) -> (line: String)
    ensures
        line@ == end_line(timestamp@),
{
    proof {
        reveal_strlit("Time finished: ");
    }
    let mut line = String::new();
    line.append("Time finished: ");
    line.append(timestamp);
    assert(line@ =~= end_line(timestamp@));
    line
}

} // verus!
