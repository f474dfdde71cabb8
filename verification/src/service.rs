//! The descriptive name of the service conventionally found on a port.

use vstd::prelude::*;

verus! {

/// The name shown for `port`: a fixed table of well-known ports, and
/// `"unknown"` for every port outside it. The name depends on the port
/// number alone, never on what was sent to or received from the port.
pub open spec fn service_name(port: int) -> Seq<char> {
    if port == 20 || port == 21 {
        "ftp"@
    } else if port == 22 {
        "ssh"@
    } else if port == 23 {
        "telnet"@
    } else if port == 25 {
        "smtp"@
    } else if port == 53 {
        "dns"@
    } else if port == 80 || port == 8080 {
        "http"@
    } else if port == 110 {
        "pop3"@
    } else if port == 143 {
        "imap"@
    } else if port == 443 || port == 8443 {
        "https"@
    } else if port == 465 {
        "smtps"@
    } else if port == 587 {
        "smtp-submission"@
    } else if port == 993 {
        "imaps"@
    } else if port == 995 {
        "pop3s"@
    } else if port == 3306 {
        "mysql"@
    } else if port == 3389 {
        "rdp"@
    } else if port == 5432 {
        "postgresql"@
    } else if port == 5900 {
        "vnc"@
    } else if port == 6379 {
        "redis"@
    } else if port == 8888 {
        "alt-http"@
    } else if port == 27017 {
        "mongodb"@
    } else {
        "unknown"@
    }
}

/// Looks up the service name of `port`.
pub fn get_service(port: u16) -> (name: &'static str)
    ensures
        name@ == service_name(port as int),
{
    match port {
        20 | 21 => "ftp",
        22 => "ssh",
        23 => "telnet",
        25 => "smtp",
        53 => "dns",
        80 | 8080 => "http",
        110 => "pop3",
        143 => "imap",
        443 | 8443 => "https",
        465 => "smtps",
        587 => "smtp-submission",
        993 => "imaps",
        995 => "pop3s",
        3306 => "mysql",
        3389 => "rdp",
        5432 => "postgresql",
        5900 => "vnc",
        6379 => "redis",
        8888 => "alt-http",
        27017 => "mongodb",
        _ => "unknown",
    }
}

} // verus!
