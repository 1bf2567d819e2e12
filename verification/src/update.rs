use vstd::prelude::*;

use crate::types::Ddns6Error;

verus! {

/// The message of an update of `hostname` to `ip` that the provider did not
/// complete, for the reason `cause`.
pub open spec fn update_failed_text(hostname: Seq<char>, ip: Seq<char>, cause: Seq<char>) -> Seq<char> {
    "Failed updating "@ + hostname + " -> "@ + ip + ": "@ + cause
}

/// How the update of one address family of a host ends, given the address
/// text that was sent and what the provider answered: the address, or the
/// error that names the host, the address and the provider's reason.
pub open spec fn update_outcome(hostname: Seq<char>, ip: Seq<char>, provider: Result<(), Seq<char>>) -> Result<
    Seq<char>,
    Seq<char>,
> {
    match provider {
        Ok(()) => Ok(ip),
        Err(cause) => Err(update_failed_text(hostname, ip, cause)),
    }
}

/// The line that reports how the update of one address family of a host
/// ended.
pub open spec fn report_text(hostname: Seq<char>, outcome: Result<Seq<char>, Seq<char>>) -> Seq<char> {
    match outcome {
        Ok(ip) => "Updated "@ + hostname + " -> "@ + ip,
        Err(e) => "Error updating "@ + hostname + ": "@ + e,
    }
}

/// Concludes the update of `hostname` to the address `ip` from the provider's
/// answer (`Err` with the text of its error).
pub fn finish_update(hostname: &str, ip: &str, provider: Result<(), String>) -> (res: Result<String, Ddns6Error>)
    ensures
        match update_outcome(hostname@, ip@, match provider { Ok(()) => Ok(()), Err(c) => Err(c@) }) {
            Ok(t) => res matches Ok(s) && s@ == t,
            Err(t) => res matches Err(e) && e.0@ == t,
        },
{
    match provider {
        Ok(()) => Ok(String::from_str(ip)),
        Err(cause) => {
            let mut s = String::from_str("Failed updating ");
            s.append(hostname);
            s.append(" -> ");
            s.append(ip);
            s.append(": ");
            s.append(cause.as_str());
            Err(Ddns6Error(s))
        },
    }
}

/// The line that reports how the update of one address family of `hostname`
/// ended: the address that was set, or the error (see `report_text`).
pub fn update_report(hostname: &str, outcome: &Result<String, Ddns6Error>) -> (res: String)
    ensures
        res@ == report_text(hostname@, match outcome { Ok(ip) => Ok(ip@), Err(e) => Err(e.0@) }),
{
    match outcome {
        Ok(ip) => {
            let mut s = String::from_str("Updated ");
            s.append(hostname);
            s.append(" -> ");
            s.append(ip.as_str());
            s
        },
        Err(e) => {
            let mut s = String::from_str("Error updating ");
            s.append(hostname);
            s.append(": ");
            s.append(e.0.as_str());
            s
        },
    }
}

} // verus!
