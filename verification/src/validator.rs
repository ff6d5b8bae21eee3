//! Validation of a credential against the remote service.
//!
//! The request itself is sent by the caller. This module says what to
//! send and what the answer means.

use crate::defaults::{endpoint, endpoint_bytes};
use crate::text::{append_bytes, ascii, decimal, literal_bytes, push_decimal};
use vstd::prelude::*;

verus! {

/// What the service made of a credential.
#[derive(Clone, Copy, Debug, PartialEq, Eq, Structural)]
pub enum ValidationOutcome {
    /// The credential is good.
    Accepted,
    /// The credential is not good; another one may be.
    Rejected,
    /// The service failed; no credential would help.
    ServiceError,
}

/// The meaning of a response status: 401 rejects the credential, any
/// status from 200 to 299 accepts it, everything else is a failure of the
/// service.
pub open spec fn outcome_of(status: u16) -> ValidationOutcome {
    if status == 401 {
        ValidationOutcome::Rejected
    } else if 200 <= status && status < 300 {
        ValidationOutcome::Accepted
    } else {
        ValidationOutcome::ServiceError
    }
}

/// Classifies a response status.
pub fn classify_status(status: u16) -> (outcome: ValidationOutcome)
    ensures
        outcome == outcome_of(status),
{
    if status == 401 {
        ValidationOutcome::Rejected
    } else if 200 <= status && status < 300 {
        ValidationOutcome::Accepted
    } else {
        ValidationOutcome::ServiceError
    }
}

/// Where the heartbeat is posted.
pub open spec fn heartbeat_url() -> Seq<u8> {
    endpoint() + ascii("/users/current/heartbeats"@)
}

/// The heartbeat sent to try a credential: one record for a text file,
/// stamped with `time` in seconds since the epoch.
pub open spec fn heartbeat_body(time: nat) -> Seq<u8> {
    ascii("[{\"type\":\"file\",\"time\":"@) + decimal(time) + ascii(
        ",\"entity\":\"test.txt\",\"language\":\"Text\"}]"@,
    )
}

/// Where today's total is read, for `credential`.
pub open spec fn today_url(credential: Seq<u8>) -> Seq<u8> {
    endpoint() + ascii("/users/me/statusbar/today?api_key="@) + credential
}

/// Where the heartbeat is posted.
pub fn heartbeat_url_bytes() -> (out: Vec<u8>)
    ensures
        out@ == heartbeat_url(),
{
    proof {
        reveal_strlit("/users/current/heartbeats");
    }
    let mut out = endpoint_bytes();
    let tail = literal_bytes("/users/current/heartbeats");
    append_bytes(&mut out, tail.as_slice());
    out
}

/// The heartbeat sent to try a credential.
pub fn heartbeat_body_bytes(time: u64) -> (out: Vec<u8>)
    ensures
        out@ == heartbeat_body(time as nat),
{
    proof {
        reveal_strlit("[{\"type\":\"file\",\"time\":");
        reveal_strlit(",\"entity\":\"test.txt\",\"language\":\"Text\"}]");
    }
    let mut out = literal_bytes("[{\"type\":\"file\",\"time\":");
    push_decimal(&mut out, time);
    let tail = literal_bytes(",\"entity\":\"test.txt\",\"language\":\"Text\"}]");
    append_bytes(&mut out, tail.as_slice());
    out
}

/// Where today's total is read, for `credential`.
pub fn today_url_bytes(credential: &[u8]) -> (out: Vec<u8>)
    ensures
        out@ == today_url(credential@),
{
    proof {
        reveal_strlit("/users/me/statusbar/today?api_key=");
    }
    let mut out = endpoint_bytes();
    let tail = literal_bytes("/users/me/statusbar/today?api_key=");
    append_bytes(&mut out, tail.as_slice());
    append_bytes(&mut out, credential);
    out
}

} // verus!
