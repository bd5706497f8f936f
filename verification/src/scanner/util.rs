//! Small helpers shared by the scanner: the clock and the status filter.

use vstd::prelude::*;
use std::time::UNIX_EPOCH;
use crate::text::{decimal, push_decimal};

verus! {

/// The status codes worth reporting: the resource is there (200), lives under
/// another form of the path (301, 302), or is guarded (401, 403).
pub open spec fn interesting_status(status: u16) -> bool {
    status == 200 || status == 301 || status == 302 || status == 401 || status == 403
}

/// Whether a response with this status code is reported.
pub fn is_interesting_status(status: u16) -> (interesting: bool)
    ensures
        interesting == interesting_status(status),
{
    status == 200 || status == 301 || status == 302 || status == 401 || status == 403
}

/// The whole seconds from the Unix epoch to now, by `SystemTime::elapsed`;
/// `None` where the system clock is set before the epoch. Nothing is claimed
/// of the number: it is whatever the clock says.
#[verifier::external_body]
fn epoch_seconds() -> (now: Option<u64>) {
    match UNIX_EPOCH.elapsed() {
        Ok(elapsed) => Some(elapsed.as_secs()),
        Err(_) => None,
    }
}

/// A number of seconds as a report line shows it: in decimal.
pub fn format_seconds(seconds: u64) -> (text: String)
    ensures
        text@ == decimal(seconds as nat),
{
    let mut text = String::new();
    push_decimal(&mut text, seconds);
    text
}

/// The stamp that a reading of the clock gives: its seconds in decimal, and
/// none where the clock gave no reading.
pub open spec fn stamp_of(reading: Option<u64>) -> Option<Seq<char>> {
    match reading {
        Some(seconds) => Some(decimal(seconds as nat)),
        None => None,
    }
}

/// Makes the stamp of a reading of the clock.
pub fn format_stamp(reading: Option<u64>) -> (stamp: Option<String>)
    ensures
        stamp.deep_view() == stamp_of(reading),
{
    match reading {
        Some(seconds) => Some(format_seconds(seconds)),
        None => None,
    }
}

/// The time of the system clock in whole seconds since the Unix epoch, in
/// decimal; `None` where the clock is set before the epoch. Which reading
/// the clock gives is not for this library to say: the stamp is the one that
/// belongs to the reading, whatever it is.
pub fn timestamp_seconds() -> (stamp: Option<String>)
    ensures
        exists|reading: Option<u64>| stamp.deep_view() == #[trigger] stamp_of(reading),
{
    let reading = epoch_seconds();
    let stamp = format_stamp(reading);
    assert(stamp.deep_view() == stamp_of(reading));
    stamp
}

} // verus!
