use vstd::prelude::*;
use vstd::string::*;
use std::time::{SystemTime, UNIX_EPOCH};

verus! {

/// A point in time: seconds since the Unix epoch and the nanoseconds past that
/// second.
#[derive(Clone, Copy, Debug)]
pub struct Timestamp {
    pub seconds: i64,
    pub nanos: u32,
}

/// A point in time as the system clock gives it.
#[verifier::external_type_specification]
#[verifier::external_body]
pub struct ExSystemTime(std::time::SystemTime);

/// Calls `std::time::SystemTime::now`. Nothing is claimed of the time read.
#[verifier::external_body]
fn system_now() -> SystemTime {
    SystemTime::now()
}

/// Calls `SystemTime::duration_since` with `UNIX_EPOCH` and keeps the whole
/// seconds (`Duration::as_secs`) and the nanoseconds past them
/// (`Duration::subsec_nanos`) of how far `t` lies after the epoch, or, where
/// `t` lies before it, of how far before (`SystemTimeError::duration`).
/// Claimed: the nanoseconds are below one billion, as `subsec_nanos`
/// documents.
#[verifier::external_body]
fn since_unix_epoch(t: SystemTime) -> (r: Result<(u64, u32), (u64, u32)>)
    ensures
        r matches Ok(d) ==> d.1 < 1_000_000_000,
        r matches Err(d) ==> d.1 < 1_000_000_000,
{
    match t.duration_since(UNIX_EPOCH) {
        Ok(d) => Ok((d.as_secs(), d.subsec_nanos())),
        Err(e) => Err((e.duration().as_secs(), e.duration().subsec_nanos())),
    }
}

/// The timestamp `seconds` and `nanos` past the Unix epoch, where the seconds
/// fit in an `i64`.
pub fn timestamp_after_epoch(seconds: u64, nanos: u32) -> (r: Option<Timestamp>)
    ensures
        seconds <= i64::MAX <==> r is Some,
        r matches Some(t) ==> t.seconds == seconds && t.nanos == nanos,
{
    if seconds <= i64::MAX as u64 {
        Some(Timestamp { seconds: seconds as i64, nanos })
    } else {
        None
    }
}

/// The timestamp `seconds` and `nanos` before the Unix epoch: a negative
/// count of seconds and the nanoseconds forward from it, where the seconds
/// fit in an `i64`.
pub fn timestamp_before_epoch(seconds: u64, nanos: u32) -> (r: Option<Timestamp>)
    requires
        nanos < 1_000_000_000,
    ensures
        r is Some <==> seconds * 1_000_000_000 + nanos <= 0x8000_0000_0000_0000 * 1_000_000_000,
        r matches Some(t) ==> t.seconds * 1_000_000_000 + t.nanos == -(seconds * 1_000_000_000
            + nanos) && t.nanos < 1_000_000_000,
{
    if seconds > 0x8000_0000_0000_0000u64 || (seconds == 0x8000_0000_0000_0000u64 && nanos > 0) {
        None
    } else if nanos == 0 {
        if seconds == 0x8000_0000_0000_0000u64 {
            Some(Timestamp { seconds: i64::MIN, nanos: 0 })
        } else {
            Some(Timestamp { seconds: -(seconds as i64), nanos: 0 })
        }
    } else {
        Some(Timestamp { seconds: -(seconds as i64) - 1, nanos: 1_000_000_000 - nanos })
    }
}

/// The current time read from the system clock, before or after the Unix
/// epoch; nothing where its distance from the epoch does not fit a 64-bit
/// count of seconds.
fn current_timestamp() -> (r: Option<Timestamp>)
    ensures
        r matches Some(t) ==> t.nanos < 1_000_000_000,
{
    match since_unix_epoch(system_now()) {
        Ok((seconds, nanos)) => timestamp_after_epoch(seconds, nanos),
        Err((seconds, nanos)) => timestamp_before_epoch(seconds, nanos),
    }
}

/// One observation recorded for a check: when it was made and what was seen.
#[derive(Clone, Debug)]
pub struct TestResult {
    timestamp: Timestamp,
    result: String,
}

impl TestResult {
    /// The recorded text.
    pub closed spec fn result_view(&self) -> Seq<char> {
        self.result@
    }

    /// When the result was made.
    pub closed spec fn timestamp_view(&self) -> Timestamp {
        self.timestamp
    }

    /// A result with empty text, made now; nothing where the clock's distance
    /// from the Unix epoch does not fit a 64-bit count of seconds.
    pub fn new() -> (r: Option<TestResult>)
        ensures
            r matches Some(t) ==> t.result_view() == Seq::<char>::empty()
                && t.timestamp_view().nanos < 1_000_000_000,
    {
        match current_timestamp() {
            Some(timestamp) => Some(TestResult { timestamp, result: String::new() }),
            None => None,
        }
    }

    /// A result with text `s`, made now; nothing where the clock's distance
    /// from the Unix epoch does not fit a 64-bit count of seconds.
    pub fn from_message(s: &str) -> (r: Option<TestResult>)
        ensures
            r matches Some(t) ==> t.result_view() == s@ && t.timestamp_view().nanos
                < 1_000_000_000,
    {
        match current_timestamp() {
            Some(timestamp) => Some(TestResult { timestamp, result: s.to_owned() }),
            None => None,
        }
    }

    /// A result with text `s`, made at `timestamp`.
    pub fn at(timestamp: Timestamp, s: &str) -> (r: TestResult)
        ensures
            r.result_view() == s@,
            r.timestamp_view() == timestamp,
    {
        TestResult { timestamp, result: s.to_owned() }
    }

    /// The recorded text.
    pub fn result(&self) -> (r: &str)
        ensures
            r@ == self.result_view(),
    {
        self.result.as_str()
    }

    /// When the result was made.
    pub fn timestamp(&self) -> (r: Timestamp)
        ensures
            r == self.timestamp_view(),
    {
        self.timestamp
    }
}

} // verus!
