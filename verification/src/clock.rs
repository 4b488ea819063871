use vstd::prelude::*;

verus! {

#[verifier::external_type_specification]
#[verifier::external_body]
pub struct ExSystemTime(std::time::SystemTime);

/// What `SystemTime::duration_since(UNIX_EPOCH)` gives for a time: the duration since
/// the epoch, or the text of its error for a time before it.
pub uninterp spec fn since_unix_epoch(t: std::time::SystemTime) -> Result<std::time::Duration, Seq<char>>;

/// What `SystemTime::checked_add` gives: the later time, or nothing when it cannot be
/// represented.
pub uninterp spec fn system_time_plus(t: std::time::SystemTime, d: std::time::Duration) -> Option<std::time::SystemTime>;

/// The whole milliseconds of a duration, as `Duration::as_millis` gives them.
pub uninterp spec fn duration_as_millis(d: std::time::Duration) -> u128;

/// Calls `SystemTime::now`: the time read from the system clock, of which nothing is
/// claimed.
#[verifier::external_body]
fn system_now() -> std::time::SystemTime {
    std::time::SystemTime::now()
}

/// Calls `SystemTime::duration_since` with `UNIX_EPOCH`; the result, with the error as
/// text, is named.
#[verifier::external_body]
fn since_epoch(t: &std::time::SystemTime) -> (r: Result<std::time::Duration, String>)
    ensures
        match r {
            Ok(d) => since_unix_epoch(*t) == Ok::<std::time::Duration, Seq<char>>(d),
            Err(e) => since_unix_epoch(*t) == Err::<std::time::Duration, Seq<char>>(e@),
        },
{
    t.duration_since(std::time::UNIX_EPOCH).map_err(|e| e.to_string())
}

/// Calls `SystemTime::checked_add`; the result is named.
#[verifier::external_body]
fn checked_later(t: &std::time::SystemTime, d: std::time::Duration) -> (r: Option<std::time::SystemTime>)
    ensures
        r == system_time_plus(*t, d),
{
    t.checked_add(d)
}

/// Calls `Duration::as_millis`; the number is named.
#[verifier::external_body]
fn duration_millis(d: &std::time::Duration) -> (ms: u128)
    ensures
        ms == duration_as_millis(*d),
{
    d.as_millis()
}

/// The milliseconds of a time since the Unix epoch, or the clock's error for a time
/// before it.
fn millis_since_epoch(t: &std::time::SystemTime) -> (r: Result<u128, String>)
    ensures
        match since_unix_epoch(*t) {
            Ok(d) => r == Ok::<u128, String>(duration_as_millis(d)),
            Err(e) => r matches Err(m) && m@ == e,
        },
{
    match since_epoch(t) {
        Ok(d) => Ok(duration_millis(&d)),
        Err(e) => Err(e),
    }
}

/// Reads the system clock and gives the milliseconds since the Unix epoch, or the clock's
/// error for a clock set before it. The time read is not claimed.
fn system_millis() -> Result<u128, String> {
    let now = system_now();
    millis_since_epoch(&now)
}

/// Reads the system clock, adds `after`, and gives the milliseconds of that moment since
/// the Unix epoch; nothing when the sum cannot be represented or lies before the epoch.
/// The time read is not claimed.
fn system_millis_after(after: std::time::Duration) -> Option<u128> {
    let now = system_now();
    match checked_later(&now, after) {
        Some(t) => match millis_since_epoch(&t) {
            Ok(ms) => Some(ms),
            Err(_) => None,
        },
        None => None,
    }
}

/// Milliseconds as a stored time stamp: at most `i64::MAX`.
pub fn millis_to_timestamp(millis: u128) -> (ts: i64)
    ensures
        ts == if millis > i64::MAX {
            i64::MAX as int
        } else {
            millis as int
        },
{
    if millis > i64::MAX as u128 {
        i64::MAX
    } else {
        millis as i64
    }
}

/// Milliseconds as a `u64` time: at most `u64::MAX`.
pub fn millis_to_u64_saturating(millis: u128) -> (ms: u64)
    ensures
        ms == if millis > u64::MAX {
            u64::MAX as int
        } else {
            millis as int
        },
{
    if millis > u64::MAX as u128 {
        u64::MAX
    } else {
        millis as u64
    }
}

/// Milliseconds cut to 64 bits, as `as u64` does.
pub fn millis_to_u64_truncating(millis: u128) -> (ms: u64)
    ensures
        ms == millis % 0x1_0000_0000_0000_0000,
{
    (millis % 0x1_0000_0000_0000_0000u128) as u64
}

/// The time for a command history entry: milliseconds since the epoch, at most
/// `i64::MAX`, or the clock's error. The time itself is the clock's.
pub fn current_timestamp_ms() -> (ts: Result<i64, String>)
    ensures
        ts matches Ok(v) ==> v >= 0,
{
    match system_millis() {
        Ok(m) => Ok(millis_to_timestamp(m)),
        Err(e) => Err(e),
    }
}

/// The time for a saved record: milliseconds since the epoch cut to 64 bits, 0 for a clock
/// before the epoch. The time itself is the clock's.
pub fn now_millis() -> (ms: u64) {
    match system_millis() {
        Ok(m) => millis_to_u64_truncating(m),
        Err(_) => 0,
    }
}

/// When a request that expires after `after` expires: milliseconds since the epoch, at
/// most `u64::MAX`, or 0 when that moment cannot be represented. The time itself is the
/// clock's.
pub fn epoch_millis_after(after: std::time::Duration) -> (ms: u64) {
    match system_millis_after(after) {
        Some(m) => millis_to_u64_saturating(m),
        None => 0,
    }
}

} // verus!
