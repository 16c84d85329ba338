//! The boundary to wall-clock time and to humantime's textual formats.
//! Instants are carried as nanoseconds since the Unix epoch; durations as
//! nanoseconds.

use vstd::prelude::*;

verus! {

/// The instant that humantime's `parse_rfc3339_weak` reads out of a piece
/// of text, as nanoseconds since the Unix epoch; `None` where the text is
/// rejected or the instant does not fit in 64 bits of nanoseconds.
pub uninterp spec fn timestamp_of(s: Seq<char>) -> Option<u64>;

/// The text that humantime's `format_rfc3339` writes for an instant given
/// as nanoseconds since the Unix epoch.
pub uninterp spec fn rfc3339_of(t: u64) -> Seq<char>;

/// The duration that humantime's grammar reads out of a piece of text, as
/// nanoseconds; `None` where the text is rejected or the total does not
/// fit in 64 bits of nanoseconds.
pub uninterp spec fn duration_nanos_of(s: Seq<char>) -> Option<u64>;

/// Relies on std's `SystemTime::now`. The clock may say anything, so
/// nothing is promised of the result.
#[verifier::external_body]
pub fn now_nanos() -> u64 {
    match std::time::SystemTime::now().duration_since(std::time::UNIX_EPOCH) {
        Ok(d) => u64::try_from(d.as_nanos()).unwrap_or(u64::MAX),
        Err(_) => 0,
    }
}

/// Relies on humantime's `parse_duration`, which `Duration::from_str`
/// wraps: the result is a function of the text alone.
#[verifier::external_body]
pub fn parse_duration_nanos(s: &str) -> (r: Option<u64>)
    ensures
        r == duration_nanos_of(s@),
{
    match humantime::parse_duration(s) {
        Ok(d) => u64::try_from(d.as_nanos()).ok(),
        Err(_) => None,
    }
}

/// What `format_timestamp` establishes of its output: the text holds no
/// comma, newline or carriage return, and parsing it yields the instant
/// back.
pub open spec fn timestamp_codec_ok(t: u64) -> bool {
    &&& timestamp_of(rfc3339_of(t)) == Some(t)
    &&& forall|i: int|
        0 <= i < rfc3339_of(t).len() ==> rfc3339_of(t)[i] != ',' && rfc3339_of(t)[i] != '\n'
            && rfc3339_of(t)[i] != '\r'
}

/// Relies on humantime's `format_rfc3339`: its smart precision prints the
/// full nine-digit fraction whenever it is nonzero, it writes only digits
/// and `-T:.Z`, and `parse_rfc3339_weak` reads the same instant back.
#[verifier::external_body]
pub fn format_timestamp(t: u64) -> (r: String)
    ensures
        r@ == rfc3339_of(t),
        timestamp_of(r@) == Some(t),
        forall|i: int| 0 <= i < r@.len() ==> r@[i] != ',' && r@[i] != '\n' && r@[i] != '\r',
{
    let st = std::time::UNIX_EPOCH + std::time::Duration::from_nanos(t);
    humantime::format_rfc3339(st).to_string()
}

/// Relies on humantime's `parse_rfc3339_weak`, which `Timestamp::from_str`
/// wraps: the result is a function of the text alone.
#[verifier::external_body]
pub fn parse_timestamp(s: &str) -> (r: Option<u64>)
    ensures
        r == timestamp_of(s@),
{
    match humantime::parse_rfc3339_weak(s) {
        Ok(st) => match st.duration_since(std::time::UNIX_EPOCH) {
            Ok(d) => u64::try_from(d.as_nanos()).ok(),
            Err(_) => None,
        },
        Err(_) => None,
    }
}

} // verus!
