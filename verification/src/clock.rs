use vstd::prelude::*;

verus! {

/// A reading of the UTC wall clock, with the renderings of it that the server stores.
#[derive(Debug)]
pub struct UtcNow {
    /// Whole seconds since the Unix epoch.
    pub secs: i64,
    /// Nanoseconds past that second.
    pub nanos: u32,
    /// Milliseconds since the Unix epoch.
    pub millis: u64,
    /// The same instant in RFC 3339 form.
    pub rfc3339: String,
    /// The calendar date of the same instant, `YYYY-MM-DD`.
    pub date: String,
}

/// Reads the clock with `chrono::Utc::now` and takes the instant apart with `timestamp`
/// and `timestamp_subsec_nanos`. Nothing is promised of the values: they depend on the
/// time of the call.
#[verifier::external_body]
fn clock_reading() -> (r: (i64, u32)) {
    let now = chrono::Utc::now();
    (now.timestamp(), now.timestamp_subsec_nanos())
}

/// What `chrono::DateTime::<Utc>::from_timestamp(secs, nanos)` rendered with
/// `to_rfc3339` gives; empty for an instant outside chrono's range.
pub uninterp spec fn rfc3339_of(secs: i64, nanos: u32) -> Seq<char>;

/// The RFC 3339 form of an instant, through `chrono::DateTime::<Utc>::from_timestamp` and
/// `to_rfc3339`; an instant outside chrono's range gives the empty string. The result is
/// named by [`rfc3339_of`]; the calendar arithmetic is not stated here.
#[verifier::external_body]
pub(crate) fn rfc3339_at(secs: i64, nanos: u32) -> (r: String)
    ensures
        r@ == rfc3339_of(secs, nanos),
{
    match chrono::DateTime::<chrono::Utc>::from_timestamp(secs, nanos) {
        Some(d) => d.to_rfc3339(),
        None => String::new(),
    }
}

/// What `chrono::DateTime::<Utc>::from_timestamp(secs, 0)` followed by `date_naive` and
/// `to_string` gives; empty for an instant outside chrono's range.
pub uninterp spec fn date_of(secs: i64) -> Seq<char>;

/// The calendar date (`YYYY-MM-DD`) of an instant, through `from_timestamp`, `date_naive`
/// and `to_string`; an instant outside chrono's range gives the empty string. The result
/// is named by [`date_of`].
#[verifier::external_body]
pub(crate) fn date_at(secs: i64) -> (r: String)
    ensures
        r@ == date_of(secs),
{
    match chrono::DateTime::<chrono::Utc>::from_timestamp(secs, 0) {
        Some(d) => d.date_naive().to_string(),
        None => String::new(),
    }
}

/// What `chrono::DateTime::<Utc>::from_timestamp(secs, 0)` rendered with
/// `format("%Y-%m-%d %H:%M")` gives; empty for an instant outside chrono's range.
pub uninterp spec fn minute_label_of(secs: i64) -> Seq<char>;

/// The `YYYY-MM-DD HH:MM` label of an instant, through `from_timestamp` and `format`; an
/// instant outside chrono's range gives the empty string. The result is named by
/// [`minute_label_of`].
#[verifier::external_body]
pub(crate) fn minute_label_at(secs: i64) -> (r: String)
    ensures
        r@ == minute_label_of(secs),
{
    match chrono::DateTime::<chrono::Utc>::from_timestamp(secs, 0) {
        Some(d) => d.format("%Y-%m-%d %H:%M").to_string(),
        None => String::new(),
    }
}

/// `secs` moved by `delta` seconds, held within the range of `i64`.
pub open spec fn shifted(secs: i64, delta: int) -> i64 {
    if secs + delta > i64::MAX {
        i64::MAX
    } else if secs + delta < i64::MIN {
        i64::MIN
    } else {
        (secs + delta) as i64
    }
}

/// Moves `secs` by `delta` seconds, held within the range of `i64`.
pub fn shift(secs: i64, delta: i64) -> (r: i64)
    ensures
        r == shifted(secs, delta as int),
{
    let t: i128 = secs as i128 + delta as i128;
    if t > 0x7fff_ffff_ffff_ffffi128 {
        0x7fff_ffff_ffff_ffffi64
    } else if t < -0x8000_0000_0000_0000i128 {
        -0x8000_0000_0000_0000i64
    } else {
        t as i64
    }
}

/// The milliseconds since the epoch of an instant, as `timestamp_millis` counts them
/// (whole seconds times a thousand plus the milliseconds past the second), held within
/// the range of `i64` and then taken as a `u64`.
pub open spec fn millis_of(secs: i64, nanos: u32) -> u64 {
    (shifted(0, secs * 1000 + nanos / 1_000_000)) as u64
}

fn millis_at(secs: i64, nanos: u32) -> (r: u64)
    ensures
        r == millis_of(secs, nanos),
{
    let t: i128 = secs as i128 * 1000 + (nanos / 1_000_000) as i128;
    let c: i64 = if t > 0x7fff_ffff_ffff_ffffi128 {
        0x7fff_ffff_ffff_ffffi64
    } else if t < -0x8000_0000_0000_0000i128 {
        -0x8000_0000_0000_0000i64
    } else {
        t as i64
    };
    c as u64
}

/// `millis` and `stamp` describe one reading of the clock: its milliseconds since the
/// epoch and its RFC 3339 form.
pub open spec fn one_reading(millis: u64, stamp: Seq<char>) -> bool {
    exists|secs: i64, nanos: u32| millis == millis_of(secs, nanos) && #[trigger] rfc3339_of(secs, nanos) == stamp
}

/// Reads the UTC clock; the milliseconds, the RFC 3339 form and the date all describe
/// the instant read.
pub fn now_utc() -> (r: UtcNow)
    ensures
        r.millis == millis_of(r.secs, r.nanos),
        r.rfc3339@ == rfc3339_of(r.secs, r.nanos),
        r.date@ == date_of(r.secs),
{
    let (secs, nanos) = clock_reading();
    UtcNow { secs, nanos, millis: millis_at(secs, nanos), rfc3339: rfc3339_at(secs, nanos), date: date_at(secs) }
}

/// Nanoseconds since the Unix epoch, from `std::time::SystemTime::now` measured with
/// `duration_since(UNIX_EPOCH)` (zero when the clock is set before the epoch) and
/// `as_nanos`. Nothing is promised of the value.
#[verifier::external_body]
pub(crate) fn unix_nanos() -> (r: u128) {
    std::time::SystemTime::now().duration_since(std::time::UNIX_EPOCH).unwrap_or_default().as_nanos()
}

} // verus!
