//! Reading the clock and writing the time as RFC 3339 text.
use vstd::prelude::*;

verus! {

/// A reading of the system clock.
#[verifier::external_type_specification]
#[verifier::external_body]
pub struct ExSystemTime(std::time::SystemTime);

/// `std::time::SystemTime::now`: the clock's present reading. Nothing is
/// stated of it.
#[verifier::external_body]
fn system_time_now() -> (t: std::time::SystemTime) {
    std::time::SystemTime::now()
}

/// `SystemTime::duration_since(UNIX_EPOCH)`: how long after 1970 `t` is;
/// `None` when `t` is before 1970 (the call's error). Nothing more is
/// stated: `t` is a clock reading.
#[verifier::external_body]
fn since_unix_epoch(t: &std::time::SystemTime) -> (d: Option<std::time::Duration>) {
    match t.duration_since(std::time::UNIX_EPOCH) {
        Ok(d) => Some(d),
        Err(_) => None,
    }
}

/// `Duration::as_secs`: the whole seconds of `d`. Nothing is stated of it:
/// a `Duration` is opaque here.
#[verifier::external_body]
fn duration_secs(d: &std::time::Duration) -> (secs: u64) {
    d.as_secs()
}

/// `Duration::subsec_nanos`: the nanoseconds of `d` past its whole seconds.
/// Stated of it: fewer than one billion, as its documentation says.
#[verifier::external_body]
fn duration_subsec_nanos(d: &std::time::Duration) -> (nanos: u32)
    ensures
        nanos < 1_000_000_000,
{
    d.subsec_nanos()
}

/// A character that a UTC time stamp in RFC 3339 form, to whole seconds, is
/// made of.
pub open spec fn is_timestamp_char(c: char) -> bool {
    ('0' <= c && c <= '9') || c == '-' || c == '+' || c == ':' || c == 'T' || c == 'Z'
}

/// Text of the form that `now_rfc3339` gives: not empty, ending in `Z`, and
/// made only of digits and `-`, `+`, `:`, `T`, `Z`.
pub open spec fn is_timestamp(stamp: Seq<char>) -> bool {
    &&& stamp.len() > 0
    &&& stamp.last() == 'Z'
    &&& forall|i: int| 0 <= i < stamp.len() ==> is_timestamp_char(#[trigger] stamp[i])
}

/// The digits-and-separators form `YYYY-MM-DDTHH:MM:SSZ`: twenty characters,
/// `-` at 4 and 7, `T` at 10, `:` at 13 and 16, `Z` at 19, digits elsewhere.
pub open spec fn is_rfc3339_four_digit_year(s: Seq<char>) -> bool {
    &&& s.len() == 20
    &&& s[4] == '-' && s[7] == '-' && s[10] == 'T' && s[13] == ':' && s[16] == ':' && s[19] == 'Z'
    &&& forall|i: int|
        0 <= i < 20 && i != 4 && i != 7 && i != 10 && i != 13 && i != 16 && i != 19 ==> '0'
            <= #[trigger] s[i] <= '9'
}

/// A time stamp was given, of the form `YYYY-MM-DDTHH:MM:SSZ`.
pub open spec fn four_digit_year_stamp(stamp: Option<String>) -> bool {
    stamp matches Some(s) && is_rfc3339_four_digit_year(s@)
}

/// The seconds since 1970 of 0000-01-01T00:00:00Z and of 9999-12-31T23:59:59Z.
pub open spec fn in_four_digit_years(secs: int) -> bool {
    -62_167_219_200 <= secs <= 253_402_300_799
}

/// The RFC 3339 text, to whole seconds, of the UTC time `secs` seconds and
/// `nanos` nanoseconds after 1970, as chrono writes it; `None` when chrono
/// cannot hold that time.
pub uninterp spec fn rfc3339_utc(secs: i64, nanos: u32) -> Option<Seq<char>>;

/// `chrono::DateTime::<Utc>::from_timestamp(secs, nanos)` and, when that
/// gives a time, `DateTime::to_rfc3339_opts(SecondsFormat::Secs, true)` on
/// it (such as `2026-05-15T13:42:07Z`). The two calls stand in one item
/// because Verus refuses a declaration of `chrono::DateTime`, whose
/// parameter is bound by chrono's `TimeZone` trait.
/// Stated of it: the result is `rfc3339_utc(secs, nanos)`, a function of the
/// arguments alone; a text it gives is not empty, ends in `Z` (the zero
/// offset with `use_z`), and holds only the digits of the date and time,
/// `-`, `:`, `T`, `Z`, and `+` or `-` before a year outside 0..=9999. For a
/// time in the years 0..=9999 with fewer than one billion nanoseconds there
/// is a text, of the form `YYYY-MM-DDTHH:MM:SSZ`. Which other seconds and
/// nanoseconds chrono accepts, and the date it writes, are not stated.
#[verifier::external_body]
fn rfc3339_from_timestamp(secs: i64, nanos: u32) -> (stamp: Option<String>)
    ensures
        match stamp {
            Some(s) => rfc3339_utc(secs, nanos) == Some(s@) && is_timestamp(s@),
            None => rfc3339_utc(secs, nanos) is None,
        },
        in_four_digit_years(secs as int) && nanos < 1_000_000_000 ==> four_digit_year_stamp(stamp),
{
    match chrono::DateTime::<chrono::Utc>::from_timestamp(secs, nanos) {
        Some(dt) => Some(dt.to_rfc3339_opts(chrono::SecondsFormat::Secs, true)),
        None => None,
    }
}

/// The time stamp for a clock reading given as seconds and nanoseconds since
/// 1970: `None` when the seconds do not fit an `i64` or chrono cannot hold
/// the time.
pub fn rfc3339_from_epoch(secs: u64, nanos: u32) -> (stamp: Option<String>)
    ensures
        secs > i64::MAX ==> stamp is None,
        secs <= i64::MAX ==> match stamp {
            Some(s) => rfc3339_utc(secs as i64, nanos) == Some(s@),
            None => rfc3339_utc(secs as i64, nanos) is None,
        },
        stamp matches Some(s) ==> is_timestamp(s@),
        in_four_digit_years(secs as int) && nanos < 1_000_000_000 ==> four_digit_year_stamp(stamp),
{
    if secs > i64::MAX as u64 {
        return None;
    }
    rfc3339_from_timestamp(secs as i64, nanos)
}

/// The current time in UTC as RFC 3339 text to whole seconds, such as
/// `2026-05-15T13:42:07Z`; `None` when the clock reads before 1970 or past
/// what the time types can hold.
pub fn now_rfc3339() -> (stamp: Option<String>)
    ensures
        stamp matches Some(s) ==> is_timestamp(s@),
        stamp matches Some(s) ==> exists|secs: u64, nanos: u32|
            secs <= i64::MAX && nanos < 1_000_000_000 && #[trigger] rfc3339_utc(secs as i64, nanos)
                == Some(s@),
{
    let t = system_time_now();
    match since_unix_epoch(&t) {
        Some(d) => {
            let secs = duration_secs(&d);
            let nanos = duration_subsec_nanos(&d);
            let stamp = rfc3339_from_epoch(secs, nanos);
            assert(stamp matches Some(s) ==> secs <= i64::MAX && nanos < 1_000_000_000
                && rfc3339_utc(secs as i64, nanos) == Some(s@));
            stamp
        },
        None => None,
    }
}

} // verus!
