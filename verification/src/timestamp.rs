//! Publication timestamps: a point in time with an explicit UTC offset, held
//! as plain calendar components, rendered through the `time` crate as RFC
//! 3339 where that format can represent it, and as the timestamp's default
//! textual form otherwise.

use vstd::prelude::*;

verus! {

/// A point in time with an explicit UTC offset, as proleptic Gregorian
/// calendar components.
#[derive(Clone, Copy, PartialEq, Eq, Structural, Debug)]
pub struct Timestamp {
    pub year: i32,
    pub month: u8,
    pub day: u8,
    pub hour: u8,
    pub minute: u8,
    pub second: u8,
    pub nanosecond: u32,
    /// Offset from UTC in whole seconds, positive east of Greenwich.
    pub offset_seconds: i32,
}

pub open spec fn is_leap_year(y: int) -> bool {
    y % 4 == 0 && (y % 100 != 0 || y % 400 == 0)
}

/// How many days a month has.
pub fn days_in_month_count(year: i32, month: u8) -> (r: u8)
    requires
        -9999 <= year <= 9999,
        1 <= month <= 12,
    ensures
        r as int == days_in_month(year as int, month as int),
{
    if month == 2 {
        // Shift by a whole number of 400-year cycles so the remainders are
        // taken of a positive value; divisibility is unchanged.
        let y: i32 = year + 10000;
        proof {
            vstd::arithmetic::div_mod::lemma_mod_multiples_vanish(2500, year as int, 4);
            vstd::arithmetic::div_mod::lemma_mod_multiples_vanish(100, year as int, 100);
            vstd::arithmetic::div_mod::lemma_mod_multiples_vanish(25, year as int, 400);
        }
        if y % 4 == 0 && (y % 100 != 0 || y % 400 == 0) {
            29
        } else {
            28
        }
    } else if month == 4 || month == 6 || month == 9 || month == 11 {
        30
    } else {
        31
    }
}

pub open spec fn days_in_month(y: int, m: int) -> int {
    if m == 2 {
        if is_leap_year(y) {
            29
        } else {
            28
        }
    } else if m == 4 || m == 6 || m == 9 || m == 11 {
        30
    } else {
        31
    }
}

impl Timestamp {
    /// A well-formed timestamp: a real calendar date and time of day, with
    /// an offset a clock can carry (at most 25:59:59 from UTC either way).
    pub open spec fn wf(self) -> bool {
        &&& -9999 <= self.year <= 9999
        &&& 1 <= self.month <= 12
        &&& 1 <= self.day <= days_in_month(self.year as int, self.month as int)
        &&& self.hour <= 23
        &&& self.minute <= 59
        &&& self.second <= 59
        &&& self.nanosecond <= 999_999_999
        &&& -93599 <= self.offset_seconds <= 93599
    }
}

/// Whether RFC 3339 can represent a timestamp: a nonnegative four-digit
/// year, and an offset that is a whole number of minutes within +-23:59.
pub open spec fn rfc3339_representable(t: Timestamp) -> bool {
    &&& t.wf()
    &&& 0 <= t.year
    &&& t.offset_seconds % 60 == 0
    &&& -86340 <= t.offset_seconds <= 86340
}

/// The RFC 3339 rendering of a representable timestamp.
pub uninterp spec fn rfc3339_of(t: Timestamp) -> Seq<char>;

/// The default textual rendering of a timestamp.
pub uninterp spec fn display_of(t: Timestamp) -> Seq<char>;

/// The timestamp an RFC 3339 string denotes, if any.
pub uninterp spec fn rfc3339_parse_of(s: Seq<char>) -> Option<Timestamp>;

/// Relies on `time`'s RFC 3339 well-known format with
/// `OffsetDateTime::format`: the rendering depends on the calendar
/// components alone; formatting succeeds exactly when the year is in
/// 0..=9999, the offset is a whole number of minutes, and its hours part is
/// at most 23 in magnitude; and `OffsetDateTime::parse` reads the rendering
/// back to the same components. Construction of the `OffsetDateTime` itself
/// fails exactly on values that are not well-formed.
#[verifier::external_body]
fn try_format_rfc3339(ts: &Timestamp) -> (r: Option<String>)
    ensures
        (r is Some) == rfc3339_representable(*ts),
        r matches Some(s) ==> s@ == rfc3339_of(*ts) && s@.len() > 0 && rfc3339_parse_of(s@)
            == Some(*ts),
{
    let month = time::Month::try_from(ts.month).ok()?;
    let date = time::Date::from_calendar_date(ts.year, month, ts.day).ok()?;
    let dt = date.with_hms_nano(ts.hour, ts.minute, ts.second, ts.nanosecond).ok()?;
    let offset = time::UtcOffset::from_whole_seconds(ts.offset_seconds).ok()?;
    dt.assume_offset(offset).format(&time::format_description::well_known::Rfc3339).ok()
}

/// Relies on `time`'s `Display` for `OffsetDateTime` (via `to_string`): a
/// nonempty `date time offset` rendering, a function of the components
/// alone.
#[verifier::external_body]
fn format_display(ts: &Timestamp) -> (r: String)
    requires
        ts.wf(),
    ensures
        r@ == display_of(*ts),
        r@.len() > 0,
{
    let month = time::Month::try_from(ts.month).unwrap();
    let date = time::Date::from_calendar_date(ts.year, month, ts.day).unwrap();
    let dt = date.with_hms_nano(ts.hour, ts.minute, ts.second, ts.nanosecond).unwrap();
    let offset = time::UtcOffset::from_whole_seconds(ts.offset_seconds).unwrap();
    dt.assume_offset(offset).to_string()
}

/// Relies on `time`'s `OffsetDateTime::parse` with the RFC 3339 well-known
/// format: the outcome depends on the input string alone, and a parsed
/// timestamp has well-formed components.
#[verifier::external_body]
pub fn parse_rfc3339(s: &str) -> (r: Option<Timestamp>)
    ensures
        r == rfc3339_parse_of(s@),
        r matches Some(t) ==> t.wf(),
{
    let dt = time::OffsetDateTime::parse(s, &time::format_description::well_known::Rfc3339)
        .ok()?;
    Some(Timestamp {
        year: dt.year(), month: u8::from(dt.month()), day: dt.day(), hour: dt.hour(),
        minute: dt.minute(), second: dt.second(), nanosecond: dt.nanosecond(),
        offset_seconds: dt.offset().whole_seconds(),
    })
}

/// What rendering a timestamp yields: RFC 3339 where representable, the
/// default textual form otherwise.
pub open spec fn rendered_timestamp(t: Timestamp) -> Seq<char> {
    if rfc3339_representable(t) {
        rfc3339_of(t)
    } else {
        display_of(t)
    }
}

/// Render a well-formed timestamp. Total: where RFC 3339 cannot represent
/// the value, the default textual form stands in, so the result is never
/// empty and rendering never fails.
pub fn render_timestamp(ts: &Timestamp) -> (r: String)
    requires
        ts.wf(),
    ensures
        r@ == rendered_timestamp(*ts),
        r@.len() > 0,
        rfc3339_representable(*ts) ==> rfc3339_parse_of(r@) == Some(*ts),
{
    match try_format_rfc3339(ts) {
        Some(s) => s,
        None => format_display(ts),
    }
}

} // verus!
