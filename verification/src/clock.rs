//! The two sources of fresh values: the wall clock and random identifiers.
use vstd::prelude::*;
use crate::text::is_digit;

verus! {

/// The characters `i` and `i + 1` are the digits of a number from `low` to `high`.
pub open spec fn two_digits(s: Seq<char>, i: int, low: int, high: int) -> bool {
    &&& is_digit(s[i])
    &&& is_digit(s[i + 1])
    &&& low <= (s[i] as int - '0' as int) * 10 + (s[i + 1] as int - '0' as int) <= high
}

/// A year: four digits, or a sign and more of them before the year 0 and past the
/// year 9999.
pub open spec fn year_like(s: Seq<char>) -> bool {
    ||| s.len() == 4 && forall|i: int| 0 <= i < 4 ==> is_digit(#[trigger] s[i])
    ||| 5 <= s.len() <= 7 && (s[0] == '+' || s[0] == '-') && forall|i: int|
        1 <= i < s.len() ==> is_digit(#[trigger] s[i])
}

/// A UTC time stamp in the iCalendar form, such as `20260516T120000Z`: year, month
/// and day, `T`, hour, minute and second, `Z`. A leap second counts as 60.
pub open spec fn stamp_like(s: Seq<char>) -> bool {
    let y = s.len() - 12;
    &&& s.len() >= 16
    &&& year_like(s.take(y))
    &&& two_digits(s, y, 1, 12)
    &&& two_digits(s, y + 2, 1, 31)
    &&& s[y + 4] == 'T'
    &&& two_digits(s, y + 5, 0, 23)
    &&& two_digits(s, y + 7, 0, 59)
    &&& two_digits(s, y + 9, 0, 60)
    &&& s[y + 11] == 'Z'
}

/// A UTC time stamp such as `2026-05-16T12:00:00Z`, with the same fields.
pub open spec fn log_stamp_like(s: Seq<char>) -> bool {
    let y = s.len() - 16;
    &&& s.len() >= 20
    &&& year_like(s.take(y))
    &&& s[y] == '-'
    &&& two_digits(s, y + 1, 1, 12)
    &&& s[y + 3] == '-'
    &&& two_digits(s, y + 4, 1, 31)
    &&& s[y + 6] == 'T'
    &&& two_digits(s, y + 7, 0, 23)
    &&& s[y + 9] == ':'
    &&& two_digits(s, y + 10, 0, 59)
    &&& s[y + 12] == ':'
    &&& two_digits(s, y + 13, 0, 60)
    &&& s[y + 15] == 'Z'
}

/// The places of the hyphens in a UUID.
pub open spec fn hyphen_at(i: int) -> bool {
    i == 8 || i == 13 || i == 18 || i == 23
}

pub open spec fn is_hex(c: char) -> bool {
    ('0' <= c && c <= '9') || ('a' <= c && c <= 'f')
}

/// A hyphenated random UUID: hexadecimal digits in groups of 8, 4, 4, 4 and 12. The
/// third group starts with the version, 4, and the fourth with the variant.
pub open spec fn uuid_like(s: Seq<char>) -> bool {
    &&& s.len() == 36
    &&& forall|i: int|
        0 <= i < 36 ==> if hyphen_at(i) {
            #[trigger] s[i] == '-'
        } else {
            is_hex(s[i])
        }
    &&& s[14] == '4'
    &&& (s[19] == '8' || s[19] == '9' || s[19] == 'a' || s[19] == 'b')
}

/// The machine's time as a `chrono::DateTime`, rendered by its `format` as
/// `%Y%m%dT%H%M%SZ`. The time is the machine's; the form of the rendering is claimed,
/// with each field in its range. It panics on a clock past the years that chrono counts,
/// some 260000 before and after the year 0.
#[verifier::external_body]
pub(crate) fn utc_stamp() -> (s: String)
    ensures
        stamp_like(s@),
{
    let now = chrono::DateTime::<chrono::Utc>::from(std::time::SystemTime::now());
    now.format("%Y%m%dT%H%M%SZ").to_string()
}

/// The same, rendered as `%Y-%m-%dT%H:%M:%SZ`.
#[verifier::external_body]
pub(crate) fn log_stamp() -> (s: String)
    ensures
        log_stamp_like(s@),
{
    let now = chrono::DateTime::<chrono::Utc>::from(std::time::SystemTime::now());
    now.format("%Y-%m-%dT%H:%M:%SZ").to_string()
}

/// The machine's time as a `chrono::DateTime`, in whole seconds from the Unix epoch on
/// by its `timestamp`: negative on a clock that stands before the epoch. The time is
/// the machine's, and nothing is claimed of it.
#[verifier::external_body]
fn clock_seconds() -> (n: i64) {
    chrono::DateTime::<chrono::Utc>::from(std::time::SystemTime::now()).timestamp()
}

/// The second since the Unix epoch that stands for a reading of the clock: a time before
/// the epoch counts as the epoch.
pub fn seconds_from(reading: i64) -> (n: i64)
    ensures
        n == (if reading < 0 {
            0
        } else {
            reading as int
        }),
{
    if reading < 0 {
        0
    } else {
        reading
    }
}

/// The present second since the Unix epoch; 0 on a clock that stands before it.
pub(crate) fn unix_now() -> (n: i64)
    ensures
        n >= 0,
{
    seconds_from(clock_seconds())
}

/// `uuid::Uuid::new_v4` in its hyphenated lower-case form. The value is random; its form
/// is claimed, with the places of the hyphens, the version and the variant.
#[verifier::external_body]
pub(crate) fn fresh_uuid() -> (s: String)
    ensures
        uuid_like(s@),
{
    uuid::Uuid::new_v4().to_string()
}

/// A moment: its stamp in iCalendar texts and its second since the Unix epoch.
#[derive(Debug)]
pub struct Moment {
    pub stamp: String,
    pub secs: i64,
}

#[verifier::ext_equal]
pub struct MomentV {
    pub stamp: Seq<char>,
    pub secs: int,
}

impl View for Moment {
    type V = MomentV;

    open spec fn view(&self) -> MomentV {
        MomentV { stamp: self.stamp@, secs: self.secs as int }
    }
}

impl Moment {
    /// The present moment, which is the machine's: its stamp in the iCalendar form,
    /// and its second, not before the Unix epoch.
    pub fn now() -> (m: Moment)
        ensures
            stamp_like(m@.stamp),
            m@.secs >= 0,
    {
        Moment { stamp: utc_stamp(), secs: unix_now() }
    }
}

/// A new identifier for a task.
pub fn new_uid() -> (s: String)
    ensures
        uuid_like(s@),
{
    fresh_uuid()
}

} // verus!
