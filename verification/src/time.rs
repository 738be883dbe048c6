//! Clocks and dates.
//!
//! An instant is a pair: whole seconds since the Unix epoch, and the nanoseconds after them.

use vstd::prelude::*;

use crate::text::{decimal, decimal2, digits, digits2};

verus! {

// ---------------------------------------------------------------------------
// Instants and their text
// ---------------------------------------------------------------------------

/// The first second of the earliest year that a timestamp can be written for.
pub const FIRST_SECOND: i64 = -8_334_601_228_800;

/// The last second of the latest year that a timestamp can be written for.
pub const LAST_SECOND: i64 = 8_210_266_876_799;

/// An instant that a timestamp can be written for.
pub open spec fn representable(secs: i64, nanos: u32) -> bool {
    FIRST_SECOND <= secs <= LAST_SECOND && nanos < 1_000_000_000
}

/// An instant in the years 0 to 9999, which have four digits.
pub open spec fn four_digit_year(secs: i64) -> bool {
    -62_167_219_200 <= secs <= 253_402_300_799
}

/// The RFC 3339 text of an instant, in UTC.
pub uninterp spec fn rfc3339_text(secs: i64, nanos: u32) -> Seq<char>;

/// The instant that an RFC 3339 text denotes, if it is one.
pub uninterp spec fn rfc3339_instant(text: Seq<char>) -> Option<(i64, u32)>;

/// One instant is before another.
pub open spec fn before(a: (i64, u32), b: (i64, u32)) -> bool {
    a.0 < b.0 || (a.0 == b.0 && a.1 < b.1)
}

/// `SystemTime::elapsed` on the Unix epoch: how long ago it was, or, as the error, how far it still
/// lies ahead of the clock. Of either nothing is known but that less than a second is left over
/// beside the whole seconds.
#[verifier::external_body]
fn since_epoch() -> (r: Result<(u64, u32), (u64, u32)>)
    ensures
        clock_fits(r),
{
    match std::time::UNIX_EPOCH.elapsed() {
        Ok(d) => Ok((d.as_secs(), d.subsec_nanos())),
        Err(e) => Err((e.duration().as_secs(), e.duration().subsec_nanos())),
    }
}

/// `Utc::now` of `chrono`. It stops the program if the clock stands before the Unix epoch or after
/// the latest year; otherwise the instant is between the two, with fewer than a second left over.
#[verifier::external_body]
pub(crate) fn utc_now() -> (r: (i64, u32))
    ensures
        0 <= r.0 <= LAST_SECOND,
        r.1 < 1_000_000_000,
{
    let now = chrono::Utc::now();
    (now.timestamp(), now.timestamp_subsec_nanos())
}

/// `DateTime::to_rfc3339` of `chrono`, for the UTC instant given. The text is a function of the
/// instant, and in the years 0 to 9999 the instant can be read back from it.
#[verifier::external_body]
pub(crate) fn rfc3339(secs: i64, nanos: u32) -> (r: String)
    requires
        representable(secs, nanos),
    ensures
        r@ == rfc3339_text(secs, nanos),
        four_digit_year(secs) ==> rfc3339_instant(r@) == Some((secs, nanos)),
{
    chrono::DateTime::<chrono::Utc>::from_timestamp(secs, nanos).unwrap().to_rfc3339()
}

/// `DateTime::parse_from_rfc3339` of `chrono`: the instant that a timestamp denotes, whatever its
/// offset from UTC.
#[verifier::external_body]
pub(crate) fn parse_rfc3339(text: &str) -> (r: Option<(i64, u32)>)
    ensures
        r == rfc3339_instant(text@),
{
    let t = chrono::DateTime::parse_from_rfc3339(text).ok();
    t.map(|d| (d.timestamp(), d.timestamp_subsec_nanos()))
}

/// The current time as a timestamp.
pub fn now_string() -> (r: String)
    ensures
        exists|secs: i64, nanos: u32|
            #![trigger rfc3339_text(secs, nanos)]
            representable(secs, nanos) && r@ == rfc3339_text(secs, nanos),
{
    let (secs, nanos) = utc_now();
    rfc3339(secs, nanos)
}

/// The Unix epoch, in nanoseconds since an origin that no clock goes back to.
pub const EPOCH_NANOS: u128 = 18_446_744_073_709_551_616_000_000_000;

/// The whole seconds from the Unix epoch to the clock, cut to a machine word. Zero where the epoch
/// still lies ahead.
pub open spec fn clock_seconds(clock: Result<(u64, u32), (u64, u32)>) -> usize {
    match clock {
        Ok(d) => d.0 as usize,
        Err(_) => 0,
    }
}

/// What the clock shows, in nanoseconds since the origin: so much after the Unix epoch, or so much
/// before it.
pub open spec fn clock_nanos(clock: Result<(u64, u32), (u64, u32)>) -> int {
    match clock {
        Ok(d) => EPOCH_NANOS + d.0 * 1_000_000_000 + d.1,
        Err(d) => EPOCH_NANOS - d.0 * 1_000_000_000 - d.1,
    }
}

/// Less than a second is left over beside the whole seconds that the clock shows.
pub open spec fn clock_fits(clock: Result<(u64, u32), (u64, u32)>) -> bool {
    match clock {
        Ok(d) => d.1 < 1_000_000_000,
        Err(d) => d.1 < 1_000_000_000,
    }
}

/// The whole seconds from the Unix epoch to the clock.
pub fn seconds_at(clock: Result<(u64, u32), (u64, u32)>) -> (r: usize)
    ensures
        r == clock_seconds(clock),
{
    match clock {
        Ok(d) => #[verifier::truncate]
        (d.0 as usize),
        Err(_) => 0,
    }
}

/// What the clock shows, in nanoseconds since the origin.
pub fn nanos_at(clock: Result<(u64, u32), (u64, u32)>) -> (r: u128)
    requires
        clock_fits(clock),
    ensures
        r == clock_nanos(clock),
{
    match clock {
        Ok(d) => EPOCH_NANOS + d.0 as u128 * 1_000_000_000 + d.1 as u128,
        Err(d) => EPOCH_NANOS - d.0 as u128 * 1_000_000_000 - d.1 as u128,
    }
}

/// The seconds of the current time, cut to a machine word. The clock decides which; it shows less
/// than a second beside them.
pub fn unix_now() -> (r: usize)
    ensures
        exists|clock: Result<(u64, u32), (u64, u32)>|
            clock_fits(clock) && r == #[trigger] clock_seconds(clock),
{
    seconds_at(since_epoch())
}

/// The current time in nanoseconds since the origin. The clock decides which.
pub fn nanos_now() -> (r: u128)
    ensures
        exists|clock: Result<(u64, u32), (u64, u32)>|
            clock_fits(clock) && r == #[trigger] clock_nanos(clock),
        0 < r < 2 * EPOCH_NANOS,
{
    nanos_at(since_epoch())
}

/// Whether one instant is before another.
pub fn is_before(a: (i64, u32), b: (i64, u32)) -> (r: bool)
    ensures
        r == before(a, b),
{
    a.0 < b.0 || (a.0 == b.0 && a.1 < b.1)
}

// ---------------------------------------------------------------------------
// The calendar
// ---------------------------------------------------------------------------

/// A leap year of the Gregorian calendar.
pub open spec fn leap(y: int) -> bool {
    y % 4 == 0 && (y % 100 != 0 || y % 400 == 0)
}

/// How many days a year has.
pub open spec fn year_days(y: int) -> int {
    if leap(y) {
        366
    } else {
        365
    }
}

/// How many days a month has, the months numbered from 1.
pub open spec fn month_days(y: int, m: int) -> int {
    if m == 2 {
        if leap(y) {
            29
        } else {
            28
        }
    } else if m == 4 || m == 6 || m == 9 || m == 11 {
        30
    } else {
        31
    }
}

/// How many days lie between the start of 1970 and the start of the year `y`.
pub open spec fn days_before_year(y: int) -> int
    decreases y,
{
    if y <= 1970 {
        0
    } else {
        days_before_year(y - 1) + year_days(y - 1)
    }
}

/// How many days of the year `y` come before the month `m`.
pub open spec fn days_before_month(y: int, m: int) -> int
    decreases m,
{
    if m <= 1 {
        0
    } else {
        days_before_month(y, m - 1) + month_days(y, m - 1)
    }
}

/// The day that comes `days` days after 1 January 1970 is day `d` of month `m` of year `y`.
pub open spec fn is_date(days: int, y: int, m: int, d: int) -> bool {
    &&& y >= 1970
    &&& 1 <= m <= 12
    &&& 1 <= d <= month_days(y, m)
    &&& days == days_before_year(y) + days_before_month(y, m) + d - 1
}

/// The year, month and day that come `days` days after 1 January 1970.
pub open spec fn date_of(days: int) -> (int, int, int) {
    choose|t: (int, int, int)| #[trigger] is_date(days, t.0, t.1, t.2)
}

proof fn lemma_years_grow(a: int, b: int)
    requires
        1970 <= a < b,
    ensures
        days_before_year(a) + year_days(a) <= days_before_year(b),
    decreases b - a,
{
    if a + 1 < b {
        lemma_years_grow(a, b - 1);
    }
}

proof fn lemma_months_grow(y: int, a: int, b: int)
    requires
        1 <= a < b,
    ensures
        days_before_month(y, a) + month_days(y, a) <= days_before_month(y, b),
    decreases b - a,
{
    if a + 1 < b {
        lemma_months_grow(y, a, b - 1);
    }
}

proof fn lemma_year_is_its_months(y: int)
    ensures
        days_before_month(y, 13) == year_days(y),
{
    reveal_with_fuel(days_before_month, 14);
}

proof fn lemma_date_in_year(days: int, y: int, m: int, d: int)
    requires
        is_date(days, y, m, d),
    ensures
        days_before_year(y) <= days < days_before_year(y) + year_days(y),
{
    lemma_year_is_its_months(y);
    lemma_months_grow(y, m, 13);
    if m > 1 {
        lemma_months_grow(y, 1, m);
    }
}

/// No day has two dates.
pub proof fn law_one_date_per_day(days: int, y: int, m: int, d: int)
    requires
        is_date(days, y, m, d),
    ensures
        date_of(days) == (y, m, d),
{
    let t = (y, m, d);
    assert(is_date(days, t.0, t.1, t.2));
    let u = date_of(days);
    assert(is_date(days, u.0, u.1, u.2));
    lemma_date_in_year(days, y, m, d);
    lemma_date_in_year(days, u.0, u.1, u.2);
    if y < u.0 {
        lemma_years_grow(y, u.0);
    }
    if u.0 < y {
        lemma_years_grow(u.0, y);
    }
    if m < u.1 {
        lemma_months_grow(y, m, u.1);
    }
    if u.1 < m {
        lemma_months_grow(y, u.1, m);
    }
}

/// Whether `y` is a leap year.
fn is_leap(y: u64) -> (r: bool)
    ensures
        r == leap(y as int),
{
    y % 4 == 0 && (y % 100 != 0 || y % 400 == 0)
}

/// The days of the month `m` of the year `y`.
fn month_length(y: u64, m: u64) -> (r: u64)
    ensures
        r == month_days(y as int, m as int),
{
    if m == 2 {
        if is_leap(y) {
            29
        } else {
            28
        }
    } else if m == 4 || m == 6 || m == 9 || m == 11 {
        30
    } else {
        31
    }
}

/// The year, month and day that come `days` days after 1 January 1970.
pub fn date(days: u64) -> (r: (u64, u64, u64))
    requires
        days <= 0xffff_ffff_ffff,
    ensures
        is_date(days as int, r.0 as int, r.1 as int, r.2 as int),
        date_of(days as int) == (r.0 as int, r.1 as int, r.2 as int),
{
    let mut y: u64 = 1970;
    let mut rem: u64 = days;
    loop
        invariant
            days <= 0xffff_ffff_ffff,
            1970 <= y,
            y + rem <= 1970 + days,
            days == days_before_year(y as int) + rem,
        ensures
            rem < year_days(y as int),
        decreases rem,
    {
        let diy: u64 = if is_leap(y) {
            366
        } else {
            365
        };
        if rem < diy {
            break;
        }
        rem = rem - diy;
        y = y + 1;
    }
    let mut m: u64 = 1;
    proof {
        lemma_year_is_its_months(y as int);
    }
    loop
        invariant
            1 <= m <= 12,
            1970 <= y,
            days == days_before_year(y as int) + days_before_month(y as int, m as int) + rem,
            days_before_month(y as int, m as int) + rem < days_before_month(y as int, 13),
        ensures
            rem < month_days(y as int, m as int),
        decreases rem,
    {
        let len: u64 = month_length(y, m);
        if rem < len {
            break;
        }
        proof {
            assert(days_before_month(y as int, m + 1) == days_before_month(y as int, m as int) + len);
        }
        rem = rem - len;
        m = m + 1;
    }
    proof {
        law_one_date_per_day(days as int, y as int, m as int, rem + 1);
    }
    (y, m, rem + 1)
}

// ---------------------------------------------------------------------------
// Dates of HTTP
// ---------------------------------------------------------------------------

/// The short English name of a day of the week, counted from Sunday.
pub open spec fn weekday(k: int) -> Seq<char> {
    if k == 0 {
        "Sun"@
    } else if k == 1 {
        "Mon"@
    } else if k == 2 {
        "Tue"@
    } else if k == 3 {
        "Wed"@
    } else if k == 4 {
        "Thu"@
    } else if k == 5 {
        "Fri"@
    } else {
        "Sat"@
    }
}

/// The short English name of a month, counted from 1.
pub open spec fn month_name(m: int) -> Seq<char> {
    if m == 1 {
        "Jan"@
    } else if m == 2 {
        "Feb"@
    } else if m == 3 {
        "Mar"@
    } else if m == 4 {
        "Apr"@
    } else if m == 5 {
        "May"@
    } else if m == 6 {
        "Jun"@
    } else if m == 7 {
        "Jul"@
    } else if m == 8 {
        "Aug"@
    } else if m == 9 {
        "Sep"@
    } else if m == 10 {
        "Oct"@
    } else if m == 11 {
        "Nov"@
    } else {
        "Dec"@
    }
}

/// The date of an instant as HTTP writes it: `Thu, 01 Jan 1970 00:00:00 GMT`.
pub open spec fn http_date(secs: int) -> Seq<char> {
    let days = secs / 86400;
    let tod = secs % 86400;
    let (y, m, d) = date_of(days);
    weekday((days + 4) % 7) + ", "@ + digits2(d as nat) + " "@ + month_name(m) + " "@ + digits(y as nat)
        + " "@ + digits2((tod / 3600) as nat) + ":"@ + digits2((tod % 3600 / 60) as nat) + ":"@ + digits2(
        (tod % 60) as nat,
    ) + " GMT"@
}

/// The short name of a day of the week.
fn weekday_text(k: u64) -> (r: &'static str)
    requires
        k < 7,
    ensures
        r@ == weekday(k as int),
{
    if k == 0 {
        "Sun"
    } else if k == 1 {
        "Mon"
    } else if k == 2 {
        "Tue"
    } else if k == 3 {
        "Wed"
    } else if k == 4 {
        "Thu"
    } else if k == 5 {
        "Fri"
    } else {
        "Sat"
    }
}

/// The short name of a month.
fn month_text(m: u64) -> (r: &'static str)
    requires
        1 <= m <= 12,
    ensures
        r@ == month_name(m as int),
{
    if m == 1 {
        "Jan"
    } else if m == 2 {
        "Feb"
    } else if m == 3 {
        "Mar"
    } else if m == 4 {
        "Apr"
    } else if m == 5 {
        "May"
    } else if m == 6 {
        "Jun"
    } else if m == 7 {
        "Jul"
    } else if m == 8 {
        "Aug"
    } else if m == 9 {
        "Sep"
    } else if m == 10 {
        "Oct"
    } else if m == 11 {
        "Nov"
    } else {
        "Dec"
    }
}

/// The date of HTTP for the given seconds since the Unix epoch.
pub fn http_date_text(secs: u64) -> (r: String)
    ensures
        r@ == http_date(secs as int),
{
    let days: u64 = secs / 86400;
    let tod: u64 = secs % 86400;
    let (y, m, d) = date(days);
    let mut s: String = weekday_text((days + 4) % 7).to_owned();
    s.append(", ");
    s.append(decimal2(d).as_str());
    s.append(" ");
    s.append(month_text(m));
    s.append(" ");
    s.append(decimal(y).as_str());
    s.append(" ");
    s.append(decimal2(tod / 3600).as_str());
    s.append(":");
    s.append(decimal2(tod % 3600 / 60).as_str());
    s.append(":");
    s.append(decimal2(tod % 60).as_str());
    s.append(" GMT");
    s
}

// ---------------------------------------------------------------------------
// Laws
// ---------------------------------------------------------------------------

/// Of two instants that one is before the other which comes fewer nanoseconds after the epoch.
pub proof fn law_earlier_is_fewer_nanoseconds(a: (i64, u32), b: (i64, u32))
    requires
        a.1 < 1_000_000_000,
        b.1 < 1_000_000_000,
    ensures
        before(a, b) <==> a.0 * 1_000_000_000 + a.1 < b.0 * 1_000_000_000 + b.1,
{
}

/// The clock counts nanoseconds evenly: by as much as it was moved on it shows more, on both sides of the
/// epoch.
pub proof fn law_clock_runs_evenly(d: (u64, u32), e: (u64, u32))
    ensures
        clock_nanos(Ok(d)) - clock_nanos(Ok(e)) == (d.0 - e.0) * 1_000_000_000 + (d.1 - e.1),
        clock_nanos(Err(d)) - clock_nanos(Err(e)) == (e.0 - d.0) * 1_000_000_000 + (e.1 - d.1),
        clock_nanos(Ok(d)) - clock_nanos(Err(e)) == (d.0 + e.0) * 1_000_000_000 + (d.1 + e.1),
{
}

/// The seconds are those since the epoch, as far as they fit, and none before it.
pub proof fn law_seconds_start_at_the_epoch(d: (u64, u32))
    ensures
        d.0 <= usize::MAX ==> clock_seconds(Ok(d)) == d.0,
        clock_seconds(Err(d)) == 0,
{
}

/// A year starts after 365 days for each year since 1970, and one more for each of those that can be divided
/// by 4, but not for the hundreds, except for the four hundreds.
pub proof fn law_start_of_the_year(y: int)
    requires
        y >= 1970,
    ensures
        days_before_year(y) == 365 * (y - 1970) + ((y - 1) / 4 - 1969int / 4) - ((y - 1) / 100 - 1969int / 100)
            + ((y - 1) / 400 - 1969int / 400),
    decreases y,
{
    if y > 1970 {
        law_start_of_the_year(y - 1);
        let z = y - 1;
        assert(z / 4 - (z - 1) / 4 == if z % 4 == 0 {
            1int
        } else {
            0
        });
        assert(z / 100 - (z - 1) / 100 == if z % 100 == 0 {
            1int
        } else {
            0
        });
        assert(z / 400 - (z - 1) / 400 == if z % 400 == 0 {
            1int
        } else {
            0
        });
    }
}

/// The lengths of the months, in a year that is no leap year.
pub open spec fn month_lengths() -> Seq<int> {
    seq![31, 28, 31, 30, 31, 30, 31, 31, 30, 31, 30, 31]
}

/// The months are as long as they are, and in a leap year February has a day more.
pub proof fn law_months_are_as_long(y: int, m: int)
    requires
        1 <= m <= 12,
    ensures
        month_days(y, m) == month_lengths()[m - 1] + if m == 2 && year_days(y) == 366 {
            1int
        } else {
            0
        },
        days_before_month(y, 13) == year_days(y),
{
    reveal_with_fuel(days_before_month, 13);
}

/// After a day comes the next one of its month, after the last of a month the first of the next month, and
/// after the last of December the first of January.
pub proof fn law_day_after_day(days: int, y: int, m: int, d: int)
    requires
        is_date(days, y, m, d),
    ensures
        d < month_days(y, m) ==> date_of(days + 1) == (y, m, d + 1),
        d == month_days(y, m) && m < 12 ==> date_of(days + 1) == (y, m + 1, 1int),
        d == month_days(y, m) && m == 12 ==> date_of(days + 1) == (y + 1, 1int, 1int),
{
    if d < month_days(y, m) {
        law_one_date_per_day(days + 1, y, m, d + 1);
    } else if m < 12 {
        assert(days_before_month(y, m + 1) == days_before_month(y, m) + month_days(y, m));
        law_one_date_per_day(days + 1, y, m + 1, 1);
    } else {
        law_months_are_as_long(y, 12);
        assert(days_before_month(y, 13) == days_before_month(y, 12) + month_days(y, 12));
        assert(days_before_year(y + 1) == days_before_year(y) + year_days(y));
        assert(days_before_month(y + 1, 1) == 0);
        law_one_date_per_day(days + 1, y + 1, 1, 1);
    }
}

/// The first day is 1 January 1970.
pub proof fn law_first_day()
    ensures
        date_of(0) == (1970int, 1int, 1int),
{
    assert(days_before_month(1970, 1) == 0);
    assert(days_before_year(1970) == 0);
    law_one_date_per_day(0, 1970, 1, 1);
}

/// The days of the week, from that of 1 January 1970 on.
pub open spec fn week() -> Seq<Seq<char>> {
    seq!["Thu"@, "Fri"@, "Sat"@, "Sun"@, "Mon"@, "Tue"@, "Wed"@]
}

/// The months of the year.
pub open spec fn months() -> Seq<Seq<char>> {
    seq![
        "Jan"@, "Feb"@, "Mar"@, "Apr"@, "May"@, "Jun"@, "Jul"@, "Aug"@, "Sep"@, "Oct"@, "Nov"@, "Dec"@,
    ]
}

/// The date of HTTP names the day of the week, which goes round every seven days, the day with two digits,
/// the month, the year, and the hour, minute and second with two digits each.
pub proof fn law_http_date_says_when(
    days: int,
    y: int,
    m: int,
    d: int,
    hour: int,
    minute: int,
    second: int,
)
    requires
        days >= 0,
        is_date(days, y, m, d),
        0 <= hour < 24,
        0 <= minute < 60,
        0 <= second < 60,
    ensures
        http_date(((days * 24 + hour) * 60 + minute) * 60 + second) == week()[days % 7] + ", "@ + digits2(
            d as nat,
        ) + " "@ + months()[m - 1] + " "@ + digits(y as nat) + " "@ + digits2(hour as nat) + ":"@ + digits2(
            minute as nat,
        ) + ":"@ + digits2(second as nat) + " GMT"@,
{
    let secs = ((days * 24 + hour) * 60 + minute) * 60 + second;
    let tod = hour * 3600 + minute * 60 + second;
    law_one_date_per_day(days, y, m, d);
    assert(secs == days * 86400 + tod);
    assert(secs / 86400 == days && secs % 86400 == tod);
    assert(tod / 3600 == hour);
    assert(tod % 3600 == minute * 60 + second);
    assert(tod % 3600 / 60 == minute);
    assert(tod % 60 == second);
    let k = days % 7;
    assert((days + 4) % 7 == (k + 4) % 7);
    assert(week()[k] == weekday((days + 4) % 7));
    assert(months()[m - 1] == month_name(m));
}

} // verus!
