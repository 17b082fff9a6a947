//! Calendar timestamps in the proleptic Gregorian calendar, with conversion
//! to and from a linear second count, application of a signed hour offset,
//! and canonical `YYYY:MM:DD HH:MM:SS` formatting.

use vstd::prelude::*;

verus! {

/// A calendar timestamp: date and wall-clock time, no time zone.
///
/// A value is meaningful only when `valid_timestamp` holds: year 1..=9999,
/// a real calendar date, and a time of day.
#[derive(Clone, Copy, Debug, PartialEq, Eq, Structural)]
pub struct TimestampValue {
    pub year: u16,
    pub month: u8,
    pub day: u8,
    pub hour: u8,
    pub minute: u8,
    pub second: u8,
}

pub open spec fn is_leap_year(y: int) -> bool {
    y % 4 == 0 && (y % 100 != 0 || y % 400 == 0)
}

pub open spec fn days_in_year_spec(y: int) -> int {
    if is_leap_year(y) {
        366
    } else {
        365
    }
}

pub open spec fn days_in_month_spec(y: int, m: int) -> int {
    if m == 2 {
        if is_leap_year(y) {
            29
        } else {
            28
        }
    } else if m == 4 || m == 6 || m == 9 || m == 11 {
        30
    } else {
        31
    }
}

/// Days in all years before `y`, counting from year 1.
pub open spec fn days_before_year(y: int) -> int
    decreases y,
{
    if y <= 1 {
        0
    } else {
        days_before_year(y - 1) + days_in_year_spec(y - 1)
    }
}

/// Days in all months of year `y` before month `m`.
pub open spec fn days_before_month(y: int, m: int) -> int
    decreases m,
{
    if m <= 1 {
        0
    } else {
        days_before_month(y, m - 1) + days_in_month_spec(y, m - 1)
    }
}

/// Day number of a date, with 0001-01-01 as day zero.
pub open spec fn rd_day(y: int, m: int, d: int) -> int {
    days_before_year(y) + days_before_month(y, m) + d - 1
}

pub open spec fn valid_timestamp(ts: TimestampValue) -> bool {
    &&& 1 <= ts.year <= 9999
    &&& 1 <= ts.month <= 12
    &&& 1 <= ts.day <= days_in_month_spec(ts.year as int, ts.month as int)
    &&& ts.hour <= 23
    &&& ts.minute <= 59
    &&& ts.second <= 59
}

/// Second number of a timestamp, with 0001-01-01 00:00:00 as second zero.
pub open spec fn rd_seconds(ts: TimestampValue) -> int {
    rd_day(ts.year as int, ts.month as int, ts.day as int) * 86400 + ts.hour * 3600
        + ts.minute * 60 + ts.second
}

/// One past the greatest representable second: the first second of year 10000.
pub open spec fn rd_seconds_end() -> int {
    days_before_year(10000) * 86400
}

/// The unique valid timestamp with the given linear second count.
pub open spec fn rd_timestamp(total: int) -> TimestampValue {
    choose|o: TimestampValue| valid_timestamp(o) && rd_seconds(o) == total
}

pub proof fn lemma_days_before_year_monotone(a: int, b: int)
    requires
        a <= b,
    ensures
        days_before_year(a) <= days_before_year(b),
    decreases b - a,
{
    if a < b {
        lemma_days_before_year_monotone(a, b - 1);
    }
}

pub proof fn lemma_days_before_year_bound(y: int)
    requires
        y >= 1,
    ensures
        days_before_year(y) <= 366 * (y - 1),
    decreases y,
{
    if y > 1 {
        lemma_days_before_year_bound(y - 1);
    }
}

/// The months of a year hold exactly the year's days.
pub proof fn lemma_months_cover_year(y: int)
    ensures
        days_before_month(y, 13) == days_in_year_spec(y),
{
    reveal_with_fuel(days_before_month, 13);
}

pub proof fn lemma_days_before_month_monotone(y: int, a: int, b: int)
    requires
        a <= b,
    ensures
        days_before_month(y, a) <= days_before_month(y, b),
    decreases b - a,
{
    if a < b {
        lemma_days_before_month_monotone(y, a, b - 1);
    }
}

/// A valid date's day number lies inside its year's day range.
pub proof fn lemma_rd_day_in_year(ts: TimestampValue)
    requires
        valid_timestamp(ts),
    ensures
        days_before_year(ts.year as int) <= rd_day(ts.year as int, ts.month as int, ts.day as int)
            < days_before_year(ts.year as int + 1),
{
    let y = ts.year as int;
    let m = ts.month as int;
    lemma_days_before_month_monotone(y, 1, m);
    assert(days_before_month(y, m + 1) == days_before_month(y, m) + days_in_month_spec(y, m));
    lemma_days_before_month_monotone(y, m + 1, 13);
    lemma_months_cover_year(y);
    assert(days_before_year(y + 1) == days_before_year(y) + days_in_year_spec(y));
}

/// Two valid timestamps with one second count are the same timestamp.
pub proof fn lemma_rd_seconds_injective(a: TimestampValue, b: TimestampValue)
    requires
        valid_timestamp(a),
        valid_timestamp(b),
        rd_seconds(a) == rd_seconds(b),
    ensures
        a == b,
{
    let da = rd_day(a.year as int, a.month as int, a.day as int);
    let db = rd_day(b.year as int, b.month as int, b.day as int);
    let ta = a.hour * 3600 + a.minute * 60 + a.second;
    let tb = b.hour * 3600 + b.minute * 60 + b.second;
    assert(da == db && ta == tb) by (nonlinear_arith)
        requires
            da * 86400 + ta == db * 86400 + tb,
            0 <= ta < 86400,
            0 <= tb < 86400,
    ;
    assert(a.hour == b.hour && a.minute == b.minute && a.second == b.second) by (nonlinear_arith)
        requires
            a.hour * 3600 + a.minute * 60 + a.second == b.hour * 3600 + b.minute * 60 + b.second,
            a.hour <= 23 && a.minute <= 59 && a.second <= 59,
            b.hour <= 23 && b.minute <= 59 && b.second <= 59,
    ;
    lemma_rd_day_in_year(a);
    lemma_rd_day_in_year(b);
    if a.year < b.year {
        lemma_days_before_year_monotone(a.year as int + 1, b.year as int);
        assert(false);
    }
    if b.year < a.year {
        lemma_days_before_year_monotone(b.year as int + 1, a.year as int);
        assert(false);
    }
    let y = a.year as int;
    assert(days_before_month(y, a.month as int) + a.day == days_before_month(y, b.month as int)
        + b.day);
    if a.month < b.month {
        assert(days_before_month(y, a.month as int + 1) == days_before_month(y, a.month as int)
            + days_in_month_spec(y, a.month as int));
        lemma_days_before_month_monotone(y, a.month as int + 1, b.month as int);
        assert(false);
    }
    if b.month < a.month {
        assert(days_before_month(y, b.month as int + 1) == days_before_month(y, b.month as int)
            + days_in_month_spec(y, b.month as int));
        lemma_days_before_month_monotone(y, b.month as int + 1, a.month as int);
        assert(false);
    }
}

/// A valid timestamp with second count `t` is `rd_timestamp(t)` itself.
pub proof fn lemma_rd_timestamp_unique(ts: TimestampValue)
    requires
        valid_timestamp(ts),
    ensures
        rd_timestamp(rd_seconds(ts)) == ts,
        valid_timestamp(rd_timestamp(rd_seconds(ts))),
{
    let t = rd_seconds(ts);
    assert(valid_timestamp(ts) && rd_seconds(ts) == t);
    let o = choose|o: TimestampValue| valid_timestamp(o) && rd_seconds(o) == t;
    lemma_rd_seconds_injective(o, ts);
}

pub fn is_leap(y: u16) -> (r: bool)
    ensures
        r == is_leap_year(y as int),
{
    y % 4 == 0 && (y % 100 != 0 || y % 400 == 0)
}

pub fn days_in_year(y: u16) -> (r: u16)
    ensures
        r == days_in_year_spec(y as int),
{
    if is_leap(y) {
        366
    } else {
        365
    }
}

pub fn days_in_month(y: u16, m: u8) -> (r: u8)
    ensures
        r == days_in_month_spec(y as int, m as int),
{
    if m == 2 {
        if is_leap(y) {
            29
        } else {
            28
        }
    } else if m == 4 || m == 6 || m == 9 || m == 11 {
        30
    } else {
        31
    }
}

pub fn days_before_year_exec(y: u16) -> (r: u32)
    requires
        1 <= y <= 10000,
    ensures
        r == days_before_year(y as int),
{
    let mut i: u16 = 1;
    let mut acc: u32 = 0;
    while i < y
        invariant
            1 <= i <= y <= 10000,
            acc == days_before_year(i as int),
        decreases y - i,
    {
        proof {
            lemma_days_before_year_bound(i as int + 1);
        }
        acc = acc + days_in_year(i) as u32;
        i = i + 1;
    }
    acc
}

pub fn days_before_month_exec(y: u16, m: u8) -> (r: u16)
    requires
        1 <= m <= 13,
    ensures
        r == days_before_month(y as int, m as int),
{
    let mut i: u8 = 1;
    let mut acc: u16 = 0;
    while i < m
        invariant
            1 <= i <= m <= 13,
            acc == days_before_month(y as int, i as int),
            acc <= 31 * (i - 1),
        decreases m - i,
    {
        acc = acc + days_in_month(y, i) as u16;
        i = i + 1;
    }
    acc
}

/// Linear second count of a valid timestamp.
pub fn rd_seconds_exec(ts: &TimestampValue) -> (r: i64)
    requires
        valid_timestamp(*ts),
    ensures
        r == rd_seconds(*ts),
        0 <= r < rd_seconds_end(),
{
    proof {
        lemma_days_before_year_bound(ts.year as int);
        lemma_rd_seconds_in_range(*ts);
    }
    let dby: u32 = days_before_year_exec(ts.year);
    let dbm: u16 = days_before_month_exec(ts.year, ts.month);
    let days: u32 = dby + dbm as u32 + (ts.day - 1) as u32;
    days as i64 * 86400 + ts.hour as i64 * 3600 + ts.minute as i64 * 60 + ts.second as i64
}

/// Every valid timestamp's second count lies below `rd_seconds_end`.
pub proof fn lemma_rd_seconds_in_range(ts: TimestampValue)
    requires
        valid_timestamp(ts),
    ensures
        0 <= rd_seconds(ts) < rd_seconds_end(),
{
    lemma_rd_day_in_year(ts);
    lemma_days_before_year_monotone(1, ts.year as int);
    lemma_days_before_year_monotone(ts.year as int + 1, 10000);
    lemma_days_before_month_monotone(ts.year as int, 1, ts.month as int);
    let d = rd_day(ts.year as int, ts.month as int, ts.day as int);
    assert(0 <= d && d + 1 <= days_before_year(10000));
    assert(d * 86400 + 86400 <= days_before_year(10000) * 86400 && d * 86400 >= 0)
        by (nonlinear_arith)
        requires
            0 <= d,
            d + 1 <= days_before_year(10000),
    ;
}

/// Recovers the unique valid timestamp with the given linear second count.
/// Returns `None` exactly when the count lies outside years 1..=9999.
pub fn timestamp_from_rd_seconds(total: i64) -> (r: Option<TimestampValue>)
    ensures
        (r is Some) <==> 0 <= total < rd_seconds_end(),
        r matches Some(ts) ==> valid_timestamp(ts) && rd_seconds(ts) == total && ts
            == rd_timestamp(total as int),
{
    proof {
        lemma_days_before_year_bound(10000);
    }
    let end_days: u32 = days_before_year_exec(10000);
    if total < 0 || total >= end_days as i64 * 86400 {
        return None;
    }
    let day64: i64 = total / 86400;
    let sod64: i64 = total % 86400;
    assert(day64 * 86400 + sod64 == total && 0 <= sod64 < 86400 && 0 <= day64 < days_before_year(
        10000,
    )) by (nonlinear_arith)
        requires
            0 <= total < days_before_year(10000) * 86400,
            day64 == total / 86400,
            sod64 == total % 86400,
    ;
    let day: u32 = day64 as u32;
    let sod: u32 = sod64 as u32;
    let mut year: u16 = 1;
    let mut rem: u32 = day;
    let mut diy: u16 = days_in_year(year);
    while diy as u32 <= rem
        invariant
            1 <= year <= 9999,
            diy == days_in_year_spec(year as int),
            rem == day - days_before_year(year as int),
            days_before_year(year as int) <= day < days_before_year(10000),
        decreases rem,
    {
        proof {
            assert(days_before_year(year as int + 1) == days_before_year(year as int)
                + days_in_year_spec(year as int));
            if year as int + 1 >= 10000 {
                lemma_days_before_year_monotone(10000, year as int + 1);
                assert(false);
            }
        }
        rem = rem - diy as u32;
        year = year + 1;
        diy = days_in_year(year);
    }
    proof {
        lemma_months_cover_year(year as int);
    }
    let mut month: u8 = 1;
    let mut dim: u8 = days_in_month(year, month);
    while dim as u32 <= rem
        invariant
            1 <= month <= 12,
            1 <= year <= 9999,
            dim == days_in_month_spec(year as int, month as int),
            days_before_month(year as int, month as int) + rem == day - days_before_year(
                year as int,
            ),
            days_before_month(year as int, month as int) + rem < days_before_month(
                year as int,
                13,
            ),
        decreases rem,
    {
        proof {
            assert(days_before_month(year as int, month as int + 1) == days_before_month(
                year as int,
                month as int,
            ) + days_in_month_spec(year as int, month as int));
            if month as int + 1 >= 13 {
                lemma_days_before_month_monotone(year as int, 13, month as int + 1);
                assert(false);
            }
        }
        rem = rem - dim as u32;
        month = month + 1;
        dim = days_in_month(year, month);
    }
    let dom: u8 = (rem + 1) as u8;
    let hour: u8 = (sod / 3600) as u8;
    let minsec: u32 = sod % 3600;
    let minute: u8 = (minsec / 60) as u8;
    let second: u8 = (minsec % 60) as u8;
    assert(hour * 3600 + minute * 60 + second == sod && hour < 24 && minute < 60 && second < 60)
        by (nonlinear_arith)
        requires
            0 <= sod < 86400,
            hour == (sod / 3600) as u8,
            minsec == sod % 3600,
            minute == (minsec / 60) as u8,
            second == (minsec % 60) as u8,
    ;
    let ts = TimestampValue { year, month, day: dom, hour, minute, second };
    assert(rd_seconds(ts) == total) by {
        assert(rd_day(year as int, month as int, dom as int) == day);
        assert(day * 86400 + sod == total);
    };
    proof {
        lemma_rd_timestamp_unique(ts);
    }
    Some(ts)
}

/// The ASCII digit for `n`.
pub open spec fn digit(n: int) -> u8 {
    (0x30 + n) as u8
}

/// The canonical 19-byte rendering `YYYY:MM:DD HH:MM:SS` of a timestamp.
pub open spec fn format_spec(ts: TimestampValue) -> Seq<u8> {
    seq![
        digit(ts.year as int / 1000 % 10),
        digit(ts.year as int / 100 % 10),
        digit(ts.year as int / 10 % 10),
        digit(ts.year as int % 10),
        0x3au8,
        digit(ts.month as int / 10),
        digit(ts.month as int % 10),
        0x3au8,
        digit(ts.day as int / 10),
        digit(ts.day as int % 10),
        0x20u8,
        digit(ts.hour as int / 10),
        digit(ts.hour as int % 10),
        0x3au8,
        digit(ts.minute as int / 10),
        digit(ts.minute as int % 10),
        0x3au8,
        digit(ts.second as int / 10),
        digit(ts.second as int % 10),
    ]
}

fn push_two_digits(out: &mut Vec<u8>, n: u8)
    requires
        n <= 99,
    ensures
        final(out)@ == old(out)@ + seq![digit(n as int / 10), digit(n as int % 10)],
{
    out.push(0x30 + n / 10);
    out.push(0x30 + n % 10);
    assert(out@ =~= old(out)@ + seq![digit(n as int / 10), digit(n as int % 10)]);
}

/// Renders a valid timestamp as its canonical 19 ASCII bytes.
pub fn format_timestamp(ts: &TimestampValue) -> (r: Vec<u8>)
    requires
        valid_timestamp(*ts),
    ensures
        r@ == format_spec(*ts),
{
    let mut out: Vec<u8> = Vec::new();
    out.push(0x30 + (ts.year / 1000) as u8);
    out.push(0x30 + (ts.year / 100 % 10) as u8);
    out.push(0x30 + (ts.year / 10 % 10) as u8);
    out.push(0x30 + (ts.year % 10) as u8);
    out.push(0x3a);
    push_two_digits(&mut out, ts.month);
    out.push(0x3a);
    push_two_digits(&mut out, ts.day);
    out.push(0x20);
    push_two_digits(&mut out, ts.hour);
    out.push(0x3a);
    push_two_digits(&mut out, ts.minute);
    out.push(0x3a);
    push_two_digits(&mut out, ts.second);
    assert(out@ =~= format_spec(*ts));
    out
}

/// What shifting a valid timestamp by signed hours yields: the shifted
/// timestamp, or nothing when the result leaves years 1..=9999.
pub open spec fn offset_spec(ts: TimestampValue, offset_hours: int) -> Option<TimestampValue> {
    if 0 <= rd_seconds(ts) + offset_hours * 3600 < rd_seconds_end() {
        Some(rd_timestamp(rd_seconds(ts) + offset_hours * 3600))
    } else {
        None
    }
}

/// Shifts a valid timestamp by a signed number of hours.
pub fn apply_hour_offset(ts: &TimestampValue, offset_hours: i32) -> (r: Option<TimestampValue>)
    requires
        valid_timestamp(*ts),
    ensures
        r == offset_spec(*ts, offset_hours as int),
        r matches Some(o) ==> valid_timestamp(o) && rd_seconds(o) == rd_seconds(*ts) + offset_hours
            * 3600,
{
    let base: i64 = rd_seconds_exec(ts);
    proof {
        lemma_days_before_year_bound(10000);
    }
    let shifted: i64 = base + offset_hours as i64 * 3600;
    timestamp_from_rd_seconds(shifted)
}

} // verus!
