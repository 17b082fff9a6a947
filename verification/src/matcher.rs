//! Filename pattern matcher: finds a timestamp inside arbitrary text by
//! trying, in fixed priority order, a `YYYY-MM-DD[_ ]HH:MM:SS` layout, a run
//! of fourteen digits, and a run of ten digits read as a Unix epoch.

use vstd::prelude::*;
use vstd::string::StrSliceExecFns;
use vstd::string::StringSliceAdditionalSpecFns;

use crate::codec::ascii_chars;
use crate::codec::digits2;
use crate::codec::digits4;
use crate::codec::digits2_exec;
use crate::codec::digits4_exec;
use crate::codec::fields_at;
use crate::codec::fields_at_exec;
use crate::codec::four;
use crate::codec::four_exec;
use crate::codec::time_part;
use crate::codec::time_part_exec;
use crate::codec::two;
use crate::codec::two_exec;
use crate::codec::valid_timestamp_exec;
use crate::datetime::TimestampValue;
use crate::datetime::days_before_year;
use crate::datetime::days_before_year_exec;
use crate::datetime::format_spec;
use crate::datetime::format_timestamp;
use crate::datetime::lemma_days_before_year_bound;
use crate::datetime::rd_seconds_end;
use crate::datetime::rd_timestamp;
use crate::datetime::timestamp_from_rd_seconds;
use crate::datetime::valid_timestamp;
use crate::codec::ascii_to_string;

verus! {

/// `YYYY-MM-DD[_ ]HH:MM:SS` starting at `i`.
pub open spec fn p1_at(s: Seq<u8>, i: int) -> bool {
    &&& i + 19 <= s.len()
    &&& digits4(s, i)
    &&& s[i + 4] == 0x2du8
    &&& digits2(s, i + 5)
    &&& s[i + 7] == 0x2du8
    &&& digits2(s, i + 8)
    &&& (s[i + 10] == 0x5fu8 || s[i + 10] == 0x20u8)
    &&& time_part(s, i + 11)
}

/// Fourteen contiguous digits `YYYYMMDDHHMMSS` starting at `i`.
pub open spec fn p2_at(s: Seq<u8>, i: int) -> bool {
    &&& i + 14 <= s.len()
    &&& digits4(s, i)
    &&& digits4(s, i + 4)
    &&& digits4(s, i + 8)
    &&& digits2(s, i + 12)
}

/// Ten contiguous digits starting at `i`, a candidate Unix epoch.
pub open spec fn p3_at(s: Seq<u8>, i: int) -> bool {
    &&& i + 10 <= s.len()
    &&& digits4(s, i)
    &&& digits4(s, i + 4)
    &&& digits2(s, i + 8)
}

pub open spec fn p1_first_from(s: Seq<u8>, i: int) -> Option<int>
    decreases s.len() - i,
{
    if i + 19 > s.len() {
        None
    } else if p1_at(s, i) {
        Some(i)
    } else {
        p1_first_from(s, i + 1)
    }
}

pub open spec fn p2_first_from(s: Seq<u8>, i: int) -> Option<int>
    decreases s.len() - i,
{
    if i + 14 > s.len() {
        None
    } else if p2_at(s, i) {
        Some(i)
    } else {
        p2_first_from(s, i + 1)
    }
}

pub open spec fn p3_first_from(s: Seq<u8>, i: int) -> Option<int>
    decreases s.len() - i,
{
    if i + 10 > s.len() {
        None
    } else if p3_at(s, i) {
        Some(i)
    } else {
        p3_first_from(s, i + 1)
    }
}

pub open spec fn p2_fields(s: Seq<u8>, i: int) -> TimestampValue {
    TimestampValue {
        year: four(s, i) as u16,
        month: two(s, i + 4) as u8,
        day: two(s, i + 6) as u8,
        hour: two(s, i + 8) as u8,
        minute: two(s, i + 10) as u8,
        second: two(s, i + 12) as u8,
    }
}

/// Value of the ten digits at `i`.
pub open spec fn ten_val(s: Seq<u8>, i: int) -> int {
    four(s, i) * 1000000 + four(s, i + 4) * 100 + two(s, i + 8)
}

/// Second number of the Unix epoch within the library's linear count.
pub open spec fn unix_epoch_rd_seconds() -> int {
    days_before_year(1970) * 86400
}

/// What an epoch value yields after the signed hour offset: the canonical
/// rendering, or nothing when the shifted instant leaves years 1..=9999.
pub open spec fn epoch_result(epoch: int, offset_hours: int) -> Option<Seq<u8>> {
    let total = epoch + unix_epoch_rd_seconds() + offset_hours * 3600;
    if 0 <= total < rd_seconds_end() {
        Some(format_spec(rd_timestamp(total)))
    } else {
        None
    }
}

/// The matcher's result on text bytes: the first pattern that occurs anywhere
/// decides; a structural match naming no real date yields nothing, and later
/// patterns are not tried.
pub open spec fn extract_spec(s: Seq<u8>, offset_hours: int) -> Option<Seq<u8>> {
    match p1_first_from(s, 0) {
        Some(i) => if valid_timestamp(fields_at(s, i, i + 5, i + 8, i + 11)) {
            Some(format_spec(fields_at(s, i, i + 5, i + 8, i + 11)))
        } else {
            None
        },
        None => match p2_first_from(s, 0) {
            Some(i) => if valid_timestamp(p2_fields(s, i)) {
                Some(format_spec(p2_fields(s, i)))
            } else {
                None
            },
            None => match p3_first_from(s, 0) {
                Some(i) => epoch_result(ten_val(s, i), offset_hours),
                None => None,
            },
        },
    }
}

fn p1_at_exec(v: &Vec<u8>, i: usize) -> (r: bool)
    requires
        i + 19 <= v@.len(),
    ensures
        r == p1_at(v@, i as int),
{
    let n: usize = v.len();
    digits4_exec(v, i) && v[i + 4] == 0x2d && digits2_exec(v, i + 5) && v[i + 7] == 0x2d
        && digits2_exec(v, i + 8) && (v[i + 10] == 0x5f || v[i + 10] == 0x20) && time_part_exec(
        v,
        i + 11,
    )
}

fn p2_at_exec(v: &Vec<u8>, i: usize) -> (r: bool)
    requires
        i + 14 <= v@.len(),
    ensures
        r == p2_at(v@, i as int),
{
    let n: usize = v.len();
    digits4_exec(v, i) && digits4_exec(v, i + 4) && digits4_exec(v, i + 8) && digits2_exec(
        v,
        i + 12,
    )
}

fn p3_at_exec(v: &Vec<u8>, i: usize) -> (r: bool)
    requires
        i + 10 <= v@.len(),
    ensures
        r == p3_at(v@, i as int),
{
    let n: usize = v.len();
    digits4_exec(v, i) && digits4_exec(v, i + 4) && digits2_exec(v, i + 8)
}

fn p1_scan(v: &Vec<u8>) -> (r: Option<usize>)
    ensures
        r matches Some(i) ==> p1_first_from(v@, 0) == Some(i as int) && p1_at(v@, i as int)
            && i + 19 <= v@.len(),
        r is None ==> p1_first_from(v@, 0) is None,
{
    let n: usize = v.len();
    if n < 19 {
        return None;
    }
    let mut i: usize = 0;
    while i <= n - 19
        invariant
            n >= 19,
            n == v@.len(),
            i <= n,
            p1_first_from(v@, 0) == p1_first_from(v@, i as int),
        decreases n - i,
    {
        if p1_at_exec(v, i) {
            return Some(i);
        }
        i = i + 1;
    }
    None
}

fn p2_scan(v: &Vec<u8>) -> (r: Option<usize>)
    ensures
        r matches Some(i) ==> p2_first_from(v@, 0) == Some(i as int) && p2_at(v@, i as int)
            && i + 14 <= v@.len(),
        r is None ==> p2_first_from(v@, 0) is None,
{
    let n: usize = v.len();
    if n < 14 {
        return None;
    }
    let mut i: usize = 0;
    while i <= n - 14
        invariant
            n >= 14,
            n == v@.len(),
            i <= n,
            p2_first_from(v@, 0) == p2_first_from(v@, i as int),
        decreases n - i,
    {
        if p2_at_exec(v, i) {
            return Some(i);
        }
        i = i + 1;
    }
    None
}

fn p3_scan(v: &Vec<u8>) -> (r: Option<usize>)
    ensures
        r matches Some(i) ==> p3_first_from(v@, 0) == Some(i as int) && p3_at(v@, i as int)
            && i + 10 <= v@.len(),
        r is None ==> p3_first_from(v@, 0) is None,
{
    let n: usize = v.len();
    if n < 10 {
        return None;
    }
    let mut i: usize = 0;
    while i <= n - 10
        invariant
            n >= 10,
            n == v@.len(),
            i <= n,
            p3_first_from(v@, 0) == p3_first_from(v@, i as int),
        decreases n - i,
    {
        if p3_at_exec(v, i) {
            return Some(i);
        }
        i = i + 1;
    }
    None
}

/// Converts an epoch value plus a signed hour offset to the canonical bytes.
fn epoch_to_canonical(epoch: u64, offset_hours: i32) -> (r: Option<Vec<u8>>)
    requires
        epoch <= 9999999999,
    ensures
        r matches Some(v) ==> epoch_result(epoch as int, offset_hours as int) == Some(v@)
            && forall|j: int| 0 <= j < v@.len() ==> v@[j] < 0x80,
        r is None ==> epoch_result(epoch as int, offset_hours as int) is None,
{
    proof {
        lemma_days_before_year_bound(1970);
    }
    let base: i64 = days_before_year_exec(1970) as i64 * 86400;
    let total: i64 = epoch as i64 + base + offset_hours as i64 * 3600;
    match timestamp_from_rd_seconds(total) {
        Some(ts) => {
            proof {
                crate::codec::lemma_format_ascii(ts);
            }
            Some(format_timestamp(&ts))
        },
        None => None,
    }
}

/// Extracts a timestamp from arbitrary text. Patterns are tried in fixed
/// order — dashed date-time, fourteen digits, ten-digit Unix epoch — and the
/// first structural occurrence decides: a match naming no real calendar date
/// yields `None` without trying later patterns.
pub fn extract_timestamp_string(input: &str, unix_time_offset: i32) -> (r: Option<String>)
    ensures
        (r is Some) <==> extract_spec(input.spec_bytes(), unix_time_offset as int) is Some,
        r matches Some(out) ==> extract_spec(input.spec_bytes(), unix_time_offset as int)
            matches Some(bs) && out@ == ascii_chars(bs),
{
    let v = input.as_bytes_vec();
    if let Some(i) = p1_scan(&v) {
        match fields_at_exec(&v, i, i + 5, i + 8, i + 11) {
            Some(ts) => {
                proof {
                    crate::codec::lemma_format_ascii(ts);
                }
                return Some(ascii_to_string(format_timestamp(&ts)));
            },
            None => {
                return None;
            },
        }
    }
    if let Some(i) = p2_scan(&v) {
        let n: usize = v.len();
        let ts = TimestampValue {
            year: four_exec(&v, i),
            month: two_exec(&v, i + 4),
            day: two_exec(&v, i + 6),
            hour: two_exec(&v, i + 8),
            minute: two_exec(&v, i + 10),
            second: two_exec(&v, i + 12),
        };
        if valid_timestamp_exec(&ts) {
            proof {
                crate::codec::lemma_format_ascii(ts);
            }
            return Some(ascii_to_string(format_timestamp(&ts)));
        } else {
            return None;
        }
    }
    if let Some(i) = p3_scan(&v) {
        let n: usize = v.len();
        let epoch: u64 = four_exec(&v, i) as u64 * 1000000 + four_exec(&v, i + 4) as u64 * 100
            + two_exec(&v, i + 8) as u64;
        match epoch_to_canonical(epoch, unix_time_offset) {
            Some(bytes) => {
                return Some(ascii_to_string(bytes));
            },
            None => {
                return None;
            },
        }
    }
    None
}

} // verus!
