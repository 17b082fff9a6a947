//! Timestamp text codec: parses RFC 1123, ISO 8601 and canonical EXIF
//! datetime layouts, in that fixed order, and re-serializes the first match
//! to the canonical `YYYY:MM:DD HH:MM:SS` form.

use vstd::prelude::*;
use vstd::string::StrSliceExecFns;
use vstd::string::StringSliceAdditionalSpecFns;

use crate::datetime::TimestampValue;
use crate::datetime::format_spec;
use crate::datetime::format_timestamp;
use crate::datetime::valid_timestamp;

verus! {

/// Parsing failed: the text matches none of the accepted layouts, or names
/// no real calendar date.
#[derive(Clone, Copy, Debug, PartialEq, Eq, Structural)]
pub enum ParseError {
    UnparseableTimestamp,
}

pub open spec fn is_digit(b: u8) -> bool {
    0x30 <= b <= 0x39
}

/// Numeric value of an ASCII digit.
pub open spec fn dval(b: u8) -> int {
    b - 0x30
}

pub open spec fn digits2(s: Seq<u8>, i: int) -> bool {
    is_digit(s[i]) && is_digit(s[i + 1])
}

pub open spec fn digits4(s: Seq<u8>, i: int) -> bool {
    digits2(s, i) && digits2(s, i + 2)
}

/// Value of the two digits at `i`.
pub open spec fn two(s: Seq<u8>, i: int) -> int {
    dval(s[i]) * 10 + dval(s[i + 1])
}

/// Value of the four digits at `i`.
pub open spec fn four(s: Seq<u8>, i: int) -> int {
    two(s, i) * 100 + two(s, i + 2)
}

/// `HH:MM:SS` at position `i` (8 bytes).
pub open spec fn time_part(s: Seq<u8>, i: int) -> bool {
    digits2(s, i) && s[i + 2] == 0x3au8 && digits2(s, i + 3) && s[i + 5] == 0x3au8 && digits2(
        s,
        i + 6,
    )
}

/// A numeric zone suffix starting at `i` and ending the text: `+HHMM`,
/// `-HHMM`, `+HH:MM` or `-HH:MM`, with minutes below 60.
pub open spec fn zone_suffix(s: Seq<u8>, i: int) -> bool {
    &&& (s[i] == 0x2bu8 || s[i] == 0x2du8)
    &&& digits2(s, i + 1)
    &&& if s.len() == i + 5 {
        digits2(s, i + 3) && two(s, i + 3) <= 59
    } else {
        s.len() == i + 6 && s[i + 3] == 0x3au8 && digits2(s, i + 4) && two(s, i + 4) <= 59
    }
}

/// The timestamp named by date digits at `yi` and time digits at `ti`.
pub open spec fn fields_at(s: Seq<u8>, yi: int, mi: int, di: int, ti: int) -> TimestampValue {
    TimestampValue {
        year: four(s, yi) as u16,
        month: two(s, mi) as u8,
        day: two(s, di) as u8,
        hour: two(s, ti) as u8,
        minute: two(s, ti + 3) as u8,
        second: two(s, ti + 6) as u8,
    }
}

/// Canonical EXIF layout: exactly `YYYY:MM:DD HH:MM:SS`.
pub open spec fn exif_form(s: Seq<u8>) -> bool {
    &&& s.len() == 19
    &&& digits4(s, 0)
    &&& s[4] == 0x3au8
    &&& digits2(s, 5)
    &&& s[7] == 0x3au8
    &&& digits2(s, 8)
    &&& s[10] == 0x20u8
    &&& time_part(s, 11)
}

pub open spec fn parse_exif(s: Seq<u8>) -> Option<TimestampValue> {
    if exif_form(s) && valid_timestamp(fields_at(s, 0, 5, 8, 11)) {
        Some(fields_at(s, 0, 5, 8, 11))
    } else {
        None
    }
}

/// ISO 8601 with numeric zone: `YYYY-MM-DDTHH:MM:SS` then a zone suffix.
pub open spec fn iso_form(s: Seq<u8>) -> bool {
    &&& s.len() == 24 || s.len() == 25
    &&& digits4(s, 0)
    &&& s[4] == 0x2du8
    &&& digits2(s, 5)
    &&& s[7] == 0x2du8
    &&& digits2(s, 8)
    &&& s[10] == 0x54u8
    &&& time_part(s, 11)
    &&& zone_suffix(s, 19)
}

pub open spec fn parse_iso(s: Seq<u8>) -> Option<TimestampValue> {
    if iso_form(s) && valid_timestamp(fields_at(s, 0, 5, 8, 11)) {
        Some(fields_at(s, 0, 5, 8, 11))
    } else {
        None
    }
}

/// Month number named by a three-letter English abbreviation, or zero.
pub open spec fn month_abbr(a: u8, b: u8, c: u8) -> int {
    if a == 0x4au8 && b == 0x61u8 && c == 0x6eu8 {
        1
    } else if a == 0x46u8 && b == 0x65u8 && c == 0x62u8 {
        2
    } else if a == 0x4du8 && b == 0x61u8 && c == 0x72u8 {
        3
    } else if a == 0x41u8 && b == 0x70u8 && c == 0x72u8 {
        4
    } else if a == 0x4du8 && b == 0x61u8 && c == 0x79u8 {
        5
    } else if a == 0x4au8 && b == 0x75u8 && c == 0x6eu8 {
        6
    } else if a == 0x4au8 && b == 0x75u8 && c == 0x6cu8 {
        7
    } else if a == 0x41u8 && b == 0x75u8 && c == 0x67u8 {
        8
    } else if a == 0x53u8 && b == 0x65u8 && c == 0x70u8 {
        9
    } else if a == 0x4fu8 && b == 0x63u8 && c == 0x74u8 {
        10
    } else if a == 0x4eu8 && b == 0x6fu8 && c == 0x76u8 {
        11
    } else if a == 0x44u8 && b == 0x65u8 && c == 0x63u8 {
        12
    } else {
        0
    }
}

/// A three-letter English weekday abbreviation.
pub open spec fn weekday_abbr(a: u8, b: u8, c: u8) -> bool {
    ||| a == 0x53u8 && b == 0x75u8 && c == 0x6eu8
    ||| a == 0x4du8 && b == 0x6fu8 && c == 0x6eu8
    ||| a == 0x54u8 && b == 0x75u8 && c == 0x65u8
    ||| a == 0x57u8 && b == 0x65u8 && c == 0x64u8
    ||| a == 0x54u8 && b == 0x68u8 && c == 0x75u8
    ||| a == 0x46u8 && b == 0x72u8 && c == 0x69u8
    ||| a == 0x53u8 && b == 0x61u8 && c == 0x74u8
}

/// RFC 1123 layout: `Www, DD Mmm YYYY HH:MM:SS` then a zone suffix.
pub open spec fn rfc_form(s: Seq<u8>) -> bool {
    &&& s.len() == 31 || s.len() == 32
    &&& weekday_abbr(s[0], s[1], s[2])
    &&& s[3] == 0x2cu8
    &&& s[4] == 0x20u8
    &&& digits2(s, 5)
    &&& s[7] == 0x20u8
    &&& month_abbr(s[8], s[9], s[10]) != 0
    &&& s[11] == 0x20u8
    &&& digits4(s, 12)
    &&& s[16] == 0x20u8
    &&& time_part(s, 17)
    &&& s[25] == 0x20u8
    &&& zone_suffix(s, 26)
}

pub open spec fn rfc_fields(s: Seq<u8>) -> TimestampValue {
    TimestampValue {
        year: four(s, 12) as u16,
        month: month_abbr(s[8], s[9], s[10]) as u8,
        day: two(s, 5) as u8,
        hour: two(s, 17) as u8,
        minute: two(s, 20) as u8,
        second: two(s, 23) as u8,
    }
}

pub open spec fn parse_rfc(s: Seq<u8>) -> Option<TimestampValue> {
    if rfc_form(s) && valid_timestamp(rfc_fields(s)) {
        Some(rfc_fields(s))
    } else {
        None
    }
}

/// The codec's parse: RFC 1123 first, then ISO 8601, then the EXIF form;
/// the first layout that matches and names a real date wins.
pub open spec fn parse_datetime_spec(s: Seq<u8>) -> Option<TimestampValue> {
    if parse_rfc(s) is Some {
        parse_rfc(s)
    } else if parse_iso(s) is Some {
        parse_iso(s)
    } else {
        parse_exif(s)
    }
}

/// The characters of a sequence of ASCII bytes.
pub open spec fn ascii_chars(bs: Seq<u8>) -> Seq<char> {
    Seq::new(bs.len(), |i: int| bs[i] as char)
}

pub(crate) fn is_digit_exec(b: u8) -> (r: bool)
    ensures
        r == is_digit(b),
{
    0x30 <= b && b <= 0x39
}

pub(crate) fn digits2_exec(v: &Vec<u8>, i: usize) -> (r: bool)
    requires
        i + 2 <= v@.len(),
    ensures
        r == digits2(v@, i as int),
{
    let n: usize = v.len();
    is_digit_exec(v[i]) && is_digit_exec(v[i + 1])
}

pub(crate) fn digits4_exec(v: &Vec<u8>, i: usize) -> (r: bool)
    requires
        i + 4 <= v@.len(),
    ensures
        r == digits4(v@, i as int),
{
    let n: usize = v.len();
    digits2_exec(v, i) && digits2_exec(v, i + 2)
}

pub(crate) fn two_exec(v: &Vec<u8>, i: usize) -> (r: u8)
    requires
        i + 2 <= v@.len(),
        digits2(v@, i as int),
    ensures
        r == two(v@, i as int),
{
    let n: usize = v.len();
    (v[i] - 0x30) * 10 + (v[i + 1] - 0x30)
}

pub(crate) fn four_exec(v: &Vec<u8>, i: usize) -> (r: u16)
    requires
        i + 4 <= v@.len(),
        digits4(v@, i as int),
    ensures
        r == four(v@, i as int),
{
    let n: usize = v.len();
    two_exec(v, i) as u16 * 100 + two_exec(v, i + 2) as u16
}

pub(crate) fn time_part_exec(v: &Vec<u8>, i: usize) -> (r: bool)
    requires
        i + 8 <= v@.len(),
    ensures
        r == time_part(v@, i as int),
{
    let n: usize = v.len();
    digits2_exec(v, i) && v[i + 2] == 0x3a && digits2_exec(v, i + 3) && v[i + 5] == 0x3a
        && digits2_exec(v, i + 6)
}

fn zone_suffix_exec(v: &Vec<u8>, i: usize) -> (r: bool)
    requires
        i + 3 <= v@.len(),
    ensures
        r == zone_suffix(v@, i as int),
{
    let n: usize = v.len();
    if !(v[i] == 0x2b || v[i] == 0x2d) {
        return false;
    }
    if !digits2_exec(v, i + 1) {
        return false;
    }
    if n - i == 5 {
        digits2_exec(v, i + 3) && two_exec(v, i + 3) <= 59
    } else if n - i == 6 {
        v[i + 3] == 0x3a && digits2_exec(v, i + 4) && two_exec(v, i + 4) <= 59
    } else {
        false
    }
}

pub(crate) fn valid_timestamp_exec(ts: &TimestampValue) -> (r: bool)
    ensures
        r == valid_timestamp(*ts),
{
    1 <= ts.year && ts.year <= 9999 && 1 <= ts.month && ts.month <= 12 && 1 <= ts.day && ts.day
        <= crate::datetime::days_in_month(ts.year, ts.month) && ts.hour <= 23 && ts.minute <= 59
        && ts.second <= 59
}

/// Extracts `(date at yi, mi, di; time at ti)` and validates it.
pub(crate) fn fields_at_exec(v: &Vec<u8>, yi: usize, mi: usize, di: usize, ti: usize) -> (r: Option<
    TimestampValue,
>)
    requires
        yi + 4 <= v@.len(),
        mi + 2 <= v@.len(),
        di + 2 <= v@.len(),
        ti + 8 <= v@.len(),
        digits4(v@, yi as int),
        digits2(v@, mi as int),
        digits2(v@, di as int),
        time_part(v@, ti as int),
    ensures
        r == if valid_timestamp(fields_at(v@, yi as int, mi as int, di as int, ti as int)) {
            Some(fields_at(v@, yi as int, mi as int, di as int, ti as int))
        } else {
            None::<TimestampValue>
        },
{
    let n: usize = v.len();
    let ts = TimestampValue {
        year: four_exec(v, yi),
        month: two_exec(v, mi),
        day: two_exec(v, di),
        hour: two_exec(v, ti),
        minute: two_exec(v, ti + 3),
        second: two_exec(v, ti + 6),
    };
    if valid_timestamp_exec(&ts) {
        Some(ts)
    } else {
        None
    }
}

fn parse_exif_exec(v: &Vec<u8>) -> (r: Option<TimestampValue>)
    ensures
        r == parse_exif(v@),
{
    if v.len() != 19 {
        return None;
    }
    if !(digits4_exec(v, 0) && v[4] == 0x3a && digits2_exec(v, 5) && v[7] == 0x3a && digits2_exec(
        v,
        8,
    ) && v[10] == 0x20 && time_part_exec(v, 11)) {
        return None;
    }
    fields_at_exec(v, 0, 5, 8, 11)
}

fn parse_iso_exec(v: &Vec<u8>) -> (r: Option<TimestampValue>)
    ensures
        r == parse_iso(v@),
{
    if !(v.len() == 24 || v.len() == 25) {
        return None;
    }
    if !(digits4_exec(v, 0) && v[4] == 0x2d && digits2_exec(v, 5) && v[7] == 0x2d && digits2_exec(
        v,
        8,
    ) && v[10] == 0x54 && time_part_exec(v, 11) && zone_suffix_exec(v, 19)) {
        return None;
    }
    fields_at_exec(v, 0, 5, 8, 11)
}

fn month_abbr_exec(a: u8, b: u8, c: u8) -> (r: u8)
    ensures
        r == month_abbr(a, b, c),
{
    if a == 0x4a && b == 0x61 && c == 0x6e {
        1
    } else if a == 0x46 && b == 0x65 && c == 0x62 {
        2
    } else if a == 0x4d && b == 0x61 && c == 0x72 {
        3
    } else if a == 0x41 && b == 0x70 && c == 0x72 {
        4
    } else if a == 0x4d && b == 0x61 && c == 0x79 {
        5
    } else if a == 0x4a && b == 0x75 && c == 0x6e {
        6
    } else if a == 0x4a && b == 0x75 && c == 0x6c {
        7
    } else if a == 0x41 && b == 0x75 && c == 0x67 {
        8
    } else if a == 0x53 && b == 0x65 && c == 0x70 {
        9
    } else if a == 0x4f && b == 0x63 && c == 0x74 {
        10
    } else if a == 0x4e && b == 0x6f && c == 0x76 {
        11
    } else if a == 0x44 && b == 0x65 && c == 0x63 {
        12
    } else {
        0
    }
}

fn weekday_abbr_exec(a: u8, b: u8, c: u8) -> (r: bool)
    ensures
        r == weekday_abbr(a, b, c),
{
    (a == 0x53 && b == 0x75 && c == 0x6e) || (a == 0x4d && b == 0x6f && c == 0x6e) || (a == 0x54
        && b == 0x75 && c == 0x65) || (a == 0x57 && b == 0x65 && c == 0x64) || (a == 0x54 && b
        == 0x68 && c == 0x75) || (a == 0x46 && b == 0x72 && c == 0x69) || (a == 0x53 && b == 0x61
        && c == 0x74)
}

fn parse_rfc_exec(v: &Vec<u8>) -> (r: Option<TimestampValue>)
    ensures
        r == parse_rfc(v@),
{
    if !(v.len() == 31 || v.len() == 32) {
        return None;
    }
    if !(weekday_abbr_exec(v[0], v[1], v[2]) && v[3] == 0x2c && v[4] == 0x20 && digits2_exec(v, 5)
        && v[7] == 0x20 && month_abbr_exec(v[8], v[9], v[10]) != 0 && v[11] == 0x20 && digits4_exec(
        v,
        12,
    ) && v[16] == 0x20 && time_part_exec(v, 17) && v[25] == 0x20 && zone_suffix_exec(v, 26)) {
        return None;
    }
    let ts = TimestampValue {
        year: four_exec(v, 12),
        month: month_abbr_exec(v[8], v[9], v[10]),
        day: two_exec(v, 5),
        hour: two_exec(v, 17),
        minute: two_exec(v, 20),
        second: two_exec(v, 23),
    };
    if valid_timestamp_exec(&ts) {
        Some(ts)
    } else {
        None
    }
}

/// Parses datetime text as bytes: RFC 1123, then ISO 8601, then EXIF form.
pub fn parse_datetime_bytes(v: &Vec<u8>) -> (r: Option<TimestampValue>)
    ensures
        r == parse_datetime_spec(v@),
        r matches Some(ts) ==> valid_timestamp(ts),
{
    let rfc = parse_rfc_exec(v);
    if rfc.is_some() {
        return rfc;
    }
    let iso = parse_iso_exec(v);
    if iso.is_some() {
        return iso;
    }
    parse_exif_exec(v)
}

/// Relies on `String::from_utf8`: bytes below 0x80 are ASCII, hence valid
/// UTF-8, and decode to exactly those characters.
#[verifier::external_body]
pub fn ascii_to_string(bytes: Vec<u8>) -> (r: String)
    requires
        forall|i: int| 0 <= i < bytes@.len() ==> bytes@[i] < 0x80,
    ensures
        r@ == ascii_chars(bytes@),
{
    match String::from_utf8(bytes) {
        Ok(s) => s,
        Err(_) => String::new(),
    }
}

/// Every byte of a canonical rendering is ASCII.
pub proof fn lemma_format_ascii(ts: TimestampValue)
    requires
        valid_timestamp(ts),
    ensures
        forall|i: int| 0 <= i < format_spec(ts).len() ==> format_spec(ts)[i] < 0x80,
{
    assert forall|i: int| 0 <= i < format_spec(ts).len() implies format_spec(ts)[i] < 0x80 by {
        assert(format_spec(ts).len() == 19);
    }
}

/// Renders a valid timestamp as its canonical string.
pub fn canonical_string(ts: &TimestampValue) -> (r: String)
    requires
        valid_timestamp(*ts),
    ensures
        r@ == ascii_chars(format_spec(*ts)),
{
    proof {
        lemma_format_ascii(*ts);
    }
    let bytes = format_timestamp(ts);
    ascii_to_string(bytes)
}

/// Parses creation-time text in any accepted layout and re-serializes it
/// canonically. Succeeds exactly when one of the three layouts matches the
/// whole text and names a real calendar date.
pub fn creation_time_to_exif_time(time_str: &str) -> (r: Result<String, ParseError>)
    ensures
        (r is Ok) <==> parse_datetime_spec(time_str.spec_bytes()) is Some,
        r matches Ok(out) ==> parse_datetime_spec(time_str.spec_bytes()) matches Some(ts) && out@
            == ascii_chars(format_spec(ts)),
        r matches Err(e) ==> e == ParseError::UnparseableTimestamp,
{
    let bytes = time_str.as_bytes_vec();
    match parse_datetime_bytes(&bytes) {
        Some(ts) => Ok(canonical_string(&ts)),
        None => Err(ParseError::UnparseableTimestamp),
    }
}

} // verus!
