//! PNG chunk engine: a forward reader that finds a creation time in `tIME`
//! and text chunks, and a splicer that inserts one freshly checksummed chunk
//! immediately after the `IHDR` header chunk.

use vstd::prelude::*;
use vstd::string::StrSliceExecFns;
use vstd::string::StringSliceAdditionalSpecFns;
use vstd::utf8::encode_utf8;

use crate::codec::ascii_chars;
use crate::codec::ascii_to_string;
use crate::codec::lemma_format_ascii;
use crate::codec::parse_datetime_bytes;
use crate::codec::parse_datetime_spec;
use crate::codec::valid_timestamp_exec;
use crate::datetime::TimestampValue;
use crate::datetime::apply_hour_offset;
use crate::datetime::format_spec;
use crate::datetime::format_timestamp;
use crate::datetime::rd_seconds;
use crate::datetime::rd_seconds_end;
use crate::datetime::rd_timestamp;
use crate::datetime::valid_timestamp;

verus! {

/// The outcome of embedding a timestamp into an image.
#[derive(Clone, Copy, Debug, PartialEq, Eq, Structural)]
pub enum EmbedError {
    /// The filename's extension names no supported container.
    InvalidFileType,
    /// No usable timestamp source was found; a legitimate negative outcome.
    TimestampNotFound,
    /// The buffer does not begin with the 8-byte PNG signature.
    InvalidSignature,
    /// A chunk's declared length exceeds the bytes that remain; rejected on
    /// the write path so that no truncated output is ever produced.
    TruncatedChunk,
    /// The first chunk of the stream is not `IHDR`.
    MissingHeaderChunk,
    /// A chunk of the type being inserted already exists in the stream.
    DuplicateChunk,
    /// The timestamp text or the EXIF payload is too long to encode.
    EncodingError,
}

pub open spec fn valid_signature(s: Seq<u8>) -> bool {
    &&& s.len() >= 8
    &&& s[0] == 0x89u8
    &&& s[1] == 0x50u8
    &&& s[2] == 0x4eu8
    &&& s[3] == 0x47u8
    &&& s[4] == 0x0du8
    &&& s[5] == 0x0au8
    &&& s[6] == 0x1au8
    &&& s[7] == 0x0au8
}

/// Big-endian 32-bit value of the four bytes at `i`.
pub open spec fn be32(s: Seq<u8>, i: int) -> int {
    s[i] * 0x1000000 + s[i + 1] * 0x10000 + s[i + 2] * 0x100 + s[i + 3]
}

/// Big-endian 4-byte rendering of a 32-bit value.
pub open spec fn be_bytes32(n: int) -> Seq<u8> {
    seq![
        (n / 0x1000000 % 256) as u8,
        (n / 0x10000 % 256) as u8,
        (n / 0x100 % 256) as u8,
        (n % 256) as u8,
    ]
}

pub open spec fn time_type() -> Seq<u8> {
    seq![0x74u8, 0x49u8, 0x4du8, 0x45u8]
}

pub open spec fn text_type() -> Seq<u8> {
    seq![0x74u8, 0x45u8, 0x58u8, 0x74u8]
}

pub open spec fn itxt_type() -> Seq<u8> {
    seq![0x69u8, 0x54u8, 0x58u8, 0x74u8]
}

pub open spec fn exif_type() -> Seq<u8> {
    seq![0x65u8, 0x58u8, 0x49u8, 0x66u8]
}

pub open spec fn ihdr_type() -> Seq<u8> {
    seq![0x49u8, 0x48u8, 0x44u8, 0x52u8]
}

/// One parsed chunk: its type tag and its data bytes.
pub ghost struct ChunkView {
    pub ty: Seq<u8>,
    pub data: Seq<u8>,
}

/// The chunks readable from offset `off`: the stream ends cleanly at the
/// first position where a whole chunk (8-byte header, data, 4-byte checksum)
/// no longer fits.
pub open spec fn chunks_from(s: Seq<u8>, off: int) -> Seq<ChunkView>
    decreases s.len() - off,
{
    if off < 0 || off + 12 > s.len() {
        Seq::empty()
    } else if off + 12 + be32(s, off) > s.len() {
        Seq::empty()
    } else {
        seq![
            ChunkView { ty: s.subrange(off + 4, off + 8), data: s.subrange(off + 8, off + 8 + be32(s, off)) },
        ] + chunks_from(s, off + 12 + be32(s, off))
    }
}

/// What a 7-byte `tIME` chunk body yields: its fields shifted by the hour
/// offset and canonically rendered, or nothing when the fields name no real
/// date or the shift leaves years 1..=9999.
pub open spec fn time_chunk_result(data: Seq<u8>, offset_hours: int) -> Option<Seq<u8>> {
    let ts = TimestampValue {
        year: (data[0] * 256 + data[1]) as u16,
        month: data[2],
        day: data[3],
        hour: data[4],
        minute: data[5],
        second: data[6],
    };
    if valid_timestamp(ts) && 0 <= rd_seconds(ts) + offset_hours * 3600 < rd_seconds_end() {
        Some(format_spec(rd_timestamp(rd_seconds(ts) + offset_hours * 3600)))
    } else {
        None
    }
}

/// The bytes of the literal `Creation Time`.
pub open spec fn creation_time_pat() -> Seq<u8> {
    seq![
        0x43u8,
        0x72u8,
        0x65u8,
        0x61u8,
        0x74u8,
        0x69u8,
        0x6fu8,
        0x6eu8,
        0x20u8,
        0x54u8,
        0x69u8,
        0x6du8,
        0x65u8,
    ]
}

pub open spec fn match_at(s: Seq<u8>, pat: Seq<u8>, i: int) -> bool {
    i + pat.len() <= s.len() && s.subrange(i, i + pat.len()) == pat
}

pub open spec fn find_pat_from(s: Seq<u8>, pat: Seq<u8>, i: int) -> Option<int>
    decreases s.len() - i,
{
    if pat.len() < 1 || i + pat.len() > s.len() {
        None
    } else if match_at(s, pat, i) {
        Some(i)
    } else {
        find_pat_from(s, pat, i + 1)
    }
}

pub open spec fn find_byte_from(s: Seq<u8>, b: u8, i: int) -> Option<int>
    decreases s.len() - i,
{
    if i >= s.len() {
        None
    } else if s[i] == b {
        Some(i)
    } else {
        find_byte_from(s, b, i + 1)
    }
}

/// What a text chunk body yields: everything after the first `=` that
/// follows the first `Creation Time`, parsed by the codec and canonically
/// re-rendered; nothing when absent or unparseable.
pub open spec fn text_chunk_result(data: Seq<u8>) -> Option<Seq<u8>> {
    match find_pat_from(data, creation_time_pat(), 0) {
        Some(j) => match find_byte_from(data, 0x3du8, j + 13) {
            Some(k) => match parse_datetime_spec(data.subrange(k + 1, data.len() as int)) {
                Some(ts) => Some(format_spec(ts)),
                None => None,
            },
            None => None,
        },
        None => None,
    }
}

/// The reader's scan from offset `off`, chunk by chunk in file order: the
/// first 7-byte `tIME` chunk decides alone; otherwise the first `tEXt` or
/// `iTXt` chunk with a parseable creation time decides; a truncated chunk
/// ends the scan as a clean end of stream.
pub open spec fn scan_from(s: Seq<u8>, off: int, offset_hours: int) -> Option<Seq<u8>>
    decreases s.len() - off,
{
    if off < 0 || off + 12 > s.len() {
        None
    } else if off + 12 + be32(s, off) > s.len() {
        None
    } else {
        let ty = s.subrange(off + 4, off + 8);
        let data = s.subrange(off + 8, off + 8 + be32(s, off));
        if ty == time_type() && be32(s, off) == 7 {
            time_chunk_result(data, offset_hours)
        } else if (ty == text_type() || ty == itxt_type()) && text_chunk_result(data) is Some {
            text_chunk_result(data)
        } else {
            scan_from(s, off + 12 + be32(s, off), offset_hours)
        }
    }
}

fn be32_exec(v: &Vec<u8>, i: usize) -> (r: u32)
    requires
        i + 4 <= v@.len(),
    ensures
        r == be32(v@, i as int),
{
    let n: usize = v.len();
    v[i] as u32 * 0x1000000 + v[i + 1] as u32 * 0x10000 + v[i + 2] as u32 * 0x100 + v[i + 3] as u32
}

/// Tests the 8-byte PNG signature.
pub fn check_signature(v: &Vec<u8>) -> (r: bool)
    ensures
        r == valid_signature(v@),
{
    if v.len() < 8 {
        return false;
    }
    v[0] == 0x89 && v[1] == 0x50 && v[2] == 0x4e && v[3] == 0x47 && v[4] == 0x0d && v[5] == 0x0a
        && v[6] == 0x1a && v[7] == 0x0a
}

/// Copies `v[from..to]` into a fresh buffer.
pub(crate) fn copy_range(v: &Vec<u8>, from: usize, to: usize) -> (r: Vec<u8>)
    requires
        from <= to <= v@.len(),
    ensures
        r@ == v@.subrange(from as int, to as int),
{
    let mut out: Vec<u8> = Vec::new();
    let mut i: usize = from;
    while i < to
        invariant
            from <= i <= to <= v@.len(),
            out@ == v@.subrange(from as int, i as int),
        decreases to - i,
    {
        out.push(v[i]);
        assert(out@ =~= v@.subrange(from as int, i + 1 as int));
        i = i + 1;
    }
    out
}

pub(crate) fn match_at_exec(v: &Vec<u8>, pat: &Vec<u8>, i: usize) -> (r: bool)
    requires
        i + pat@.len() <= v@.len(),
    ensures
        r == match_at(v@, pat@, i as int),
{
    let n: usize = v.len();
    let m: usize = pat.len();
    let mut j: usize = 0;
    while j < m
        invariant
            j <= m == pat@.len(),
            i + m <= n,
            n == v@.len(),
            forall|k: int| 0 <= k < j ==> v@[i + k] == pat@[k],
        decreases m - j,
    {
        if v[i + j] != pat[j] {
            assert(v@.subrange(i as int, i + m as int)[j as int] != pat@[j as int]);
            return false;
        }
        j = j + 1;
    }
    assert(v@.subrange(i as int, i + m as int) =~= pat@);
    true
}

fn find_pat_exec(v: &Vec<u8>, pat: &Vec<u8>) -> (r: Option<usize>)
    requires
        pat@.len() >= 1,
    ensures
        r matches Some(i) ==> find_pat_from(v@, pat@, 0) == Some(i as int) && match_at(
            v@,
            pat@,
            i as int,
        ),
        r is None ==> find_pat_from(v@, pat@, 0) is None,
{
    let n: usize = v.len();
    let m: usize = pat.len();
    if n < m {
        return None;
    }
    let mut i: usize = 0;
    while i <= n - m
        invariant
            m >= 1,
            n >= m,
            n == v@.len(),
            m == pat@.len(),
            i <= n,
            find_pat_from(v@, pat@, 0) == find_pat_from(v@, pat@, i as int),
        decreases n - i,
    {
        if match_at_exec(v, pat, i) {
            return Some(i);
        }
        i = i + 1;
    }
    None
}

fn find_byte_exec(v: &Vec<u8>, b: u8, from: usize) -> (r: Option<usize>)
    ensures
        r matches Some(i) ==> find_byte_from(v@, b, from as int) == Some(i as int) && from <= i
            < v@.len(),
        r is None ==> find_byte_from(v@, b, from as int) is None,
{
    let n: usize = v.len();
    let mut i: usize = from;
    if i >= n {
        return None;
    }
    while i < n
        invariant
            from <= i,
            i <= n == v@.len(),
            find_byte_from(v@, b, from as int) == find_byte_from(v@, b, i as int),
        decreases n - i,
    {
        if v[i] == b {
            return Some(i);
        }
        i = i + 1;
    }
    None
}

/// Builds the `Creation Time` pattern bytes.
fn creation_time_pat_exec() -> (r: Vec<u8>)
    ensures
        r@ == creation_time_pat(),
{
    let mut p: Vec<u8> = Vec::new();
    p.push(0x43);
    p.push(0x72);
    p.push(0x65);
    p.push(0x61);
    p.push(0x74);
    p.push(0x69);
    p.push(0x6f);
    p.push(0x6e);
    p.push(0x20);
    p.push(0x54);
    p.push(0x69);
    p.push(0x6d);
    p.push(0x65);
    assert(p@ =~= creation_time_pat());
    p
}

/// Resolves a text chunk body to canonical timestamp bytes, if it carries a
/// parseable creation time.
fn text_chunk_exec(data: &Vec<u8>) -> (r: Option<Vec<u8>>)
    ensures
        r matches Some(out) ==> text_chunk_result(data@) == Some(out@) && forall|i: int|
            0 <= i < out@.len() ==> out@[i] < 0x80,
        r is None ==> text_chunk_result(data@) is None,
{
    let pat = creation_time_pat_exec();
    let j = match find_pat_exec(data, &pat) {
        Some(j) => j,
        None => {
            return None;
        },
    };
    let n: usize = data.len();
    assert(creation_time_pat().len() == 13);
    let k = match find_byte_exec(data, 0x3d, j + 13) {
        Some(k) => k,
        None => {
            return None;
        },
    };
    let tail = copy_range(data, k + 1, n);
    match parse_datetime_bytes(&tail) {
        Some(ts) => {
            proof {
                lemma_format_ascii(ts);
            }
            Some(format_timestamp(&ts))
        },
        None => None,
    }
}

/// Resolves a 7-byte `tIME` chunk body.
fn time_chunk_exec(data: &Vec<u8>, offset_hours: i32) -> (r: Option<Vec<u8>>)
    requires
        data@.len() == 7,
    ensures
        r matches Some(out) ==> time_chunk_result(data@, offset_hours as int) == Some(out@)
            && forall|i: int| 0 <= i < out@.len() ==> out@[i] < 0x80,
        r is None ==> time_chunk_result(data@, offset_hours as int) is None,
{
    let ts = TimestampValue {
        year: data[0] as u16 * 256 + data[1] as u16,
        month: data[2],
        day: data[3],
        hour: data[4],
        minute: data[5],
        second: data[6],
    };
    if !valid_timestamp_exec(&ts) {
        return None;
    }
    match apply_hour_offset(&ts, offset_hours) {
        Some(shifted) => {
            proof {
                lemma_format_ascii(shifted);
            }
            Some(format_timestamp(&shifted))
        },
        None => None,
    }
}

/// Tests whether the chunk type tag at `off + 4` is the given 4-byte tag.
fn type_is(v: &Vec<u8>, off: usize, a: u8, b: u8, c: u8, d: u8) -> (r: bool)
    requires
        off + 8 <= v@.len(),
    ensures
        r == (v@.subrange(off + 4, off + 8) == seq![a, b, c, d]),
{
    let n: usize = v.len();
    let r = v[off + 4] == a && v[off + 5] == b && v[off + 6] == c && v[off + 7] == d;
    proof {
        let sub = v@.subrange(off + 4, off + 8);
        if r {
            assert(sub =~= seq![a, b, c, d]);
        } else {
            if sub == seq![a, b, c, d] {
                assert(sub[0] == a && sub[1] == b && sub[2] == c && sub[3] == d);
                assert(false);
            }
        }
    }
    r
}

/// Walks the chunk stream of a PNG buffer and returns the first creation
/// time it exposes, canonically rendered: a 7-byte `tIME` chunk decides
/// alone; otherwise the first text chunk whose `Creation Time` value parses.
/// A buffer without the PNG signature yields `None`, and a truncated chunk
/// ends the scan as a clean end of stream.
#[verifier::rlimit(60)]
pub fn get_creation_time_from_chunk(image_buffer: &Vec<u8>, unix_time_offset: i32) -> (r: Option<
    String,
>)
    ensures
        !valid_signature(image_buffer@) ==> r is None,
        valid_signature(image_buffer@) ==> ((r is Some) <==> scan_from(
            image_buffer@,
            8,
            unix_time_offset as int,
        ) is Some),
        r matches Some(out) ==> scan_from(image_buffer@, 8, unix_time_offset as int)
            matches Some(bs) && out@ == ascii_chars(bs),
{
    if !check_signature(image_buffer) {
        return None;
    }
    let n: usize = image_buffer.len();
    let mut off: usize = 8;
    while n - off >= 12
        invariant
            valid_signature(image_buffer@),
            8 <= off <= n,
            n == image_buffer@.len(),
            scan_from(image_buffer@, 8, unix_time_offset as int) == scan_from(
                image_buffer@,
                off as int,
                unix_time_offset as int,
            ),
        decreases n - off,
    {
        let len = be32_exec(image_buffer, off);
        if len as usize > n - off - 12 {
            return None;
        }
        let len_us: usize = len as usize;
        let end: usize = off + 12 + len_us;
        let is_time = type_is(image_buffer, off, 0x74, 0x49, 0x4d, 0x45);
        let is_text = type_is(image_buffer, off, 0x74, 0x45, 0x58, 0x74);
        let is_itxt = type_is(image_buffer, off, 0x69, 0x54, 0x58, 0x74);
        proof {
            assert(time_type() =~= seq![0x74u8, 0x49u8, 0x4du8, 0x45u8]);
            assert(text_type() =~= seq![0x74u8, 0x45u8, 0x58u8, 0x74u8]);
            assert(itxt_type() =~= seq![0x69u8, 0x54u8, 0x58u8, 0x74u8]);
        }
        if is_time && len == 7 {
            let data = copy_range(image_buffer, off + 8, off + 8 + 7);
            match time_chunk_exec(&data, unix_time_offset) {
                Some(bytes) => {
                    return Some(ascii_to_string(bytes));
                },
                None => {
                    return None;
                },
            }
        } else if is_text || is_itxt {
            let data = copy_range(image_buffer, off + 8, off + 8 + len_us);
            match text_chunk_exec(&data) {
                Some(bytes) => {
                    return Some(ascii_to_string(bytes));
                },
                None => {
                    proof {
                        lemma_scan_step(image_buffer@, off as int, unix_time_offset as int);
                    }
                    off = end;
                },
            }
        } else {
            proof {
                lemma_scan_step(image_buffer@, off as int, unix_time_offset as int);
            }
            off = end;
        }
    }
    None
}

/// Unfolds one step of the scan at a complete chunk that does not decide.
proof fn lemma_scan_step(s: Seq<u8>, off: int, offset_hours: int)
    requires
        0 <= off,
        off + 12 <= s.len(),
        off + 12 + be32(s, off) <= s.len(),
        !(s.subrange(off + 4, off + 8) == time_type() && be32(s, off) == 7),
        !((s.subrange(off + 4, off + 8) == text_type() || s.subrange(off + 4, off + 8)
            == itxt_type()) && text_chunk_result(s.subrange(off + 8, off + 8 + be32(s, off)))
            is Some),
    ensures
        scan_from(s, off, offset_hours) == scan_from(s, off + 12 + be32(s, off), offset_hours),
{
}


/// The IEEE CRC-32 of a byte sequence, as the PNG format uses it: a pure
/// function of the bytes.
pub uninterp spec fn crc32_of(data: Seq<u8>) -> u32;

/// Relies on crc32fast::hash: the IEEE CRC-32 checksum of the bytes, a
/// function of the bytes alone.
#[verifier::external_body]
fn crc32(data: &Vec<u8>) -> (r: u32)
    ensures
        r == crc32_of(data@),
{
    crc32fast::hash(data.as_slice())
}

/// The bytes a minimal EXIF/TIFF container holding one `DateTimeOriginal`
/// ASCII field with the given text: a pure function of the text.
pub uninterp spec fn exif_payload_of(ts: Seq<char>) -> Seq<u8>;

/// Relies on exif's `experimental::Writer`: `new`, `push_field` and `write`
/// encode a big-endian TIFF container holding the pushed fields; for a fixed
/// field list the bytes are a function of the field values alone. For one
/// ASCII field the writer fails only when the field's byte count (the text
/// plus its terminator) overflows the 32-bit TIFF count, which the
/// precondition rules out, so the call succeeds.
#[verifier::external_body]
fn build_exif_payload(exif_time: &str) -> (r: Result<Vec<u8>, ()>)
    requires
        exif_time.spec_bytes().len() <= 0xfffffffe,
    ensures
        r is Ok,
        r matches Ok(v) ==> v@ == exif_payload_of(exif_time@),
{
    let field = exif::Field {
        tag: exif::Tag::DateTimeOriginal,
        ifd_num: exif::In::PRIMARY,
        value: exif::Value::Ascii(vec![exif_time.as_bytes().to_vec()]),
    };
    let mut writer = exif::experimental::Writer::new();
    let mut buf = std::io::Cursor::new(Vec::new());
    writer.push_field(&field);
    match writer.write(&mut buf, false) {
        Ok(()) => Ok(buf.into_inner()),
        Err(_) => Err(()),
    }
}

/// The wire form of one chunk: length, type, data, then the CRC-32 of type
/// and data, both 32-bit fields big-endian.
pub open spec fn chunk_bytes(ty: Seq<u8>, data: Seq<u8>) -> Seq<u8> {
    be_bytes32(data.len() as int) + ty + data + be_bytes32(crc32_of(ty + data) as int)
}

/// Whether every chunk from `off` is complete up to the exact end of the
/// buffer.
pub open spec fn stream_intact(s: Seq<u8>, off: int) -> bool
    decreases s.len() - off,
{
    if off == s.len() {
        true
    } else if off < 0 || off + 12 > s.len() {
        false
    } else if off + 12 + be32(s, off) > s.len() {
        false
    } else {
        stream_intact(s, off + 12 + be32(s, off))
    }
}

/// Whether some chunk from `off` carries the 4-byte type `ty`.
pub open spec fn stream_has_type(s: Seq<u8>, off: int, ty: Seq<u8>) -> bool
    decreases s.len() - off,
{
    if off < 0 || off + 12 > s.len() {
        false
    } else if off + 12 + be32(s, off) > s.len() {
        false
    } else if s.subrange(off + 4, off + 8) == ty {
        true
    } else {
        stream_has_type(s, off + 12 + be32(s, off), ty)
    }
}

/// End of the first chunk: the insertion point for a new chunk.
pub open spec fn first_chunk_end(s: Seq<u8>) -> int {
    8 + 12 + be32(s, 8)
}

/// What inserting a chunk of type `ty` with body `payload` after the header
/// chunk yields. Checked in order: the signature; that every chunk is
/// complete; that the first chunk is `IHDR`; that no chunk of type `ty` is
/// already present; that the body fits a chunk length field.
pub open spec fn splice_spec(s: Seq<u8>, ty: Seq<u8>, payload: Seq<u8>) -> Result<
    Seq<u8>,
    EmbedError,
> {
    if !valid_signature(s) {
        Err(EmbedError::InvalidSignature)
    } else if !stream_intact(s, 8) {
        Err(EmbedError::TruncatedChunk)
    } else if s.len() == 8 || s.subrange(12, 16) != ihdr_type() {
        Err(EmbedError::MissingHeaderChunk)
    } else if stream_has_type(s, 8, ty) {
        Err(EmbedError::DuplicateChunk)
    } else if payload.len() > 0x7fffffff {
        Err(EmbedError::EncodingError)
    } else {
        Ok(
            s.subrange(0, first_chunk_end(s)) + chunk_bytes(ty, payload) + s.subrange(
                first_chunk_end(s),
                s.len() as int,
            ),
        )
    }
}

/// Appends the big-endian bytes of `x`.
fn push_be32(out: &mut Vec<u8>, x: u32)
    ensures
        final(out)@ == old(out)@ + be_bytes32(x as int),
{
    out.push((x / 0x1000000 % 256) as u8);
    out.push((x / 0x10000 % 256) as u8);
    out.push((x / 0x100 % 256) as u8);
    out.push((x % 256) as u8);
    assert(out@ =~= old(out)@ + be_bytes32(x as int));
}

/// Builds the wire form of one chunk, computing its CRC-32.
fn build_chunk(ty: &Vec<u8>, data: &Vec<u8>) -> (r: Vec<u8>)
    requires
        ty@.len() == 4,
        data@.len() <= 0x7fffffff,
    ensures
        r@ == chunk_bytes(ty@, data@),
{
    let mut td: Vec<u8> = Vec::new();
    let mut i: usize = 0;
    let tn: usize = ty.len();
    while i < tn
        invariant
            i <= tn == ty@.len(),
            td@ == ty@.subrange(0, i as int),
        decreases tn - i,
    {
        td.push(ty[i]);
        assert(td@ =~= ty@.subrange(0, i + 1 as int));
        i = i + 1;
    }
    assert(td@ =~= ty@);
    let mut j: usize = 0;
    let dn: usize = data.len();
    while j < dn
        invariant
            j <= dn == data@.len(),
            td@ == ty@ + data@.subrange(0, j as int),
        decreases dn - j,
    {
        td.push(data[j]);
        assert(td@ =~= ty@ + data@.subrange(0, j + 1 as int));
        j = j + 1;
    }
    assert(td@ =~= ty@ + data@);
    let crc = crc32(&td);
    let mut out: Vec<u8> = Vec::new();
    push_be32(&mut out, dn as u32);
    let mut k: usize = 0;
    let tdn: usize = td.len();
    while k < tdn
        invariant
            k <= tdn == td@.len(),
            td@ == ty@ + data@,
            out@ == be_bytes32(data@.len() as int) + td@.subrange(0, k as int),
        decreases tdn - k,
    {
        out.push(td[k]);
        assert(out@ =~= be_bytes32(data@.len() as int) + td@.subrange(0, k + 1 as int));
        k = k + 1;
    }
    assert(out@ =~= be_bytes32(data@.len() as int) + (ty@ + data@));
    push_be32(&mut out, crc);
    assert(out@ =~= chunk_bytes(ty@, data@));
    out
}

/// Walks the whole chunk stream: `Ok` carries whether a chunk of type `ty`
/// occurs, `Err` means a chunk is incomplete.
fn check_stream(v: &Vec<u8>, ta: u8, tb: u8, tc: u8, td: u8) -> (r: Result<bool, ()>)
    requires
        v@.len() >= 8,
    ensures
        r matches Ok(dup) ==> stream_intact(v@, 8) && dup == stream_has_type(
            v@,
            8,
            seq![ta, tb, tc, td],
        ),
        r is Err ==> !stream_intact(v@, 8),
{
    let n: usize = v.len();
    let mut off: usize = 8;
    let mut dup: bool = false;
    while n - off >= 12
        invariant
            8 <= off <= n,
            n == v@.len(),
            stream_intact(v@, 8) == stream_intact(v@, off as int),
            stream_has_type(v@, 8, seq![ta, tb, tc, td]) == (dup || stream_has_type(
                v@,
                off as int,
                seq![ta, tb, tc, td],
            )),
        decreases n - off,
    {
        let len = be32_exec(v, off);
        if len as usize > n - off - 12 {
            return Err(());
        }
        let end: usize = off + 12 + len as usize;
        if type_is(v, off, ta, tb, tc, td) {
            dup = true;
        }
        off = end;
    }
    if off == n {
        Ok(dup)
    } else {
        Err(())
    }
}

/// Inserts one chunk of the given 4-byte type with the given body
/// immediately after the `IHDR` header chunk, recomputing nothing else:
/// every byte of the input is preserved in order, the new chunk's length and
/// CRC-32 fields are freshly computed, and the call fails — returning the
/// buffer untouched — exactly when the signature is wrong, a chunk is
/// truncated, the first chunk is not `IHDR`, a chunk of the same type
/// already exists, or the body is too long for a chunk.
pub fn insert_after_header(image_buffer: &Vec<u8>, chunk_type: &Vec<u8>, chunk_data: &Vec<u8>) -> (r:
    Result<Vec<u8>, EmbedError>)
    requires
        chunk_type@.len() == 4,
    ensures
        r matches Ok(out) ==> splice_spec(image_buffer@, chunk_type@, chunk_data@)
            == Ok::<Seq<u8>, EmbedError>(out@),
        r matches Err(e) ==> splice_spec(image_buffer@, chunk_type@, chunk_data@)
            == Err::<Seq<u8>, EmbedError>(e),
{
    let s = image_buffer;
    if !check_signature(s) {
        return Err(EmbedError::InvalidSignature);
    }
    let n: usize = s.len();
    let dup = match check_stream(s, chunk_type[0], chunk_type[1], chunk_type[2], chunk_type[3]) {
        Ok(dup) => dup,
        Err(()) => {
            proof {
                assert(chunk_type@ =~= seq![
                    chunk_type@[0],
                    chunk_type@[1],
                    chunk_type@[2],
                    chunk_type@[3],
                ]);
            }
            return Err(EmbedError::TruncatedChunk);
        },
    };
    proof {
        assert(chunk_type@ =~= seq![chunk_type@[0], chunk_type@[1], chunk_type@[2], chunk_type@[3]]);
    }
    if n == 8 || !type_is(s, 8, 0x49, 0x48, 0x44, 0x52) {
        proof {
            if n != 8 {
                assert(ihdr_type() =~= seq![0x49u8, 0x48u8, 0x44u8, 0x52u8]);
            }
        }
        return Err(EmbedError::MissingHeaderChunk);
    }
    proof {
        assert(ihdr_type() =~= seq![0x49u8, 0x48u8, 0x44u8, 0x52u8]);
    }
    if dup {
        return Err(EmbedError::DuplicateChunk);
    }
    if chunk_data.len() > 0x7fffffff {
        return Err(EmbedError::EncodingError);
    }
    let len0 = be32_exec(s, 8);
    proof {
        lemma_intact_first_end(s@);
    }
    let fe: usize = 8 + 12 + len0 as usize;
    let chunk = build_chunk(chunk_type, chunk_data);
    let mut out = copy_range(s, 0, fe);
    let mut ci: usize = 0;
    let cn: usize = chunk.len();
    while ci < cn
        invariant
            ci <= cn == chunk@.len(),
            out@ == s@.subrange(0, fe as int) + chunk@.subrange(0, ci as int),
        decreases cn - ci,
    {
        out.push(chunk[ci]);
        assert(out@ =~= s@.subrange(0, fe as int) + chunk@.subrange(0, ci + 1 as int));
        ci = ci + 1;
    }
    assert(out@ =~= s@.subrange(0, fe as int) + chunk@);
    let mut ri: usize = fe;
    while ri < n
        invariant
            fe <= ri <= n,
            n == s@.len(),
            out@ == s@.subrange(0, fe as int) + chunk@ + s@.subrange(fe as int, ri as int),
        decreases n - ri,
    {
        out.push(s[ri]);
        assert(out@ =~= s@.subrange(0, fe as int) + chunk@ + s@.subrange(fe as int, ri + 1 as int));
        ri = ri + 1;
    }
    assert(out@ =~= s@.subrange(0, fe as int) + chunk@ + s@.subrange(fe as int, n as int));
    Ok(out)
}

/// In an intact, non-empty stream the first chunk ends inside the buffer.
proof fn lemma_intact_first_end(s: Seq<u8>)
    requires
        stream_intact(s, 8),
        s.len() > 8,
    ensures
        8 + 12 + be32(s, 8) <= s.len(),
        s.len() >= 20,
{
}

/// Builds a minimal EXIF payload carrying `DateTimeOriginal` and splices it
/// into the PNG buffer as an `eXIf` chunk immediately after `IHDR`. The
/// signature is tested first; `EncodingError` comes exactly when the
/// timestamp text is too long for a TIFF count field or the payload too long
/// for a chunk; every other outcome is exactly the splice of the built
/// payload, so on a well-formed stream success is owed.
pub fn embed_exif_time(exif_time: String, image_buffer: &Vec<u8>) -> (r: Result<
    Vec<u8>,
    EmbedError,
>)
    ensures
        !valid_signature(image_buffer@) <==> r == Err::<Vec<u8>, EmbedError>(
            EmbedError::InvalidSignature,
        ),
        (r is Ok) <==> encode_utf8(exif_time@).len() <= 0xfffffffe && splice_spec(
            image_buffer@,
            exif_type(),
            exif_payload_of(exif_time@),
        ) is Ok,
        r matches Ok(out) ==> splice_spec(image_buffer@, exif_type(), exif_payload_of(exif_time@))
            == Ok::<Seq<u8>, EmbedError>(out@),
        encode_utf8(exif_time@).len() <= 0xfffffffe ==> (r matches Err(e) ==> splice_spec(
            image_buffer@,
            exif_type(),
            exif_payload_of(exif_time@),
        ) == Err::<Seq<u8>, EmbedError>(e)),
        valid_signature(image_buffer@) && encode_utf8(exif_time@).len() > 0xfffffffe ==> r
            == Err::<Vec<u8>, EmbedError>(EmbedError::EncodingError),
{
    if !check_signature(image_buffer) {
        return Err(EmbedError::InvalidSignature);
    }
    let text_bytes = exif_time.as_str().as_bytes_vec();
    if text_bytes.len() > 0xfffffffe {
        return Err(EmbedError::EncodingError);
    }
    let payload = match build_exif_payload(exif_time.as_str()) {
        Ok(p) => p,
        Err(()) => {
            return Err(EmbedError::EncodingError);
        },
    };
    let mut ty: Vec<u8> = Vec::new();
    ty.push(0x65);
    ty.push(0x58);
    ty.push(0x49);
    ty.push(0x66);
    proof {
        assert(ty@ =~= exif_type());
    }
    insert_after_header(image_buffer, &ty, &payload)
}


/// Chunk parsing depends only on the bytes from the offset on: equal
/// suffixes parse to equal chunk sequences.
proof fn lemma_chunks_shift(x: Seq<u8>, ox: int, y: Seq<u8>, oy: int)
    requires
        0 <= ox <= x.len(),
        0 <= oy <= y.len(),
        x.subrange(ox, x.len() as int) == y.subrange(oy, y.len() as int),
    ensures
        chunks_from(x, ox) == chunks_from(y, oy),
    decreases x.len() - ox,
{
    let rem = x.len() - ox;
    let sx = x.subrange(ox, x.len() as int);
    let sy = y.subrange(oy, y.len() as int);
    assert(sx.len() == x.len() - ox);
    assert(sy.len() == y.len() - oy);
    assert(sx == sy);
    assert(y.len() - oy == rem);
    assert forall|k: int| ox <= k < x.len() implies #[trigger] x[k] == y[k - ox + oy] by {
        assert(sx[k - ox] == x[k]);
        assert(sy[k - ox] == y[oy + (k - ox)]);
    }
    if ox + 12 > x.len() {
        assert(chunks_from(x, ox) =~= chunks_from(y, oy));
    } else {
        assert(be32(x, ox) == be32(y, oy));
        let len = be32(x, ox);
        if ox + 12 + len > x.len() {
            assert(chunks_from(x, ox) =~= chunks_from(y, oy));
        } else {
            assert(x.subrange(ox + 4, ox + 8) =~= y.subrange(oy + 4, oy + 8));
            assert(x.subrange(ox + 8, ox + 8 + len) =~= y.subrange(oy + 8, oy + 8 + len));
            assert(x.subrange(ox + 12 + len, x.len() as int) =~= y.subrange(
                oy + 12 + len,
                y.len() as int,
            ));
            lemma_chunks_shift(x, ox + 12 + len, y, oy + 12 + len);
            assert(chunks_from(x, ox) =~= chunks_from(y, oy));
        }
    }
}

/// The four big-endian bytes of a 32-bit value read back as that value.
proof fn lemma_be_bytes32_inverse(n: int)
    requires
        0 <= n < 0x100000000,
    ensures
        be_bytes32(n).len() == 4,
        (be_bytes32(n)[0] as int) * 0x1000000 + (be_bytes32(n)[1] as int) * 0x10000 + (be_bytes32(
            n,
        )[2] as int) * 0x100 + (be_bytes32(n)[3] as int) == n,
{
    assert((n / 0x1000000 % 256) * 0x1000000 + (n / 0x10000 % 256) * 0x10000 + (n / 0x100 % 256)
        * 0x100 + n % 256 == n) by (nonlinear_arith)
        requires
            0 <= n < 0x100000000,
    ;
}

/// Round-trip law: re-parsing a successful insertion exposes the original
/// chunks, byte-identical and in order, with exactly one new chunk of the
/// inserted type and body directly after the header chunk, and the new
/// chunk's checksum field holds the CRC-32 of its type and body.
pub proof fn lemma_insert_round_trip(s: Seq<u8>, ty: Seq<u8>, payload: Seq<u8>)
    requires
        ty.len() == 4,
        splice_spec(s, ty, payload) is Ok,
    ensures
        splice_spec(s, ty, payload) matches Ok(out) ==> {
            let before = chunks_from(s, 8);
            let after = chunks_from(out, 8);
            let fe = first_chunk_end(s);
            &&& valid_signature(out)
            &&& after.len() == before.len() + 1
            &&& before.len() >= 1
            &&& after[0] == before[0]
            &&& after[1] == (ChunkView { ty: ty, data: payload })
            &&& forall|i: int| 1 <= i < before.len() ==> after[i + 1] == before[i]
            &&& out.subrange(
                fe + 8 + payload.len(),
                fe + 12 + payload.len(),
            ) == be_bytes32(crc32_of(ty + payload) as int)
        },
{
    let out = splice_spec(s, ty, payload)->Ok_0;
    let fe = first_chunk_end(s);
    let c = chunk_bytes(ty, payload);
    let n = payload.len() as int;
    let a = s.subrange(0, fe);
    let b = s.subrange(fe, s.len() as int);
    assert(out == a + c + b);
    assert(be_bytes32(n).len() == 4);
    assert(be_bytes32(crc32_of(ty + payload) as int).len() == 4);
    assert(c.len() == 12 + n);
    assert(stream_intact(s, 8) && s.len() > 8);
    lemma_intact_first_end(s);
    assert(8 + 12 + be32(s, 8) <= s.len());
    assert(fe >= 20);
    // the prefix of out is untouched
    assert forall|k: int| 0 <= k < fe implies out[k] == s[k] by {
        assert(out[k] == a[k]);
    }
    assert(valid_signature(out));
    // the first chunk of out equals the first chunk of s
    assert(be32(out, 8) == be32(s, 8));
    assert(out.len() == s.len() + c.len());
    assert(out.subrange(12, 16) =~= s.subrange(12, 16));
    assert(out.subrange(16, 8 + 8 + be32(s, 8)) =~= s.subrange(16, 8 + 8 + be32(s, 8)));
    assert(chunks_from(out, 8) == seq![
        ChunkView { ty: out.subrange(12, 16), data: out.subrange(16, 8 + 8 + be32(out, 8)) },
    ] + chunks_from(out, fe));
    assert(chunks_from(s, 8) == seq![
        ChunkView { ty: s.subrange(12, 16), data: s.subrange(16, 8 + 8 + be32(s, 8)) },
    ] + chunks_from(s, fe));
    // the inserted chunk sits at fe in out
    assert forall|j: int| 0 <= j < c.len() implies out[fe + j] == c[j] by {
        assert(out[fe + j] == (a + c + b)[fe + j]);
    }
    lemma_be_bytes32_inverse(n);
    assert(c[0] == be_bytes32(n)[0] && c[1] == be_bytes32(n)[1] && c[2] == be_bytes32(n)[2] && c[3]
        == be_bytes32(n)[3]);
    assert(be32(out, fe) == n);
    assert(fe + 12 + n <= out.len());
    assert(out.subrange(fe + 4, fe + 8) =~= ty) by {
        assert forall|j: int| 0 <= j < 4 implies out.subrange(fe + 4, fe + 8)[j] == ty[j] by {
            assert(out[fe + 4 + j] == c[4 + j]);
            assert(c[4 + j] == (be_bytes32(n) + ty + payload + be_bytes32(
                crc32_of(ty + payload) as int,
            ))[4 + j]);
        }
    }
    assert(out.subrange(fe + 8, fe + 8 + n) =~= payload) by {
        assert forall|j: int| 0 <= j < n implies out.subrange(fe + 8, fe + 8 + n)[j] == payload[j]
        by {
            assert(out[fe + 8 + j] == c[8 + j]);
            assert(c[8 + j] == (be_bytes32(n) + ty + payload + be_bytes32(
                crc32_of(ty + payload) as int,
            ))[8 + j]);
        }
    }
    assert(chunks_from(out, fe) == seq![ChunkView { ty: ty, data: payload }] + chunks_from(
        out,
        fe + 12 + n,
    )) by {
        assert(chunks_from(out, fe) == seq![
            ChunkView { ty: out.subrange(fe + 4, fe + 8), data: out.subrange(fe + 8, fe + 8 + n) },
        ] + chunks_from(out, fe + 12 + n));
    }
    // the tail of out re-parses as the tail of s
    assert(out.subrange(fe + 12 + n, out.len() as int) =~= s.subrange(fe, s.len() as int)) by {
        assert forall|j: int| 0 <= j < s.len() - fe implies out.subrange(
            fe + 12 + n,
            out.len() as int,
        )[j] == s.subrange(fe, s.len() as int)[j] by {
            assert(out[fe + 12 + n + j] == (a + c + b)[fe + c.len() + j]);
            assert((a + c + b)[fe + c.len() + j] == b[j]);
        }
    }
    lemma_chunks_shift(out, fe + 12 + n, s, fe);
    // the checksum field of the new chunk
    assert(out.subrange(fe + 8 + n, fe + 12 + n) =~= be_bytes32(crc32_of(ty + payload) as int))
        by {
        assert forall|j: int| 0 <= j < 4 implies out.subrange(fe + 8 + n, fe + 12 + n)[j]
            == be_bytes32(crc32_of(ty + payload) as int)[j] by {
            assert(out[fe + 8 + n + j] == c[8 + n + j]);
            assert(c[8 + n + j] == (be_bytes32(n) + ty + payload + be_bytes32(
                crc32_of(ty + payload) as int,
            ))[8 + n + j]);
        }
    }
    let before = chunks_from(s, 8);
    let after = chunks_from(out, 8);
    assert(after == seq![before[0]] + (seq![ChunkView { ty: ty, data: payload }] + chunks_from(
        s,
        fe,
    )));
    assert(before == seq![before[0]] + chunks_from(s, fe));
    assert(after.len() == before.len() + 1);
    assert(after[1] == (ChunkView { ty: ty, data: payload }));
    assert forall|i: int| 1 <= i < before.len() implies after[i + 1] == before[i] by {
        assert(before[i] == chunks_from(s, fe)[i - 1]);
        assert(after[i + 1] == (seq![ChunkView { ty: ty, data: payload }] + chunks_from(s, fe))[i]);
    }
}





/// Truncation law: a chunk whose declared length exceeds the bytes that
/// remain ends the reader's scan with no result, and makes the write path's
/// stream check fail, so the splicer rejects the buffer.
pub proof fn lemma_oversized_chunk_ends_stream(s: Seq<u8>, off: int, offset_hours: int)
    requires
        0 <= off,
        off + 12 <= s.len(),
        off + 12 + be32(s, off) > s.len(),
    ensures
        scan_from(s, off, offset_hours) is None,
        !stream_intact(s, off),
{
}


/// The reader over an already-parsed chunk sequence: the first 7-byte `tIME`
/// chunk decides alone; otherwise the first text chunk with a parseable
/// creation time decides.
pub open spec fn scan_chunks(chunks: Seq<ChunkView>, offset_hours: int) -> Option<Seq<u8>>
    decreases chunks.len(),
{
    if chunks.len() == 0 {
        None
    } else {
        let c = chunks[0];
        if c.ty == time_type() && c.data.len() == 7 {
            time_chunk_result(c.data, offset_hours)
        } else if (c.ty == text_type() || c.ty == itxt_type()) && text_chunk_result(c.data)
            is Some {
            text_chunk_result(c.data)
        } else {
            scan_chunks(chunks.drop_first(), offset_hours)
        }
    }
}

/// Reader law: the byte-level scan is exactly the chunk-wise scan of the
/// parsed chunk sequence, so what the reader returns is decided by the
/// chunks alone, in file order.
pub proof fn lemma_scan_is_chunkwise(s: Seq<u8>, off: int, offset_hours: int)
    ensures
        scan_from(s, off, offset_hours) == scan_chunks(chunks_from(s, off), offset_hours),
    decreases s.len() - off,
{
    if off < 0 || off + 12 > s.len() {
    } else if off + 12 + be32(s, off) > s.len() {
    } else {
        let c = ChunkView {
            ty: s.subrange(off + 4, off + 8),
            data: s.subrange(off + 8, off + 8 + be32(s, off)),
        };
        let rest = chunks_from(s, off + 12 + be32(s, off));
        assert(chunks_from(s, off) == seq![c] + rest);
        assert((seq![c] + rest)[0] == c);
        assert((seq![c] + rest).drop_first() =~= rest);
        lemma_scan_is_chunkwise(s, off + 12 + be32(s, off), offset_hours);
    }
}


/// Whether a chunk decides the reader's scan: a 7-byte `tIME` chunk, or a
/// text chunk whose `Creation Time` value parses.
pub open spec fn chunk_decides(c: ChunkView) -> bool {
    ||| c.ty == time_type() && c.data.len() == 7
    ||| (c.ty == text_type() || c.ty == itxt_type()) && text_chunk_result(c.data) is Some
}

/// Reader law: when no earlier chunk decides, a 7-byte `tIME` chunk decides
/// the scan by its fields alone — shifted by the offset and canonically
/// rendered, or nothing when they name no real date or the shift leaves
/// years 1..=9999.
pub proof fn lemma_first_deciding_time_chunk(
    chunks: Seq<ChunkView>,
    i: int,
    offset_hours: int,
)
    requires
        0 <= i < chunks.len(),
        forall|j: int| 0 <= j < i ==> !chunk_decides(#[trigger] chunks[j]),
        chunks[i].ty == time_type(),
        chunks[i].data.len() == 7,
    ensures
        scan_chunks(chunks, offset_hours) == time_chunk_result(chunks[i].data, offset_hours),
    decreases i,
{
    if i > 0 {
        assert(!chunk_decides(chunks[0]));
        assert forall|j: int| 0 <= j < i - 1 implies !chunk_decides(
            #[trigger] chunks.drop_first()[j],
        ) by {
            assert(chunks.drop_first()[j] == chunks[j + 1]);
        }
        assert(chunks.drop_first()[i - 1] == chunks[i]);
        lemma_first_deciding_time_chunk(chunks.drop_first(), i - 1, offset_hours);
    }
}

/// Reader law: when no earlier chunk decides — in particular, no 7-byte
/// `tIME` chunk precedes it — a text chunk whose `Creation Time` value
/// parses decides the scan: its value canonically rendered.
pub proof fn lemma_first_deciding_text_chunk(
    chunks: Seq<ChunkView>,
    i: int,
    offset_hours: int,
)
    requires
        0 <= i < chunks.len(),
        forall|j: int| 0 <= j < i ==> !chunk_decides(#[trigger] chunks[j]),
        chunks[i].ty == text_type() || chunks[i].ty == itxt_type(),
        text_chunk_result(chunks[i].data) is Some,
    ensures
        scan_chunks(chunks, offset_hours) == text_chunk_result(chunks[i].data),
    decreases i,
{
    if i == 0 {
        assert(chunks[0].ty != time_type()) by {
            if chunks[0].ty == text_type() {
                assert(text_type()[0] != time_type()[0] || text_type()[1] != time_type()[1]);
            } else {
                assert(itxt_type()[0] != time_type()[0]);
            }
        }
    } else {
        assert(!chunk_decides(chunks[0]));
        assert forall|j: int| 0 <= j < i - 1 implies !chunk_decides(
            #[trigger] chunks.drop_first()[j],
        ) by {
            assert(chunks.drop_first()[j] == chunks[j + 1]);
        }
        assert(chunks.drop_first()[i - 1] == chunks[i]);
        lemma_first_deciding_text_chunk(chunks.drop_first(), i - 1, offset_hours);
    }
}

} // verus!
