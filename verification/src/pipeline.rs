//! Timestamp resolution pipeline: picks the container from the filename's
//! extension, resolves a timestamp from embedded PNG metadata or from the
//! filename, and decides the embedding: PNG buffers get the `eXIf` chunk
//! spliced in here; JPEG and WebP buffers are handed back with the resolved
//! timestamp for the host to rewrite through the external metadata-tag
//! library, whose calls can abort on malformed containers and so stay
//! outside the verified library.

use vstd::prelude::*;
use vstd::string::StrSliceExecFns;
use vstd::string::StringSliceAdditionalSpecFns;
use vstd::utf8::encode_utf8;

use crate::codec::ascii_chars;
use crate::matcher::extract_spec;
use crate::matcher::extract_timestamp_string;
use crate::png::EmbedError;
use crate::png::copy_range;
use crate::png::embed_exif_time;
use crate::png::exif_payload_of;
use crate::png::exif_type;
use crate::png::get_creation_time_from_chunk;
use crate::png::match_at_exec;
use crate::png::scan_from;
use crate::png::splice_spec;
use crate::png::valid_signature;

verus! {

/// The containers the pipeline accepts, named by filename extension.
#[derive(Clone, Copy, Debug, PartialEq, Eq, Structural)]
pub enum FileType {
    Png,
    Jpeg,
    Webp,
}

/// What the pipeline decided for an image with a resolved timestamp.
#[derive(Debug, PartialEq, Eq)]
pub enum EmbedOutcome {
    /// A PNG: the buffer with one `eXIf` chunk spliced in after `IHDR`.
    Embedded(Vec<u8>),
    /// A JPEG or WebP: the buffer, untouched, with the resolved canonical
    /// timestamp; the host performs the metadata rewrite, since the external
    /// metadata-tag library can abort on malformed containers.
    Delegated { image_buffer: Vec<u8>, timestamp: String, webp: bool },
}

/// Index of the last `.` strictly before position `i`.
pub open spec fn last_dot_before(s: Seq<u8>, i: int) -> Option<int>
    decreases i,
{
    if i <= 0 || i > s.len() {
        None
    } else if s[i - 1] == 0x2eu8 {
        Some(i - 1)
    } else {
        last_dot_before(s, i - 1)
    }
}

/// The filename's extension: what follows the last `.`, or the whole name
/// when it has none.
pub open spec fn ext_of(s: Seq<u8>) -> Seq<u8> {
    match last_dot_before(s, s.len() as int) {
        Some(i) => s.subrange(i + 1, s.len() as int),
        None => s,
    }
}

pub open spec fn png_ext() -> Seq<u8> {
    seq![0x70u8, 0x6eu8, 0x67u8]
}

pub open spec fn jpeg_ext() -> Seq<u8> {
    seq![0x6au8, 0x70u8, 0x65u8, 0x67u8]
}

pub open spec fn webp_ext() -> Seq<u8> {
    seq![0x77u8, 0x65u8, 0x62u8, 0x70u8]
}

/// The container a filename names, from its extension alone.
pub open spec fn kind_of(name: Seq<u8>) -> Option<FileType> {
    if ext_of(name) == png_ext() {
        Some(FileType::Png)
    } else if ext_of(name) == jpeg_ext() {
        Some(FileType::Jpeg)
    } else if ext_of(name) == webp_ext() {
        Some(FileType::Webp)
    } else {
        None
    }
}

/// The timestamp the pipeline resolves: for PNG the embedded chunk metadata
/// first, then the filename; for other containers the filename alone.
pub open spec fn resolved_timestamp(
    buf: Seq<u8>,
    name: Seq<u8>,
    kind: FileType,
    offset_hours: int,
) -> Option<Seq<u8>> {
    if kind == FileType::Png && valid_signature(buf) && scan_from(buf, 8, offset_hours) is Some {
        scan_from(buf, 8, offset_hours)
    } else {
        extract_spec(name, offset_hours)
    }
}

/// Whether two byte buffers hold the same bytes.
fn bytes_eq(a: &Vec<u8>, b: &Vec<u8>) -> (r: bool)
    ensures
        r == (a@ == b@),
{
    if a.len() != b.len() {
        return false;
    }
    let r = match_at_exec(a, b, 0);
    proof {
        assert(a@.subrange(0, a@.len() as int) =~= a@);
    }
    r
}

/// Finds where the filename's extension starts: one past the last `.`.
fn ext_range(v: &Vec<u8>) -> (r: Option<usize>)
    ensures
        r matches Some(i) ==> last_dot_before(v@, v@.len() as int) == Some(i as int) && i
            < v@.len(),
        r is None ==> last_dot_before(v@, v@.len() as int) is None,
{
    let n: usize = v.len();
    let mut i: usize = n;
    while i > 0
        invariant
            i <= n == v@.len(),
            last_dot_before(v@, n as int) == last_dot_before(v@, i as int),
        decreases i,
    {
        if v[i - 1] == 0x2e {
            return Some(i - 1);
        }
        i = i - 1;
    }
    None
}

/// The container a filename names.
pub fn file_type_of(filename: &str) -> (r: Option<FileType>)
    ensures
        r == kind_of(filename.spec_bytes()),
{
    let v = filename.as_bytes_vec();
    let n: usize = v.len();
    let ext = match ext_range(&v) {
        Some(i) => copy_range(&v, i + 1, n),
        None => copy_range(&v, 0, n),
    };
    proof {
        assert(v@.subrange(0, v@.len() as int) =~= v@);
    }
    let mut png_pat: Vec<u8> = Vec::new();
    png_pat.push(0x70);
    png_pat.push(0x6e);
    png_pat.push(0x67);
    proof {
        assert(png_pat@ =~= png_ext());
    }
    if bytes_eq(&ext, &png_pat) {
        return Some(FileType::Png);
    }
    let mut jpeg_pat: Vec<u8> = Vec::new();
    jpeg_pat.push(0x6a);
    jpeg_pat.push(0x70);
    jpeg_pat.push(0x65);
    jpeg_pat.push(0x67);
    proof {
        assert(jpeg_pat@ =~= jpeg_ext());
    }
    if bytes_eq(&ext, &jpeg_pat) {
        return Some(FileType::Jpeg);
    }
    let mut webp_pat: Vec<u8> = Vec::new();
    webp_pat.push(0x77);
    webp_pat.push(0x65);
    webp_pat.push(0x62);
    webp_pat.push(0x70);
    proof {
        assert(webp_pat@ =~= webp_ext());
    }
    if bytes_eq(&ext, &webp_pat) {
        return Some(FileType::Webp);
    }
    None
}

/// Resolves a timestamp for the image and decides the embedding. The
/// container comes from the filename's extension; an unrecognized extension
/// fails before the buffer is touched. For PNG the timestamp comes from the
/// chunk metadata, else from the filename, and the `eXIf` chunk is spliced
/// in here — on a well-formed stream success is owed. For JPEG and WebP the
/// timestamp comes from the filename and the untouched buffer is handed back
/// for the host's metadata rewrite, always successfully.
#[verifier::rlimit(80)]
pub fn embed_timestamp_from_filename(
    image_buffer: Vec<u8>,
    filename: String,
    offset_hours: i32,
) -> (r: Result<EmbedOutcome, EmbedError>)
    ensures
        (r == Err::<EmbedOutcome, EmbedError>(EmbedError::InvalidFileType)) <==> kind_of(
            encode_utf8(filename@),
        ) is None,
        kind_of(encode_utf8(filename@)) matches Some(k) ==> ((r == Err::<
            EmbedOutcome,
            EmbedError,
        >(EmbedError::TimestampNotFound)) <==> resolved_timestamp(
            image_buffer@,
            encode_utf8(filename@),
            k,
            offset_hours as int,
        ) is None),
        kind_of(encode_utf8(filename@)) matches Some(k) ==> resolved_timestamp(
            image_buffer@,
            encode_utf8(filename@),
            k,
            offset_hours as int,
        ) matches Some(ts) ==> {
            &&& k == FileType::Png ==> {
                &&& (r is Ok) <==> encode_utf8(ascii_chars(ts)).len() <= 0xfffffffe
                    && splice_spec(
                    image_buffer@,
                    exif_type(),
                    exif_payload_of(ascii_chars(ts)),
                ) is Ok
                &&& r matches Ok(o) ==> o matches EmbedOutcome::Embedded(out) && splice_spec(
                    image_buffer@,
                    exif_type(),
                    exif_payload_of(ascii_chars(ts)),
                ) == Ok::<Seq<u8>, EmbedError>(out@)
                &&& encode_utf8(ascii_chars(ts)).len() <= 0xfffffffe ==> (r matches Err(e)
                    ==> splice_spec(
                    image_buffer@,
                    exif_type(),
                    exif_payload_of(ascii_chars(ts)),
                ) == Err::<Seq<u8>, EmbedError>(e))
                &&& valid_signature(image_buffer@) && encode_utf8(ascii_chars(ts)).len()
                    > 0xfffffffe ==> r == Err::<EmbedOutcome, EmbedError>(
                    EmbedError::EncodingError,
                )
            }
            &&& k != FileType::Png ==> {
                &&& r is Ok
                &&& r matches Ok(o) ==> o matches EmbedOutcome::Delegated {
                    image_buffer: out_buf,
                    timestamp: out_ts,
                    webp: out_webp,
                } && out_buf@ == image_buffer@ && out_ts@ == ascii_chars(ts) && out_webp == (k
                    == FileType::Webp)
            }
        },
{
    let kind = match file_type_of(filename.as_str()) {
        Some(k) => k,
        None => {
            return Err(EmbedError::InvalidFileType);
        },
    };
    let timestamp: String = match kind {
        FileType::Png => {
            match get_creation_time_from_chunk(&image_buffer, offset_hours) {
                Some(t) => t,
                None => {
                    match extract_timestamp_string(filename.as_str(), offset_hours) {
                        Some(t) => t,
                        None => {
                            return Err(EmbedError::TimestampNotFound);
                        },
                    }
                },
            }
        },
        _ => {
            match extract_timestamp_string(filename.as_str(), offset_hours) {
                Some(t) => t,
                None => {
                    return Err(EmbedError::TimestampNotFound);
                },
            }
        },
    };
    match kind {
        FileType::Png => {
            match embed_exif_time(timestamp, &image_buffer) {
                Ok(out) => Ok(EmbedOutcome::Embedded(out)),
                Err(e) => Err(e),
            }
        },
        FileType::Jpeg => {
            Ok(EmbedOutcome::Delegated { image_buffer, timestamp, webp: false })
        },
        FileType::Webp => {
            Ok(EmbedOutcome::Delegated { image_buffer, timestamp, webp: true })
        },
    }
}

} // verus!
