//! Tests for the PNG chunk reader, the splicer and the embedding pipeline.

use pngstamp::codec::creation_time_to_exif_time;
use pngstamp::pipeline::EmbedOutcome;
use pngstamp::pipeline::embed_timestamp_from_filename;
use pngstamp::png::EmbedError;
use pngstamp::png::embed_exif_time;
use pngstamp::png::get_creation_time_from_chunk;
use pngstamp::png::insert_after_header;

const PNG_SIGNATURE: [u8; 8] = [137, 80, 78, 71, 13, 10, 26, 10];

fn chunk(ty: &[u8; 4], data: &[u8]) -> Vec<u8> {
    let mut out = Vec::new();
    out.extend_from_slice(&(data.len() as u32).to_be_bytes());
    out.extend_from_slice(ty);
    out.extend_from_slice(data);
    let mut td = ty.to_vec();
    td.extend_from_slice(data);
    out.extend_from_slice(&crc32fast::hash(&td).to_be_bytes());
    out
}

fn png_with_chunks(chunks: &[Vec<u8>]) -> Vec<u8> {
    let mut out = PNG_SIGNATURE.to_vec();
    for c in chunks {
        out.extend_from_slice(c);
    }
    out
}

fn ihdr() -> Vec<u8> {
    // 1x1 grayscale image header; contents are irrelevant to the reader.
    chunk(b"IHDR", &[0, 0, 0, 1, 0, 0, 0, 1, 8, 0, 0, 0, 0])
}

fn iend() -> Vec<u8> {
    chunk(b"IEND", &[])
}

#[test]
fn test_time_chunk_with_offset() {
    let time = chunk(b"tIME", &[0x07, 0xe8, 10, 5, 7, 5, 20]); // 2024-10-05 07:05:20
    let png = png_with_chunks(&[ihdr(), time, iend()]);
    assert_eq!(
        get_creation_time_from_chunk(&png, 9),
        Some("2024:10:05 16:05:20".to_string())
    );
}

#[test]
fn test_text_chunk_creation_time() {
    let text = chunk(b"tEXt", b"Creation Time=2025-01-25T13:56:25+09:00");
    let png = png_with_chunks(&[ihdr(), text, iend()]);
    assert_eq!(
        get_creation_time_from_chunk(&png, 0),
        Some("2025:01:25 13:56:25".to_string())
    );
}

#[test]
fn test_itxt_chunk_creation_time() {
    let text = chunk(b"iTXt", b"Creation Time=2025:01:25 13:56:25");
    let png = png_with_chunks(&[ihdr(), text, iend()]);
    assert_eq!(
        get_creation_time_from_chunk(&png, 0),
        Some("2025:01:25 13:56:25".to_string())
    );
}

#[test]
fn test_time_chunk_wins_by_file_order() {
    let time = chunk(b"tIME", &[0x07, 0xe9, 1, 2, 3, 4, 5]); // 2025-01-02 03:04:05
    let text = chunk(b"tEXt", b"Creation Time=2020-06-06T06:06:06+00:00");
    let png = png_with_chunks(&[ihdr(), time, text, iend()]);
    assert_eq!(
        get_creation_time_from_chunk(&png, 0),
        Some("2025:01:02 03:04:05".to_string())
    );
}

#[test]
fn test_unparsable_text_chunk_falls_through() {
    let bad = chunk(b"tEXt", b"Creation Time=once upon a time");
    let good = chunk(b"tEXt", b"Creation Time=2025-01-25T13:56:25+09:00");
    let png = png_with_chunks(&[ihdr(), bad, good, iend()]);
    assert_eq!(
        get_creation_time_from_chunk(&png, 0),
        Some("2025:01:25 13:56:25".to_string())
    );
}

#[test]
fn test_wrong_length_time_chunk_is_skipped() {
    let short_time = chunk(b"tIME", &[0x07, 0xe8, 10, 5, 7, 5]); // 6 bytes
    let text = chunk(b"tEXt", b"Creation Time=2025:01:25 13:56:25");
    let png = png_with_chunks(&[ihdr(), short_time, text, iend()]);
    assert_eq!(
        get_creation_time_from_chunk(&png, 0),
        Some("2025:01:25 13:56:25".to_string())
    );
}

#[test]
fn test_bad_signature_read_and_write() {
    let not_png = b"GIF89a not a png at all".to_vec();
    assert_eq!(get_creation_time_from_chunk(&not_png, 0), None);
    assert_eq!(
        embed_exif_time("2025:01:25 13:56:25".to_string(), &not_png),
        Err(EmbedError::InvalidSignature)
    );
    assert_eq!(
        insert_after_header(&not_png, &b"eXIf".to_vec(), &vec![1, 2, 3]),
        Err(EmbedError::InvalidSignature)
    );
}

#[test]
fn test_truncated_chunk_read_and_write() {
    // The tIME chunk declares 7 bytes of data, but the buffer ends early.
    let mut png = png_with_chunks(&[ihdr()]);
    png.extend_from_slice(&7u32.to_be_bytes());
    png.extend_from_slice(b"tIME");
    png.extend_from_slice(&[0x07, 0xe8]); // only 2 of 7 data bytes
    assert_eq!(get_creation_time_from_chunk(&png, 0), None);
    assert_eq!(
        insert_after_header(&png, &b"eXIf".to_vec(), &vec![]),
        Err(EmbedError::TruncatedChunk)
    );
}

#[test]
fn test_missing_header_chunk() {
    let png = png_with_chunks(&[iend()]);
    assert_eq!(
        insert_after_header(&png, &b"eXIf".to_vec(), &vec![1]),
        Err(EmbedError::MissingHeaderChunk)
    );
    let empty = png_with_chunks(&[]);
    assert_eq!(
        insert_after_header(&empty, &b"eXIf".to_vec(), &vec![1]),
        Err(EmbedError::MissingHeaderChunk)
    );
}

#[test]
fn test_duplicate_chunk_rejected() {
    let png = png_with_chunks(&[ihdr(), iend()]);
    let once = insert_after_header(&png, &b"eXIf".to_vec(), &vec![9, 9, 9]).unwrap();
    assert_eq!(
        insert_after_header(&once, &b"eXIf".to_vec(), &vec![9, 9, 9]),
        Err(EmbedError::DuplicateChunk)
    );
}

#[test]
fn test_insert_round_trip_preserves_chunks() {
    let time = chunk(b"tIME", &[0x07, 0xe8, 10, 5, 7, 5, 20]);
    let png = png_with_chunks(&[ihdr(), time.clone(), iend()]);
    let payload: Vec<u8> = vec![0x4d, 0x4d, 0x00, 0x2a, 1, 2, 3];
    let out = insert_after_header(&png, &b"eXIf".to_vec(), &payload).unwrap();

    // Re-parse the output chunk by chunk.
    assert_eq!(&out[0..8], &PNG_SIGNATURE);
    let mut off = 8;
    let mut parsed: Vec<(Vec<u8>, Vec<u8>, [u8; 4])> = Vec::new();
    while off + 12 <= out.len() {
        let len = u32::from_be_bytes([out[off], out[off + 1], out[off + 2], out[off + 3]]) as usize;
        assert!(off + 12 + len <= out.len(), "no truncated chunk may appear");
        let ty = out[off + 4..off + 8].to_vec();
        let data = out[off + 8..off + 8 + len].to_vec();
        let crc: [u8; 4] = out[off + 8 + len..off + 12 + len].try_into().unwrap();
        parsed.push((ty, data, crc));
        off = off + 12 + len;
    }
    assert_eq!(off, out.len());
    assert_eq!(parsed.len(), 4);
    assert_eq!(parsed[0].0, b"IHDR");
    assert_eq!(parsed[1].0, b"eXIf");
    assert_eq!(parsed[1].1, payload);
    // The new chunk's CRC-32 verifies against type and data.
    let mut td = b"eXIf".to_vec();
    td.extend_from_slice(&payload);
    assert_eq!(parsed[1].2, crc32fast::hash(&td).to_be_bytes());
    // Exactly one eXIf chunk, and the untouched chunks are byte-identical.
    assert_eq!(parsed.iter().filter(|c| c.0 == b"eXIf").count(), 1);
    assert_eq!(parsed[2].0, b"tIME");
    assert_eq!(parsed[3].0, b"IEND");
    let expected_tail: Vec<u8> = [time, iend()].concat();
    assert_eq!(&out[out.len() - expected_tail.len()..], &expected_tail[..]);
    let header = ihdr();
    assert_eq!(&out[8..8 + header.len()], &header[..]);
}

#[test]
fn test_embed_exif_time_payload_is_readable() {
    let png = png_with_chunks(&[ihdr(), iend()]);
    let out = embed_exif_time("2025:01:25 13:56:25".to_string(), &png).unwrap();
    // The eXIf chunk sits directly after IHDR; hand its payload to the exif
    // reader and check the DateTimeOriginal field round-trips.
    let off = 8 + ihdr().len();
    let len = u32::from_be_bytes([out[off], out[off + 1], out[off + 2], out[off + 3]]) as usize;
    assert_eq!(&out[off + 4..off + 8], b"eXIf");
    let payload = out[off + 8..off + 8 + len].to_vec();
    let parsed = exif::Reader::new().read_raw(payload).unwrap();
    let field = parsed
        .get_field(exif::Tag::DateTimeOriginal, exif::In::PRIMARY)
        .unwrap();
    match &field.value {
        exif::Value::Ascii(v) => assert_eq!(v[0], b"2025:01:25 13:56:25".to_vec()),
        other => panic!("unexpected value kind: {:?}", other),
    }
}

#[test]
fn test_pipeline_invalid_file_type() {
    assert_eq!(
        embed_timestamp_from_filename(vec![1, 2, 3], "notes.txt".to_string(), 0),
        Err(EmbedError::InvalidFileType)
    );
    assert_eq!(
        embed_timestamp_from_filename(vec![1, 2, 3], "no_extension".to_string(), 0),
        Err(EmbedError::InvalidFileType)
    );
}

#[test]
fn test_pipeline_timestamp_not_found() {
    let png = png_with_chunks(&[ihdr(), iend()]);
    assert_eq!(
        embed_timestamp_from_filename(png, "plain.png".to_string(), 0),
        Err(EmbedError::TimestampNotFound)
    );
}

#[test]
fn test_pipeline_png_from_filename() {
    let png = png_with_chunks(&[ihdr(), iend()]);
    let out = match embed_timestamp_from_filename(
        png,
        "スクリーンショット 2025-01-22 20:26:51.png".to_string(),
        0,
    )
    .unwrap()
    {
        EmbedOutcome::Embedded(out) => out,
        other => panic!("expected an embedded PNG, got {:?}", other),
    };
    let off = 8 + ihdr().len();
    assert_eq!(&out[off + 4..off + 8], b"eXIf");
    // The embedded timestamp is the one the filename carries.
    assert_eq!(
        get_creation_time_from_chunk(&out, 0),
        None,
        "an eXIf chunk carries no tIME or text creation time"
    );
    let len = u32::from_be_bytes([out[off], out[off + 1], out[off + 2], out[off + 3]]) as usize;
    let payload = out[off + 8..off + 8 + len].to_vec();
    let parsed = exif::Reader::new().read_raw(payload).unwrap();
    let field = parsed
        .get_field(exif::Tag::DateTimeOriginal, exif::In::PRIMARY)
        .unwrap();
    match &field.value {
        exif::Value::Ascii(v) => assert_eq!(v[0], b"2025:01:22 20:26:51".to_vec()),
        other => panic!("unexpected value kind: {:?}", other),
    }
}

#[test]
fn test_pipeline_png_prefers_embedded_time() {
    let time = chunk(b"tIME", &[0x07, 0xe8, 10, 5, 7, 5, 20]);
    let png = png_with_chunks(&[ihdr(), time, iend()]);
    let out =
        match embed_timestamp_from_filename(png, "2025-01-22_20:26:51.png".to_string(), 9).unwrap()
        {
            EmbedOutcome::Embedded(out) => out,
            other => panic!("expected an embedded PNG, got {:?}", other),
        };
    let off = 8 + ihdr().len();
    let len = u32::from_be_bytes([out[off], out[off + 1], out[off + 2], out[off + 3]]) as usize;
    assert_eq!(&out[off + 4..off + 8], b"eXIf");
    let payload = out[off + 8..off + 8 + len].to_vec();
    let parsed = exif::Reader::new().read_raw(payload).unwrap();
    let field = parsed
        .get_field(exif::Tag::DateTimeOriginal, exif::In::PRIMARY)
        .unwrap();
    match &field.value {
        // The embedded tIME (shifted by 9 hours) wins over the filename.
        exif::Value::Ascii(v) => assert_eq!(v[0], b"2024:10:05 16:05:20".to_vec()),
        other => panic!("unexpected value kind: {:?}", other),
    }
}

#[test]
fn test_pipeline_delegates_jpeg() {
    // A non-PNG container is handed back untouched with the resolved
    // timestamp; the buffer itself is never inspected.
    let buffer = vec![0, 1, 2, 3];
    assert_eq!(
        embed_timestamp_from_filename(
            buffer.clone(),
            "photo 2025-01-22 20:26:51.jpeg".to_string(),
            0
        ),
        Ok(EmbedOutcome::Delegated {
            image_buffer: buffer,
            timestamp: "2025:01:22 20:26:51".to_string(),
            webp: false,
        })
    );
}

#[test]
fn test_pipeline_delegates_webp() {
    let buffer = vec![0x52, 0x49, 0x46, 0x46];
    assert_eq!(
        embed_timestamp_from_filename(buffer.clone(), "shot_1728111920.webp".to_string(), 9),
        Ok(EmbedOutcome::Delegated {
            image_buffer: buffer,
            timestamp: "2024:10:05 16:05:20".to_string(),
            webp: true,
        })
    );
}

#[test]
fn test_codec_order_rfc_before_iso() {
    // Both layouts cannot match one string, but order is observable through
    // success: each layout parses on its own.
    assert!(creation_time_to_exif_time("Mon, 06 Jan 2025 01:02:03 +00:00").is_ok());
    assert!(creation_time_to_exif_time("2025-01-06T01:02:03+00:00").is_ok());
}
