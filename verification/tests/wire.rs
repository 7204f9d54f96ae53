//! Reader and Writer behaviour beyond the basic scenarios: errors, positions,
//! surrogate pairs, and reading back what was written.

use chdkptp::ptp::codec::{Reader, Writer};
use chdkptp::Error;

fn codec_msg(e: Error) -> String {
    match e {
        Error::Codec(m) => m,
        other => panic!("expected a codec error, got {:?}", other),
    }
}

#[test]
fn short_reads_report_need_and_have_and_keep_position() {
    let bytes = [1u8, 2, 3];
    let mut r = Reader::new(&bytes);
    assert_eq!(codec_msg(r.read_u32().unwrap_err()), "short read: need 4, have 3");
    assert_eq!(r.remaining(), 3);
    assert_eq!(r.read_u16().unwrap(), 0x0201);
    assert_eq!(codec_msg(r.read_u16().unwrap_err()), "short read: need 2, have 1");
    assert_eq!(r.read_u8().unwrap(), 3);
    assert_eq!(codec_msg(r.read_u8().unwrap_err()), "short read: need 1, have 0");
    assert_eq!(r.remaining(), 0);
}

#[test]
fn read_string_decodes_surrogate_pairs() {
    // U+1F600 is D83D DE00 in UTF-16; then 'a', then NUL.
    let bytes = [4, 0x3D, 0xD8, 0x00, 0xDE, 0x61, 0x00, 0x00, 0x00, 0xAA];
    let mut r = Reader::new(&bytes);
    assert_eq!(r.read_string().unwrap(), "\u{1F600}a");
    assert_eq!(r.remaining(), 1);
}

#[test]
fn read_string_rejects_lone_surrogate_after_consuming_it() {
    let bytes = [2, 0x00, 0xDC, 0x00, 0x00, 0x07];
    let mut r = Reader::new(&bytes);
    let msg = codec_msg(r.read_string().unwrap_err());
    assert!(msg.starts_with("bad UTF-16 in PTP string: "));
    assert_eq!(r.remaining(), 1);
    assert_eq!(r.read_u8().unwrap(), 7);
}

#[test]
fn read_string_short_body_consumes_only_the_count() {
    let bytes = [3, 0x48, 0x00, 0x69];
    let mut r = Reader::new(&bytes);
    assert_eq!(codec_msg(r.read_string().unwrap_err()), "short read: need 6, have 3");
    assert_eq!(r.remaining(), 3);
}

#[test]
fn read_u16_array_short_stops_after_whole_elements() {
    let bytes = [3, 0, 0, 0, 0x01, 0x10, 0x02];
    let mut r = Reader::new(&bytes);
    assert_eq!(codec_msg(r.read_u16_array().unwrap_err()), "short read: need 2, have 1");
    assert_eq!(r.remaining(), 1);
}

#[test]
fn read_u16_array_empty() {
    let bytes = [0, 0, 0, 0];
    let mut r = Reader::new(&bytes);
    assert!(r.read_u16_array().unwrap().is_empty());
    assert_eq!(r.remaining(), 0);
}

#[test]
fn writer_is_little_endian_and_reads_back() {
    let mut w = Writer::new();
    w.write_u16(0xBEEF);
    w.write_u32(0xDEAD_BEEF);
    w.write_bytes(&[9, 8]);
    let bytes = w.into_bytes();
    assert_eq!(bytes, vec![0xEF, 0xBE, 0xEF, 0xBE, 0xAD, 0xDE, 9, 8]);
    let mut r = Reader::new(&bytes);
    assert_eq!(r.read_u16().unwrap(), 0xBEEF);
    assert_eq!(r.read_u32().unwrap(), 0xDEAD_BEEF);
    assert_eq!(r.remaining(), 2);
}

#[test]
fn writer_default_is_empty() {
    let w = Writer::default();
    assert!(w.into_bytes().is_empty());
}

#[test]
fn remaining_tracks_every_read_in_a_sequence() {
    let mut w = Writer::new();
    w.write_u16(7);
    w.write_u32(8);
    w.write_bytes(&[2, 0x41, 0x00, 0x00, 0x00]);
    w.write_u32(1);
    w.write_u16(0x9999);
    let bytes = w.into_bytes();
    assert_eq!(bytes.len(), 2 + 4 + 5 + 4 + 2);
    let mut r = Reader::new(&bytes);
    assert_eq!(r.remaining(), bytes.len());
    assert_eq!(r.read_u16().unwrap(), 7);
    assert_eq!(r.remaining(), bytes.len() - 2);
    assert_eq!(r.read_u32().unwrap(), 8);
    assert_eq!(r.remaining(), bytes.len() - 6);
    assert_eq!(r.read_string().unwrap(), "A");
    assert_eq!(r.remaining(), bytes.len() - 11);
    assert_eq!(r.read_u16_array().unwrap(), vec![0x9999]);
    assert_eq!(r.remaining(), 0);
}
