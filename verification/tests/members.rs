use director::chunk::cas::read_cas;
use director::chunk::cast::{read_cast, CastKind};
use director::chunk::mcsl::read_mcsl;
use director::chunk::FourCC;
use director::endian::{BigEndian, Reader};
use director::error::Error;
use director::text::check_utf8;

fn put_u32_be(v: &mut Vec<u8>, x: u32) {
    v.extend_from_slice(&[(x >> 24) as u8, (x >> 16) as u8, (x >> 8) as u8, x as u8]);
}

fn put_u16_be(v: &mut Vec<u8>, x: u16) {
    v.extend_from_slice(&[(x >> 8) as u8, x as u8]);
}

fn mcsl_preamble(count: u32) -> Vec<u8> {
    let mut v = Vec::new();
    v.extend_from_slice(b"MCsL");
    put_u32_be(&mut v, 0); // chunk size, unused
    put_u32_be(&mut v, 0); // filler
    put_u32_be(&mut v, count);
    put_u16_be(&mut v, 0); // filler
    put_u32_be(&mut v, 0); // x = 0 extra filler words
    put_u32_be(&mut v, 0); // trailing filler
    v
}

#[test]
fn mcsl_entry_with_empty_path() {
    let mut v = mcsl_preamble(1);
    v.push(8);
    v.extend_from_slice(b"Internal");
    v.push(0); // filler after the name
    v.push(0); // empty path: length byte
    v.push(0); // filler after the path; no extra byte for an empty path
    v.push(0); // min
    v.push(0); // max
    put_u16_be(&mut v, 0); // member_count
    put_u32_be(&mut v, 0x401); // id
    let mut r = Reader::new(v);
    let m = read_mcsl::<BigEndian>(&mut r).unwrap();
    assert_eq!(m.entries.len(), 1);
    let c = &m.entries[0];
    assert_eq!(c.name, b"Internal".to_vec());
    assert_eq!(c.path, Vec::<u8>::new());
    assert_eq!(c.min, 0);
    assert_eq!(c.max, 0);
    assert_eq!(c.member_count, 0);
    assert_eq!(c.id, 0x401);
    assert!(c.is_internal());
}

#[test]
fn mcsl_entry_with_path_takes_extra_filler() {
    let mut v = mcsl_preamble(1);
    v.push(2);
    v.extend_from_slice(b"Hi");
    v.push(0); // filler after the name
    v.push(2);
    v.extend_from_slice(b"ab");
    v.push(0); // filler after the path
    v.push(0); // one more filler, because the path is non-empty
    v.push(1); // min
    v.push(2); // max
    put_u16_be(&mut v, 3); // member_count
    put_u32_be(&mut v, 4); // id
    let mut r = Reader::new(v);
    let m = read_mcsl::<BigEndian>(&mut r).unwrap();
    let c = &m.entries[0];
    assert_eq!(c.name, b"Hi".to_vec());
    assert_eq!(c.path, b"ab".to_vec());
    assert_eq!(c.min, 1);
    assert_eq!(c.max, 2);
    assert_eq!(c.member_count, 3);
    assert_eq!(c.id, 4);
    assert!(!c.is_internal());
}

#[test]
fn mcsl_rejects_bad_utf8_name() {
    let mut v = mcsl_preamble(1);
    v.push(2);
    v.extend_from_slice(&[0xc0, 0x80]); // overlong NUL is not UTF-8
    v.push(0);
    v.push(0);
    v.push(0);
    v.extend_from_slice(&[0, 0, 0, 0, 0, 0, 0, 0]);
    let mut r = Reader::new(v);
    assert_eq!(read_mcsl::<BigEndian>(&mut r).unwrap_err(), Error::InvalidUtf8);
}

#[test]
fn mcsl_truncated_entry_is_io() {
    let mut v = mcsl_preamble(1);
    v.push(8);
    v.extend_from_slice(b"Inter"); // name cut short
    let mut r = Reader::new(v);
    assert_eq!(read_mcsl::<BigEndian>(&mut r).unwrap_err(), Error::Io);
}

fn cast_preamble(kind: u32, offsets: &[u32]) -> Vec<u8> {
    let mut v = Vec::new();
    v.extend_from_slice(b"CASt");
    put_u32_be(&mut v, 0); // chunk size, unused
    put_u32_be(&mut v, kind);
    put_u32_be(&mut v, 0); // general-block size
    put_u32_be(&mut v, 0); // specific-block size
    for _ in 0..5 {
        put_u32_be(&mut v, 0);
    }
    put_u16_be(&mut v, (offsets.len() - 1) as u16);
    for o in offsets.iter() {
        put_u32_be(&mut v, *o);
    }
    v
}

fn bitmap_block(top: u16, left: u16, bottom: u16, right: u16, depth: u8) -> Vec<u8> {
    let mut v = Vec::new();
    put_u16_be(&mut v, 0);
    put_u16_be(&mut v, top);
    put_u16_be(&mut v, left);
    put_u16_be(&mut v, bottom);
    put_u16_be(&mut v, right);
    put_u32_be(&mut v, 0);
    put_u32_be(&mut v, 0);
    put_u16_be(&mut v, 0); // registration point x
    put_u16_be(&mut v, 0); // registration point y
    v.push(0);
    v.push(depth);
    put_u16_be(&mut v, 0xffff); // observed constant
    put_u16_be(&mut v, 0xff9b); // observed constant
    v
}

#[test]
fn cast_bitmap_geometry() {
    let mut v = cast_preamble(1, &[0]);
    v.extend_from_slice(&bitmap_block(0, 0, 10, 20, 32));
    let mut r = Reader::new(v);
    let c = read_cast::<BigEndian>(&mut r).unwrap();
    assert_eq!(c.kind, CastKind::Bitmap);
    assert_eq!(c.properties.bitmap_width, Some(20));
    assert_eq!(c.properties.bitmap_height, Some(10));
    assert_eq!(c.properties.bitmap_depth, Some(32));
    assert_eq!(c.properties.name, None);
}

#[test]
fn cast_name_property() {
    // two properties: index 0 empty, index 1 the name "Hello"
    let mut v = cast_preamble(11, &[0, 0, 6]);
    v.push(5);
    v.extend_from_slice(b"Hello");
    let mut r = Reader::new(v);
    let c = read_cast::<BigEndian>(&mut r).unwrap();
    assert_eq!(c.kind, CastKind::Script);
    assert_eq!(c.properties.name, Some(b"Hello".to_vec()));
    assert_eq!(c.properties.xtra_name, None);
    assert_eq!(c.properties.bitmap_width, None);
}

#[test]
fn cast_name_length_clamped_to_blob() {
    // the length byte claims 200 bytes; the blob leaves room for 4
    let mut v = cast_preamble(11, &[0, 0, 5]);
    v.push(200);
    v.extend_from_slice(b"Clip");
    let mut r = Reader::new(v);
    let c = read_cast::<BigEndian>(&mut r).unwrap();
    assert_eq!(c.properties.name, Some(b"Clip".to_vec()));
}

#[test]
fn cast_xtra_name_keeps_trailing_nul() {
    // eleven properties so that index 10 is reached; all empty except the
    // xtra name, whose trailing NUL byte is kept
    let mut v = cast_preamble(15, &[0, 0, 0, 0, 0, 0, 0, 0, 0, 0, 0, 4]);
    v.extend_from_slice(b"Xtr\0");
    let mut r = Reader::new(v);
    let c = read_cast::<BigEndian>(&mut r).unwrap();
    assert_eq!(c.kind, CastKind::Xtra);
    assert_eq!(c.properties.xtra_name, Some(b"Xtr\0".to_vec()));
    assert_eq!(c.properties.name, None);
}

#[test]
fn cast_unknown_kind() {
    let v = cast_preamble(99, &[0]);
    let mut r = Reader::new(v);
    assert_eq!(
        read_cast::<BigEndian>(&mut r).unwrap_err(),
        Error::UnknownCastKind(99)
    );
}

#[test]
fn cast_rejects_decreasing_offsets() {
    let v = cast_preamble(11, &[4, 2]);
    let mut r = Reader::new(v);
    let tag = FourCC::new(0x43, 0x41, 0x53, 0x74);
    assert_eq!(
        read_cast::<BigEndian>(&mut r).unwrap_err(),
        Error::MalformedChunk(tag, tag)
    );
}

#[test]
fn cast_rejects_bad_utf8_name() {
    let mut v = cast_preamble(11, &[0, 0, 4]);
    v.push(3);
    v.extend_from_slice(&[0xed, 0xa0, 0x80]); // a surrogate is not UTF-8
    let mut r = Reader::new(v);
    assert_eq!(read_cast::<BigEndian>(&mut r).unwrap_err(), Error::InvalidUtf8);
}

#[test]
fn cas_table_members() {
    let mut v = Vec::new();
    v.extend_from_slice(b"CAS*");
    put_u32_be(&mut v, 12);
    put_u32_be(&mut v, 7);
    put_u32_be(&mut v, 0);
    put_u32_be(&mut v, 9);
    let mut r = Reader::new(v);
    let t = read_cas::<BigEndian>(&mut r).unwrap();
    assert_eq!(t.members, vec![7, 0, 9]);
}

#[test]
fn utf8_checker_accepts_and_rejects() {
    assert!(check_utf8(&b"plain ascii".to_vec()));
    // U+00E9, U+4E16, U+1F600
    let good = vec![0xc3, 0xa9, 0xe4, 0xb8, 0x96, 0xf0, 0x9f, 0x98, 0x80];
    assert!(check_utf8(&good));
    assert!(!check_utf8(&vec![0xc0, 0x80])); // overlong
    assert!(!check_utf8(&vec![0xed, 0xa0, 0x80])); // surrogate
    assert!(!check_utf8(&vec![0xf4, 0x90, 0x80, 0x80])); // above U+10FFFF
    assert!(!check_utf8(&vec![0x80])); // bare continuation
    assert!(!check_utf8(&vec![0xe2, 0x82])); // cut short
}
