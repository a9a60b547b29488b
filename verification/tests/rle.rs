use director::bitmap::expand_rle;
use director::chunk::bitd::BitmapData;
use director::chunk::cast::{CastKind, CastProperties, PropertyMap};
use director::endian::{BigEndian, Reader};
use director::error::Error;
use director::{parse_bitmap_data, read_cast_file, read_cast_list, DirectorFile};

fn w32(v: &mut Vec<u8>, x: u32) {
    v.extend_from_slice(&[(x >> 24) as u8, (x >> 16) as u8, (x >> 8) as u8, x as u8]);
}

fn w16(v: &mut Vec<u8>, x: u16) {
    v.extend_from_slice(&[(x >> 8) as u8, x as u8]);
}

fn bare_properties(w: u16, h: u16, d: u8) -> CastProperties {
    CastProperties {
        kind: CastKind::Bitmap,
        properties: PropertyMap {
            name: None,
            xtra_name: None,
            bitmap_width: Some(w),
            bitmap_height: Some(h),
            bitmap_depth: Some(d),
        },
    }
}

#[test]
fn rle_expansion_mixed_opcodes() {
    // width 2, height 1: one row of four planes, eight cells in all. The
    // two repeat runs, the literal run and the final run that crosses the
    // end of the matrix land as the per-byte position advance dictates;
    // everything after the eighth decoded byte is discarded.
    let payload = vec![0xff, 0xaa, 0x01, 0x11, 0x22, 0xfe, 0xbb, 0xfd, 0xcc, 0xdd, 0xee];
    let m = expand_rle(2, 1, &payload, false).unwrap();
    assert_eq!(m.len(), 1);
    assert_eq!(m[0].len(), 2);
    assert_eq!(m[0][0], [0xaa, 0x11, 0xbb, 0xbb]);
    assert_eq!(m[0][1], [0xaa, 0x22, 0xbb, 0xcc]);
}

#[test]
fn rle_short_stream_keeps_initial_pixels() {
    // a single literal byte; the other seven cells keep (0, 0, 0, 255)
    let payload = vec![0x00, 0xaa];
    let m = expand_rle(2, 1, &payload, false).unwrap();
    assert_eq!(m[0][0], [0xaa, 0x00, 0x00, 0xff]);
    assert_eq!(m[0][1], [0x00, 0x00, 0x00, 0xff]);
}

#[test]
fn rle_strict_mode_rejects_short_stream() {
    let payload = vec![0x00, 0xaa];
    assert_eq!(
        expand_rle(2, 1, &payload, true).unwrap_err(),
        Error::TruncatedBitmap
    );
}

#[test]
fn rle_strict_mode_accepts_exact_stream() {
    // literal run of exactly eight bytes
    let payload = vec![0x07, 1, 2, 3, 4, 5, 6, 7, 8];
    let m = expand_rle(2, 1, &payload, true).unwrap();
    assert_eq!(m[0][0], [1, 3, 5, 7]);
    assert_eq!(m[0][1], [2, 4, 6, 8]);
}

#[test]
fn rle_literal_encoding_decodes_to_itself() {
    // the plainest documented encoding: a literal run; expanding it must
    // reproduce the bytes, plane-major within the row
    let cells: Vec<u8> = (1..=12).collect();
    let mut payload = vec![(cells.len() - 1) as u8];
    payload.extend_from_slice(&cells);
    let m = expand_rle(3, 1, &payload, true).unwrap();
    for x in 0..3 {
        for c in 0..4 {
            assert_eq!(m[0][x][c], cells[c * 3 + x]);
        }
    }
}

#[test]
fn rle_repeat_run_crosses_rows() {
    // a run of 16 zeros fills rows 0 and 1 of a 2x2 matrix completely
    let payload = vec![0xf1, 0x5a];
    let m = expand_rle(2, 2, &payload, true).unwrap();
    for y in 0..2 {
        for x in 0..2 {
            assert_eq!(m[y][x], [0x5a, 0x5a, 0x5a, 0x5a]);
        }
    }
}

#[test]
fn rle_zero_width_matrix() {
    let payload = vec![0xff, 0xaa];
    let m = expand_rle(0, 3, &payload, false).unwrap();
    assert_eq!(m.len(), 3);
    assert_eq!(m[0].len(), 0);
}

#[test]
fn bitmap_data_requires_depth_32() {
    let props = bare_properties(2, 1, 8);
    let data = BitmapData { data: vec![0x00, 0xaa] };
    assert_eq!(
        parse_bitmap_data(&props, data).unwrap_err(),
        Error::UnsupportedBitmapDepth(8)
    );
}

#[test]
fn bitmap_data_expands_tolerantly() {
    let props = bare_properties(2, 1, 32);
    let data = BitmapData {
        data: vec![0xff, 0xaa, 0x01, 0x11, 0x22, 0xfe, 0xbb, 0xfd, 0xcc, 0xdd, 0xee],
    };
    let m = parse_bitmap_data(&props, data).unwrap();
    assert_eq!(m[0][0], [0xaa, 0x11, 0xbb, 0xbb]);
    assert_eq!(m[0][1], [0xaa, 0x22, 0xbb, 0xcc]);
}

/// A complete external cast container with one bitmap member.
fn build_cast_container() -> Vec<u8> {
    let mut v = Vec::new();
    v.extend_from_slice(b"RIFX");
    w32(&mut v, 331);
    v.extend_from_slice(b"MV93");
    // imap at 12, 16 bytes; then padding up to the mmap offset
    v.extend_from_slice(b"imap");
    w32(&mut v, 8);
    w32(&mut v, 1);
    w32(&mut v, 0x20);
    w32(&mut v, 0);
    // mmap at 32, 7 rows, rows begin at 64
    v.extend_from_slice(b"mmap");
    w32(&mut v, 158);
    w16(&mut v, 0);
    w16(&mut v, 0);
    w32(&mut v, 7);
    w32(&mut v, 7);
    w32(&mut v, 0);
    w32(&mut v, 0);
    w32(&mut v, 0);
    let rows: [(&[u8; 4], u32, u32); 7] = [
        (b"RIFX", 0, 0),
        (b"imap", 16, 12),
        (b"mmap", 158, 32),
        (b"KEY*", 44, 190),
        (b"CAS*", 12, 234),
        (b"CASt", 74, 246),
        (b"BITD", 19, 320),
    ];
    for (tag, size, offset) in rows.iter() {
        v.extend_from_slice(*tag);
        w32(&mut v, *size);
        w32(&mut v, *offset);
        w16(&mut v, 0);
        w16(&mut v, 0);
        w16(&mut v, 0);
    }
    assert_eq!(v.len(), 190);
    // KEY* at 190: the cast root owns the CAS*; member 5 owns the BITD
    v.extend_from_slice(b"KEY*");
    w32(&mut v, 36);
    w16(&mut v, 0);
    w16(&mut v, 0);
    w32(&mut v, 2);
    w32(&mut v, 2);
    w32(&mut v, 4);
    w32(&mut v, 0x400);
    v.extend_from_slice(b"CAS*");
    w32(&mut v, 6);
    w32(&mut v, 5);
    v.extend_from_slice(b"BITD");
    assert_eq!(v.len(), 234);
    // CAS* at 234: one member, resource id 5
    v.extend_from_slice(b"CAS*");
    w32(&mut v, 4);
    w32(&mut v, 5);
    assert_eq!(v.len(), 246);
    // CASt at 246: a 2 x 1 bitmap of depth 32, no named properties
    v.extend_from_slice(b"CASt");
    w32(&mut v, 66);
    w32(&mut v, 1);
    w32(&mut v, 0);
    w32(&mut v, 0);
    for _ in 0..5 {
        w32(&mut v, 0);
    }
    w16(&mut v, 0);
    w32(&mut v, 0);
    w16(&mut v, 0);
    w16(&mut v, 0); // top
    w16(&mut v, 0); // left
    w16(&mut v, 1); // bottom
    w16(&mut v, 2); // right
    w32(&mut v, 0);
    w32(&mut v, 0);
    w16(&mut v, 0);
    w16(&mut v, 0);
    v.push(0);
    v.push(32); // bit depth
    w16(&mut v, 0xffff);
    w16(&mut v, 0xff9b);
    assert_eq!(v.len(), 320);
    // BITD at 320
    v.extend_from_slice(b"BITD");
    w32(&mut v, 11);
    v.extend_from_slice(&[0xff, 0xaa, 0x01, 0x11, 0x22, 0xfe, 0xbb, 0xfd, 0xcc, 0xdd, 0xee]);
    assert_eq!(v.len(), 339);
    v
}

#[test]
fn cast_file_decodes_bitmap_member() {
    let mut r = Reader::new(build_cast_container());
    let (df, table, members) = read_cast_file::<BigEndian>(&mut r).unwrap();
    assert_eq!(df.mmap.entries.len(), 7);
    assert_eq!(table.members, vec![5]);
    assert_eq!(members.len(), 1);
    assert_eq!(members[0].id, 5);
    assert_eq!(members[0].properties.kind, CastKind::Bitmap);
    assert_eq!(members[0].properties.properties.bitmap_width, Some(2));
    assert_eq!(members[0].properties.properties.bitmap_height, Some(1));
    assert_eq!(members[0].bitmap.len(), 1);
    assert_eq!(members[0].bitmap[0][0], [0xaa, 0x11, 0xbb, 0xbb]);
    assert_eq!(members[0].bitmap[0][1], [0xaa, 0x22, 0xbb, 0xcc]);
}

#[test]
fn cast_file_skips_non_bitmap_member() {
    let mut file = build_cast_container();
    // the member's kind becomes Script; the walk keeps the table but
    // decodes no member
    file[257] = 11;
    let mut r = Reader::new(file);
    let (_df, table, members) = read_cast_file::<BigEndian>(&mut r).unwrap();
    assert_eq!(table.members, vec![5]);
    assert_eq!(members.len(), 0);
}

#[test]
fn cast_file_skips_unsupported_depth() {
    let mut file = build_cast_container();
    file[315] = 8; // bit depth
    let mut r = Reader::new(file);
    let (_df, _table, members) = read_cast_file::<BigEndian>(&mut r).unwrap();
    assert_eq!(members.len(), 0);
}

/// A movie container whose cast list holds the single entry "Internal".
fn build_movie_container() -> Vec<u8> {
    let mut v = Vec::new();
    v.extend_from_slice(b"RIFX");
    w32(&mut v, 236);
    v.extend_from_slice(b"MV93");
    v.extend_from_slice(b"imap");
    w32(&mut v, 8);
    w32(&mut v, 1);
    w32(&mut v, 0x20);
    w32(&mut v, 0);
    // mmap at 32, 5 rows, rows begin at 64
    v.extend_from_slice(b"mmap");
    w32(&mut v, 122);
    w16(&mut v, 0);
    w16(&mut v, 0);
    w32(&mut v, 5);
    w32(&mut v, 5);
    w32(&mut v, 0);
    w32(&mut v, 0);
    w32(&mut v, 0);
    let rows: [(&[u8; 4], u32, u32); 5] = [
        (b"RIFX", 0, 0),
        (b"imap", 16, 12),
        (b"mmap", 122, 32),
        (b"KEY*", 44, 154),
        (b"MCsL", 46, 198),
    ];
    for (tag, size, offset) in rows.iter() {
        v.extend_from_slice(*tag);
        w32(&mut v, *size);
        w32(&mut v, *offset);
        w16(&mut v, 0);
        w16(&mut v, 0);
        w16(&mut v, 0);
    }
    assert_eq!(v.len(), 154);
    // KEY* at 154: the movie root owns the MCsL
    v.extend_from_slice(b"KEY*");
    w32(&mut v, 36);
    w16(&mut v, 0);
    w16(&mut v, 0);
    w32(&mut v, 2);
    w32(&mut v, 2);
    w32(&mut v, 4);
    w32(&mut v, 0x400);
    v.extend_from_slice(b"MCsL");
    w32(&mut v, 1);
    w32(&mut v, 0);
    v.extend_from_slice(b"imap");
    assert_eq!(v.len(), 198);
    // MCsL at 198
    v.extend_from_slice(b"MCsL");
    w32(&mut v, 38);
    w32(&mut v, 0);
    w32(&mut v, 1); // one entry
    w16(&mut v, 0);
    w32(&mut v, 0); // no extra filler words
    w32(&mut v, 0);
    v.push(8);
    v.extend_from_slice(b"Internal");
    v.push(0);
    v.push(0); // empty path
    v.push(0);
    v.push(0);
    v.push(0);
    w16(&mut v, 0);
    w32(&mut v, 0x401);
    assert_eq!(v.len(), 244);
    v
}

#[test]
fn movie_resolves_cast_list() {
    let file = build_movie_container();
    let mut r = Reader::new(file);
    let df = DirectorFile::parse_base(&mut r).unwrap();
    let list = read_cast_list(&df, &mut r).unwrap().unwrap();
    assert_eq!(list.entries.len(), 1);
    assert_eq!(list.entries[0].name, b"Internal".to_vec());
    assert_eq!(list.entries[0].id, 0x401);
    assert!(list.entries[0].is_internal());
}

#[test]
fn base_file_has_no_cast_list() {
    // a container whose key table holds no MCsL edge is a plain base file
    let mut file = build_movie_container();
    // rename the MCsL edge and its row so the lookup finds nothing
    file[182..186].copy_from_slice(b"XtrL");
    file[136..140].copy_from_slice(b"XtrL");
    file[198..202].copy_from_slice(b"XtrL");
    let mut r = Reader::new(file);
    let df = DirectorFile::parse_base(&mut r).unwrap();
    assert!(read_cast_list(&df, &mut r).unwrap().is_none());
}
