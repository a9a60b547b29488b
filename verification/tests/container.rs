use director::chunk::imap::read_imap;
use director::chunk::key::{Key, KeyTable};
use director::chunk::rifx::{read_rifx, Endianness};
use director::chunk::FourCC;
use director::endian::{BigEndian, Endian, LittleEndian, Reader};
use director::error::Error;
use director::DirectorFile;

fn push_u32_be(v: &mut Vec<u8>, x: u32) {
    v.extend_from_slice(&[(x >> 24) as u8, (x >> 16) as u8, (x >> 8) as u8, x as u8]);
}

fn push_u16_be(v: &mut Vec<u8>, x: u16) {
    v.extend_from_slice(&[(x >> 8) as u8, x as u8]);
}

/// A minimal big-endian base container: header, imap at 12, mmap at 0x20
/// with four rows, KEY* at 136 with two valid edges. 180 bytes in all.
fn build_base_file() -> Vec<u8> {
    let mut v = Vec::new();
    v.extend_from_slice(b"RIFX");
    push_u32_be(&mut v, 172);
    v.extend_from_slice(b"MV93");
    // imap at 12, 16 bytes; then padding up to the mmap offset
    v.extend_from_slice(b"imap");
    push_u32_be(&mut v, 8);
    push_u32_be(&mut v, 1);
    push_u32_be(&mut v, 0x20);
    push_u32_be(&mut v, 0);
    // mmap at 32
    v.extend_from_slice(b"mmap");
    push_u32_be(&mut v, 104);
    push_u16_be(&mut v, 0);
    push_u16_be(&mut v, 0);
    push_u32_be(&mut v, 4); // capacity
    push_u32_be(&mut v, 4); // used
    push_u32_be(&mut v, 0);
    push_u32_be(&mut v, 0);
    push_u32_be(&mut v, 0);
    let rows: [(&[u8; 4], u32, u32); 4] = [
        (b"RIFX", 0, 0),
        (b"imap", 16, 12),
        (b"mmap", 104, 32),
        (b"KEY*", 44, 136),
    ];
    for (tag, size, offset) in rows.iter() {
        v.extend_from_slice(*tag);
        push_u32_be(&mut v, *size);
        push_u32_be(&mut v, *offset);
        push_u16_be(&mut v, 0);
        push_u16_be(&mut v, 0);
        push_u16_be(&mut v, 0);
    }
    assert_eq!(v.len(), 136);
    // KEY* at 136
    v.extend_from_slice(b"KEY*");
    push_u32_be(&mut v, 36);
    push_u16_be(&mut v, 0);
    push_u16_be(&mut v, 0);
    push_u32_be(&mut v, 2); // capacity
    push_u32_be(&mut v, 2); // used
    push_u32_be(&mut v, 1); // owned
    push_u32_be(&mut v, 0x400); // owner
    v.extend_from_slice(b"imap");
    push_u32_be(&mut v, 2);
    push_u32_be(&mut v, 5);
    v.extend_from_slice(b"mmap");
    assert_eq!(v.len(), 180);
    v
}

#[test]
fn header_dispatch_big() {
    let bytes = vec![
        0x52, 0x49, 0x46, 0x58, 0x00, 0x00, 0x10, 0x00, 0x4d, 0x56, 0x39, 0x33,
    ];
    let mut r = Reader::new(bytes);
    let h = read_rifx(&mut r).unwrap();
    assert_eq!(h.endian, Endianness::Big);
    assert_eq!(h.size, 4096);
    assert_eq!(h.codec, FourCC::new(0x4d, 0x56, 0x39, 0x33));
}

#[test]
fn header_dispatch_little() {
    let bytes = vec![
        0x58, 0x46, 0x49, 0x52, 0x00, 0x10, 0x00, 0x00, 0x33, 0x39, 0x56, 0x4d,
    ];
    let mut r = Reader::new(bytes);
    let h = read_rifx(&mut r).unwrap();
    assert_eq!(h.endian, Endianness::Little);
    assert_eq!(h.size, 4096);
    assert_eq!(h.codec, FourCC::new(0x4d, 0x56, 0x39, 0x33));
}

#[test]
fn header_malformed() {
    let bytes = vec![0x41, 0x42, 0x43, 0x44, 0, 0, 0, 0, 0, 0, 0, 0];
    let mut r = Reader::new(bytes);
    assert_eq!(read_rifx(&mut r).unwrap_err(), Error::MalformedHeader);
}

#[test]
fn header_truncated_is_io() {
    let mut r = Reader::new(vec![0x52, 0x49]);
    assert_eq!(read_rifx(&mut r).unwrap_err(), Error::Io);
}

#[test]
fn imap_reports_mmap_offset() {
    let file = build_base_file();
    let mut r = Reader::new(file);
    r.seek(12);
    let im = read_imap::<BigEndian>(&mut r).unwrap();
    assert_eq!(im.mmap_offset, 0x20);
}

#[test]
fn imap_tag_mismatch() {
    let mut bytes = b"imaq".to_vec();
    bytes.extend_from_slice(&[0; 12]);
    let mut r = Reader::new(bytes);
    let e = read_imap::<BigEndian>(&mut r).unwrap_err();
    assert_eq!(
        e,
        Error::MalformedChunk(
            FourCC::new(0x69, 0x6d, 0x61, 0x70),
            FourCC::new(0x69, 0x6d, 0x61, 0x71)
        )
    );
}

#[test]
fn base_parse_follows_imap_hop() {
    // The mmap read must start at the absolute offset the imap names.
    let file = build_base_file();
    let mut r = Reader::new(file);
    let df = DirectorFile::parse_base(&mut r).unwrap();
    assert_eq!(df.imap.mmap_offset, 0x20);
    assert_eq!(df.mmap.entries.len(), 4);
    assert_eq!(df.mmap.entries[3].chunk, FourCC::new(0x4b, 0x45, 0x59, 0x2a));
    assert_eq!(df.mmap.entries[3].offset, 136);
    assert_eq!(df.key.keys.len(), 2);
    assert_eq!(df.key.keys[0].owned, 1);
    assert_eq!(df.key.keys[0].owner, 0x400);
}

#[test]
fn base_parse_is_deterministic() {
    let file = build_base_file();
    let df1 = DirectorFile::parse_base(&mut Reader::new(file.clone())).unwrap();
    let df2 = DirectorFile::parse_base(&mut Reader::new(file)).unwrap();
    assert_eq!(df1.header.endian, df2.header.endian);
    assert_eq!(df1.header.size, df2.header.size);
    assert_eq!(df1.header.codec, df2.header.codec);
    assert_eq!(df1.imap.mmap_offset, df2.imap.mmap_offset);
    assert_eq!(df1.mmap.entries, df2.mmap.entries);
    assert_eq!(df1.key.keys, df2.key.keys);
}

#[test]
fn base_parse_rejects_row_past_end() {
    let mut file = build_base_file();
    // grow the size of mmap row 0 so that offset + size passes the end
    let row0 = 64;
    file[row0 + 4] = 0xff;
    let e = DirectorFile::parse_base(&mut Reader::new(file)).unwrap_err();
    assert_eq!(e, Error::InvalidOffset);
}

#[test]
fn base_parse_rejects_key_out_of_range() {
    let mut file = build_base_file();
    // first key's owned id becomes 9, past the four rows
    file[159] = 9;
    let e = DirectorFile::parse_base(&mut Reader::new(file)).unwrap_err();
    assert_eq!(e, Error::InvalidOffset);
}

#[test]
fn base_parse_rejects_key_tag_mismatch() {
    let mut file = build_base_file();
    // first key says row 1 is an mmap; the row itself says imap
    file[164..168].copy_from_slice(b"mmap");
    let e = DirectorFile::parse_base(&mut Reader::new(file)).unwrap_err();
    assert_eq!(
        e,
        Error::MalformedChunk(
            FourCC::new(0x6d, 0x6d, 0x61, 0x70),
            FourCC::new(0x69, 0x6d, 0x61, 0x70)
        )
    );
}

#[test]
fn base_parse_rejects_short_mmap() {
    let mut file = build_base_file();
    // used count of 2 leaves no row 3 to find the key table in
    file[51] = 2;
    let e = DirectorFile::parse_base(&mut Reader::new(file)).unwrap_err();
    assert_eq!(e, Error::InvalidOffset);
}

#[test]
fn key_lookup_semantics() {
    let table = KeyTable {
        keys: vec![
            Key {
                owned: 9,
                owner: 0x400,
                chunk: FourCC::new(0x4d, 0x43, 0x73, 0x4c),
            },
            Key {
                owned: 7,
                owner: 0x400,
                chunk: FourCC::new(0x43, 0x41, 0x53, 0x2a),
            },
            Key {
                owned: 12,
                owner: 5,
                chunk: FourCC::new(0x42, 0x49, 0x54, 0x44),
            },
        ],
    };
    assert_eq!(
        table.lookup(0x400, FourCC::new(0x4d, 0x43, 0x73, 0x4c)),
        Some(9)
    );
    assert_eq!(table.lookup(5, FourCC::new(0x42, 0x49, 0x54, 0x44)), Some(12));
    assert_eq!(
        table.lookup(0x400, FourCC::new(0x58, 0x58, 0x58, 0x58)),
        None
    );
}

#[test]
fn key_lookup_takes_first_match() {
    let tag = FourCC::new(0x42, 0x49, 0x54, 0x44);
    let table = KeyTable {
        keys: vec![
            Key {
                owned: 3,
                owner: 7,
                chunk: tag,
            },
            Key {
                owned: 8,
                owner: 7,
                chunk: tag,
            },
        ],
    };
    assert_eq!(table.lookup(7, tag), Some(3));
}

#[test]
fn endian_u32_round_trip() {
    let v: u32 = 0xdeadbeef;
    let be = vec![0xde, 0xad, 0xbe, 0xef];
    let le = vec![0xef, 0xbe, 0xad, 0xde];
    let mut rb = Reader::new(be);
    assert_eq!(rb.read_u32::<BigEndian>().unwrap(), v);
    let mut rl = Reader::new(le);
    assert_eq!(rl.read_u32::<LittleEndian>().unwrap(), v);
}

#[test]
fn endian_u16_and_bytes() {
    let mut r = Reader::new(vec![0x12, 0x34, 0x41, 0x42, 0x43, 0x44]);
    assert_eq!(r.read_u16::<LittleEndian>().unwrap(), 0x3412);
    let tag = r.read_bytes::<LittleEndian>(4).unwrap();
    assert_eq!(tag, vec![0x44, 0x43, 0x42, 0x41]);
    assert_eq!(r.read_u8().unwrap_err(), Error::Io);
}
