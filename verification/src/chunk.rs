use vstd::prelude::*;

use crate::chunk::bitd::BitmapData;
use crate::chunk::cas::CastTable;
use crate::chunk::cast::CastProperties;
use crate::chunk::imap::InitialMap;
use crate::chunk::key::KeyTable;
use crate::chunk::mcsl::MovieCastList;
use crate::chunk::mmap::MemoryMap;
use crate::chunk::rifx::Header;
use crate::endian::Endian;
use crate::endian::Endianness;
use crate::endian::Reader;
use crate::error::Error;

pub mod bitd;
pub mod cas;
pub mod cast;
pub mod imap;
pub mod mcsl;
pub mod key;
pub mod mmap;
pub mod rifx;

verus! {

/// Any one parsed chunk, tagged by kind.
pub enum Chunk {
    Header(Header),
    InitialMap(InitialMap),
    MemoryMap(MemoryMap),
    KeyTable(KeyTable),
    MovieCastList(MovieCastList),
    CastTable(CastTable),
    CastProperties(CastProperties),
    BitmapData(BitmapData),
}

/// A four-byte ASCII tag naming a chunk kind, in logical (reading) order.
#[derive(Clone, Copy, PartialEq, Eq, Structural, Debug)]
pub struct FourCC {
    pub b0: u8,
    pub b1: u8,
    pub b2: u8,
    pub b3: u8,
}

/// The tag with the given four bytes, first byte first.
pub open spec fn fourcc(a: u8, b: u8, c: u8, d: u8) -> FourCC {
    FourCC { b0: a, b1: b, b2: c, b3: d }
}

/// The tag stored at `pos`. In little-endian containers the four bytes of a
/// structural tag are byte-reversed on disk.
pub open spec fn fourcc_at(s: Seq<u8>, big: bool, pos: int) -> FourCC {
    if big {
        FourCC { b0: s[pos], b1: s[pos + 1], b2: s[pos + 2], b3: s[pos + 3] }
    } else {
        FourCC { b0: s[pos + 3], b1: s[pos + 2], b2: s[pos + 1], b3: s[pos] }
    }
}

impl FourCC {
    pub fn new(a: u8, b: u8, c: u8, d: u8) -> (t: FourCC)
        ensures
            t == fourcc(a, b, c, d),
    {
        FourCC { b0: a, b1: b, b2: c, b3: d }
    }
}

/// Read a structural tag: four bytes, reversed to logical order under the
/// little order.
pub fn read_fourcc<E: Endianness>(r: &mut Reader) -> (res: Result<FourCC, Error>)
    ensures
        final(r).stream() == old(r).stream(),
        match res {
            Ok(t) => {
                &&& old(r).can_read(4)
                &&& final(r).posn() == old(r).posn() + 4
                &&& t == fourcc_at(old(r).stream(), E::spec_big(), old(r).posn())
            },
            Err(e) => {
                &&& !old(r).can_read(4)
                &&& e == Error::Io
            },
        },
{
    let v = r.read_bytes::<E>(4)?;
    assert(v@.len() == 4);
    Ok(FourCC { b0: v[0], b1: v[1], b2: v[2], b3: v[3] })
}

} // verus!
