use vstd::prelude::*;

use crate::chunk::fourcc;
use crate::chunk::fourcc_at;
use crate::chunk::read_fourcc;
use crate::chunk::FourCC;
use crate::endian::word32;
use crate::endian::Endian;
use crate::endian::Endianness;
use crate::endian::Reader;
use crate::error::Error;

verus! {

/// The raw, still-compressed payload of a `BITD` chunk.
#[derive(Debug)]
pub struct BitmapData {
    pub data: Vec<u8>,
}

impl BitmapData {
    pub fn data(&self) -> (d: &Vec<u8>)
        ensures
            d == &self.data,
    {
        &self.data
    }
}

/// The `BITD` chunk tag.
pub open spec fn tag_bitd() -> FourCC {
    fourcc(0x42, 0x49, 0x54, 0x44)
}

/// The bitmap payload laid out at `pos`: tag and size under the container
/// order, then exactly `size` payload bytes, verbatim.
pub open spec fn spec_parse_bitd(s: Seq<u8>, big: bool, pos: int) -> Result<(Seq<u8>, int), Error> {
    if pos + 4 > s.len() {
        Err(Error::Io)
    } else {
        let tag = fourcc_at(s, big, pos);
        if tag != tag_bitd() {
            Err(Error::MalformedChunk(tag_bitd(), tag))
        } else if pos + 8 > s.len() {
            Err(Error::Io)
        } else {
            let size = word32(big, s.subrange(pos + 4, pos + 8)) as int;
            if pos + 8 + size > s.len() {
                Err(Error::Io)
            } else {
                Ok((s.subrange(pos + 8, pos + 8 + size), pos + 8 + size))
            }
        }
    }
}

/// Decode a `BITD` chunk at the cursor.
pub fn read_bitd<E: Endianness>(r: &mut Reader) -> (res: Result<BitmapData, Error>)
    ensures
        final(r).stream() == old(r).stream(),
        match res {
            Ok(b) => spec_parse_bitd(old(r).stream(), E::spec_big(), old(r).posn()) == Ok::<
                _,
                Error,
            >((b.data@, final(r).posn())),
            Err(e) => spec_parse_bitd(old(r).stream(), E::spec_big(), old(r).posn()) == Err::<
                (Seq<u8>, int),
                _,
            >(e),
        },
{
    let tag = read_fourcc::<E>(r)?;
    let expected = FourCC::new(0x42, 0x49, 0x54, 0x44);
    if tag != expected {
        return Err(Error::MalformedChunk(expected, tag));
    }
    let size = r.read_u32::<E>()?;
    let data = r.read_raw(size as usize)?;
    Ok(BitmapData { data })
}

} // verus!
