use vstd::prelude::*;

use crate::chunk::fourcc;
use crate::chunk::fourcc_at;
use crate::chunk::read_fourcc;
use crate::chunk::FourCC;
use crate::endian::word32;
use crate::endian::Endian;
use crate::endian::Endianness;
use crate::endian::Reader;
use crate::error::Error;

verus! {

/// The initial map: the one chunk whose body points at the memory map.
#[derive(Debug)]
pub struct InitialMap {
    pub mmap_offset: u32,
}

impl InitialMap {
    pub fn mmap_offset(&self) -> (o: u32)
        ensures
            o == self.mmap_offset,
    {
        self.mmap_offset
    }
}

/// The `imap` chunk tag.
pub open spec fn tag_imap() -> FourCC {
    fourcc(0x69, 0x6d, 0x61, 0x70)
}

/// The initial map laid out at `pos`: tag, size (unused), entry count
/// (expected 1, not enforced), and the absolute offset of the memory map.
pub open spec fn spec_parse_imap(s: Seq<u8>, big: bool, pos: int) -> Result<
    (InitialMap, int),
    Error,
> {
    if pos + 4 > s.len() {
        Err(Error::Io)
    } else {
        let tag = fourcc_at(s, big, pos);
        if tag != tag_imap() {
            Err(Error::MalformedChunk(tag_imap(), tag))
        } else if pos + 16 > s.len() {
            Err(Error::Io)
        } else {
            Ok(
                (
                    InitialMap { mmap_offset: word32(big, s.subrange(pos + 12, pos + 16)) },
                    pos + 16,
                ),
            )
        }
    }
}

/// Decode an `imap` chunk at the cursor.
pub fn read_imap<E: Endianness>(r: &mut Reader) -> (res: Result<InitialMap, Error>)
    ensures
        final(r).stream() == old(r).stream(),
        match res {
            Ok(im) => spec_parse_imap(old(r).stream(), E::spec_big(), old(r).posn())
                == Ok::<_, Error>((im, final(r).posn())),
            Err(e) => spec_parse_imap(old(r).stream(), E::spec_big(), old(r).posn())
                == Err::<(InitialMap, int), _>(e),
        },
{
    let tag = read_fourcc::<E>(r)?;
    let expected = FourCC::new(0x69, 0x6d, 0x61, 0x70);
    if tag != expected {
        return Err(Error::MalformedChunk(expected, tag));
    }
    let _size = r.read_u32::<E>()?;
    let _count = r.read_u32::<E>()?;
    let offset = r.read_u32::<E>()?;
    Ok(InitialMap { mmap_offset: offset })
}

} // verus!
