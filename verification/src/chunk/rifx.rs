use vstd::prelude::*;

use crate::chunk::fourcc;
use crate::chunk::fourcc_at;
use crate::chunk::FourCC;
use crate::endian::word32;
use crate::endian::Endian;
use crate::endian::Reader;
use crate::error::Error;

verus! {

/// Byte order of a container, as announced by its preamble tag.
#[derive(Clone, Copy, PartialEq, Eq, Structural, Debug)]
pub enum Endianness {
    Big,
    Little,
}

/// The container preamble: byte order, total size, and codec tag.
#[derive(Debug)]
pub struct Header {
    pub endian: Endianness,
    pub size: u32,
    pub codec: FourCC,
}

impl Header {
    pub fn endian(&self) -> (e: Endianness)
        ensures
            e == self.endian,
    {
        self.endian
    }

    pub fn size(&self) -> (n: u32)
        ensures
            n == self.size,
    {
        self.size
    }

    pub fn codec(&self) -> (c: FourCC)
        ensures
            c == self.codec,
    {
        self.codec
    }
}

/// The preamble tag of a big-endian container.
pub open spec fn tag_rifx() -> FourCC {
    fourcc(0x52, 0x49, 0x46, 0x58)
}

/// The preamble tag of a little-endian container.
pub open spec fn tag_xfir() -> FourCC {
    fourcc(0x58, 0x46, 0x49, 0x52)
}

/// The header laid out at `pos`: four magic bytes read verbatim, a 32-bit
/// size under the detected order, and a codec tag (byte-reversed on disk in
/// little-endian containers).
pub open spec fn spec_parse_rifx(s: Seq<u8>, pos: int) -> Result<(Header, int), Error> {
    if pos + 4 > s.len() {
        Err(Error::Io)
    } else {
        let magic = FourCC { b0: s[pos], b1: s[pos + 1], b2: s[pos + 2], b3: s[pos + 3] };
        if magic == tag_rifx() {
            spec_parse_rifx_body(s, pos, Endianness::Big)
        } else if magic == tag_xfir() {
            spec_parse_rifx_body(s, pos, Endianness::Little)
        } else {
            Err(Error::MalformedHeader)
        }
    }
}

/// The size and codec fields of a header whose magic fixed the order `e`.
pub open spec fn spec_parse_rifx_body(s: Seq<u8>, pos: int, e: Endianness) -> Result<
    (Header, int),
    Error,
> {
    let big = (e == Endianness::Big);
    if pos + 12 > s.len() {
        Err(Error::Io)
    } else {
        Ok(
            (
                Header {
                    endian: e,
                    size: word32(big, s.subrange(pos + 4, pos + 8)),
                    codec: fourcc_at(s, big, pos + 8),
                },
                pos + 12,
            ),
        )
    }
}

/// Decode the container preamble at the cursor.
pub fn read_rifx(r: &mut Reader) -> (res: Result<Header, Error>)
    ensures
        final(r).stream() == old(r).stream(),
        match res {
            Ok(h) => spec_parse_rifx(old(r).stream(), old(r).posn()) == Ok::<_, Error>(
                (h, final(r).posn()),
            ),
            Err(e) => spec_parse_rifx(old(r).stream(), old(r).posn()) == Err::<(Header, int), _>(e),
        },
{
    let magic = match r.read_raw(4) {
        Ok(v) => v,
        Err(_) => {
            return Err(Error::Io);
        },
    };
    assert(magic@.len() == 4);
    let endian = if magic[0] == 0x52 && magic[1] == 0x49 && magic[2] == 0x46 && magic[3] == 0x58 {
        Endianness::Big
    } else if magic[0] == 0x58 && magic[1] == 0x46 && magic[2] == 0x49 && magic[3] == 0x52 {
        Endianness::Little
    } else {
        return Err(Error::MalformedHeader);
    };
    let big = match endian {
        Endianness::Big => true,
        Endianness::Little => false,
    };
    let size = match if big {
        r.read_u32::<crate::endian::BigEndian>()
    } else {
        r.read_u32::<crate::endian::LittleEndian>()
    } {
        Ok(v) => v,
        Err(_) => {
            return Err(Error::Io);
        },
    };
    let codec = match if big {
        crate::chunk::read_fourcc::<crate::endian::BigEndian>(r)
    } else {
        crate::chunk::read_fourcc::<crate::endian::LittleEndian>(r)
    } {
        Ok(v) => v,
        Err(_) => {
            return Err(Error::Io);
        },
    };
    Ok(Header { endian, size, codec })
}

} // verus!
