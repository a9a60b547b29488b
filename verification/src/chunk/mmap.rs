use vstd::prelude::*;

use crate::chunk::fourcc;
use crate::chunk::fourcc_at;
use crate::chunk::read_fourcc;
use crate::chunk::FourCC;
use crate::endian::word32;
use crate::endian::Endian;
use crate::endian::Endianness;
use crate::endian::Reader;
use crate::error::Error;

verus! {

/// The memory map: the table of all chunks, addressed by resource id.
#[derive(Debug)]
pub struct MemoryMap {
    pub entries: Vec<MemoryMapEntry>,
}

impl MemoryMap {
    pub fn entries(&self) -> (e: &Vec<MemoryMapEntry>)
        ensures
            e == &self.entries,
    {
        &self.entries
    }
}

/// One memory-map row: the chunk's tag, size, and absolute file offset.
/// The row's ordinal index in the table is the resource id.
#[derive(Clone, Copy, PartialEq, Eq, Structural, Debug)]
pub struct MemoryMapEntry {
    pub chunk: FourCC,
    pub size: u32,
    pub offset: u32,
}

impl MemoryMapEntry {
    pub fn chunk(&self) -> (t: FourCC)
        ensures
            t == self.chunk,
    {
        self.chunk
    }

    pub fn size(&self) -> (n: u32)
        ensures
            n == self.size,
    {
        self.size
    }

    pub fn offset(&self) -> (o: u32)
        ensures
            o == self.offset,
    {
        self.offset
    }
}

/// The `mmap` chunk tag.
pub open spec fn tag_mmap() -> FourCC {
    fourcc(0x6d, 0x6d, 0x61, 0x70)
}

/// The memory-map row laid out at `pos`: tag, size, offset, then three
/// 16-bit filler fields.
pub open spec fn spec_mmap_entry_at(s: Seq<u8>, big: bool, pos: int) -> MemoryMapEntry {
    MemoryMapEntry {
        chunk: fourcc_at(s, big, pos),
        size: word32(big, s.subrange(pos + 4, pos + 8)),
        offset: word32(big, s.subrange(pos + 8, pos + 12)),
    }
}

/// The memory map laid out at `pos`: tag, size, two 16-bit fillers, the
/// capacity count, the used count, three 32-bit fillers, then exactly
/// `used` rows of 18 bytes each. Rows beyond `used` are ignored.
pub open spec fn spec_parse_mmap(s: Seq<u8>, big: bool, pos: int) -> Result<
    (Seq<MemoryMapEntry>, int),
    Error,
> {
    if pos + 4 > s.len() {
        Err(Error::Io)
    } else {
        let tag = fourcc_at(s, big, pos);
        if tag != tag_mmap() {
            Err(Error::MalformedChunk(tag_mmap(), tag))
        } else if pos + 32 > s.len() {
            Err(Error::Io)
        } else {
            let used = word32(big, s.subrange(pos + 16, pos + 20)) as int;
            if pos + 32 + 18 * used > s.len() {
                Err(Error::Io)
            } else {
                Ok(
                    (
                        Seq::new(used as nat, |i: int| spec_mmap_entry_at(s, big, pos + 32 + 18 * i)),
                        pos + 32 + 18 * used,
                    ),
                )
            }
        }
    }
}

/// Decode an `mmap` chunk at the cursor.
#[verifier::loop_isolation(false)]
pub fn read_mmap<E: Endianness>(r: &mut Reader) -> (res: Result<MemoryMap, Error>)
    ensures
        final(r).stream() == old(r).stream(),
        match res {
            Ok(m) => spec_parse_mmap(old(r).stream(), E::spec_big(), old(r).posn())
                == Ok::<_, Error>((m.entries@, final(r).posn())),
            Err(e) => spec_parse_mmap(old(r).stream(), E::spec_big(), old(r).posn())
                == Err::<(Seq<MemoryMapEntry>, int), _>(e),
        },
{
    let ghost s = r.stream();
    let ghost big = E::spec_big();
    let ghost pos0 = r.posn();
    let tag = read_fourcc::<E>(r)?;
    let expected = FourCC::new(0x6d, 0x6d, 0x61, 0x70);
    if tag != expected {
        return Err(Error::MalformedChunk(expected, tag));
    }
    let _size = r.read_u32::<E>()?;
    let _f0 = r.read_u16::<E>()?;
    let _f1 = r.read_u16::<E>()?;
    let _max = r.read_u32::<E>()?;
    let used = r.read_u32::<E>()?;
    let _f2 = r.read_u32::<E>()?;
    let _f3 = r.read_u32::<E>()?;
    let _f4 = r.read_u32::<E>()?;
    let ghost base = pos0 + 32;
    assert(r.posn() == base);
    let mut entries: Vec<MemoryMapEntry> = Vec::new();
    let mut i: u32 = 0;
    while i < used
        invariant
            i <= used,
            r.stream() == s,
            r.posn() == base + 18 * (i as int),
            r.posn() <= s.len(),
            entries@ =~= Seq::new(i as nat, |j: int| spec_mmap_entry_at(s, big, base + 18 * j)),
        decreases used - i,
    {
        let entry_tag = match read_fourcc::<E>(r) {
            Ok(t) => t,
            Err(_) => {
                return Err(Error::Io);
            },
        };
        let entry_size = match r.read_u32::<E>() {
            Ok(v) => v,
            Err(_) => {
                return Err(Error::Io);
            },
        };
        let entry_offset = match r.read_u32::<E>() {
            Ok(v) => v,
            Err(_) => {
                return Err(Error::Io);
            },
        };
        let mut k: usize = 0;
        while k < 3
            invariant
                k <= 3,
                i < used,
                r.stream() == s,
                r.posn() == base + 18 * (i as int) + 12 + 2 * (k as int),
                r.posn() <= s.len(),
            decreases 3 - k,
        {
            let _f = match r.read_u16::<E>() {
                Ok(v) => v,
                Err(_) => {
                    return Err(Error::Io);
                },
            };
            k = k + 1;
        }
        let entry = MemoryMapEntry { chunk: entry_tag, size: entry_size, offset: entry_offset };
        entries.push(entry);
        proof {
            assert(entry == spec_mmap_entry_at(s, big, base + 18 * (i as int)));
            assert(entries@ =~= Seq::new(
                (i + 1) as nat,
                |j: int| spec_mmap_entry_at(s, big, base + 18 * j),
            ));
        }
        i = i + 1;
    }
    proof {
        assert(entries@ =~= Seq::new(
            used as nat,
            |j: int| spec_mmap_entry_at(s, big, base + 18 * j),
        ));
    }
    Ok(MemoryMap { entries })
}

} // verus!
