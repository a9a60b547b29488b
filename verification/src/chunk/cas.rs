use vstd::prelude::*;

use crate::chunk::fourcc;
use crate::chunk::fourcc_at;
use crate::chunk::read_fourcc;
use crate::chunk::FourCC;
use crate::endian::be_word32;
use crate::endian::word32;
use crate::endian::BigEndian;
use crate::endian::Endian;
use crate::endian::Endianness;
use crate::endian::Reader;
use crate::error::Error;

verus! {

/// A cast's ordered list of member resource ids; zero marks an empty slot.
#[derive(Debug)]
pub struct CastTable {
    pub members: Vec<u32>,
}

impl CastTable {
    pub fn members(&self) -> (m: &Vec<u32>)
        ensures
            m == &self.members,
    {
        &self.members
    }
}

/// The `CAS*` chunk tag.
pub open spec fn tag_cas() -> FourCC {
    fourcc(0x43, 0x41, 0x53, 0x2a)
}

/// The cast table laid out at `pos`: tag and size under the container
/// order, then `size / 4` member ids that are always big-endian.
pub open spec fn spec_parse_cas(s: Seq<u8>, big: bool, pos: int) -> Result<(Seq<u32>, int), Error> {
    if pos + 4 > s.len() {
        Err(Error::Io)
    } else {
        let tag = fourcc_at(s, big, pos);
        if tag != tag_cas() {
            Err(Error::MalformedChunk(tag_cas(), tag))
        } else if pos + 8 > s.len() {
            Err(Error::Io)
        } else {
            let count = word32(big, s.subrange(pos + 4, pos + 8)) as int / 4;
            if pos + 8 + 4 * count > s.len() {
                Err(Error::Io)
            } else {
                Ok(
                    (
                        Seq::new(
                            count as nat,
                            |i: int| be_word32(s.subrange(pos + 8 + 4 * i, pos + 12 + 4 * i)),
                        ),
                        pos + 8 + 4 * count,
                    ),
                )
            }
        }
    }
}

/// Decode a `CAS*` chunk at the cursor.
#[verifier::loop_isolation(false)]
pub fn read_cas<E: Endianness>(r: &mut Reader) -> (res: Result<CastTable, Error>)
    ensures
        final(r).stream() == old(r).stream(),
        match res {
            Ok(t) => spec_parse_cas(old(r).stream(), E::spec_big(), old(r).posn()) == Ok::<
                _,
                Error,
            >((t.members@, final(r).posn())),
            Err(e) => spec_parse_cas(old(r).stream(), E::spec_big(), old(r).posn()) == Err::<
                (Seq<u32>, int),
                _,
            >(e),
        },
{
    let ghost s = r.stream();
    let ghost big = E::spec_big();
    let ghost pos0 = r.posn();
    let tag = read_fourcc::<E>(r)?;
    let expected = FourCC::new(0x43, 0x41, 0x53, 0x2a);
    if tag != expected {
        return Err(Error::MalformedChunk(expected, tag));
    }
    let size = r.read_u32::<E>()?;
    let count = size / 4;
    let ghost base = pos0 + 8;
    let mut members: Vec<u32> = Vec::new();
    let mut i: u32 = 0;
    while i < count
        invariant
            i <= count,
            r.stream() == s,
            r.posn() == base + 4 * (i as int),
            r.posn() <= s.len(),
            members@ =~= Seq::new(
                i as nat,
                |j: int| be_word32(s.subrange(base + 4 * j, base + 4 + 4 * j)),
            ),
        decreases count - i,
    {
        let member = match r.read_u32::<BigEndian>() {
            Ok(v) => v,
            Err(_) => {
                return Err(Error::Io);
            },
        };
        members.push(member);
        proof {
            assert(members@ =~= Seq::new(
                (i + 1) as nat,
                |j: int| be_word32(s.subrange(base + 4 * j, base + 4 + 4 * j)),
            ));
        }
        i = i + 1;
    }
    proof {
        assert(members@ =~= Seq::new(
            count as nat,
            |j: int| be_word32(s.subrange(base + 4 * j, base + 4 + 4 * j)),
        ));
        assert(members@ =~= Seq::new(
            count as nat,
            |j: int| be_word32(s.subrange(pos0 + 8 + 4 * j, pos0 + 12 + 4 * j)),
        ));
    }
    Ok(CastTable { members })
}

} // verus!
