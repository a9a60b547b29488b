use vstd::prelude::*;

use vstd::utf8::valid_utf8;

use crate::chunk::fourcc;
use crate::chunk::fourcc_at;
use crate::chunk::read_fourcc;
use crate::chunk::FourCC;
use crate::endian::be_word16;
use crate::endian::be_word32;
use crate::endian::BigEndian;
use crate::endian::Endian;
use crate::endian::Endianness;
use crate::endian::Reader;
use crate::error::Error;
use crate::text::check_utf8;

verus! {

/// The movie cast list: the external casts a movie refers to.
#[derive(Debug)]
pub struct MovieCastList {
    pub entries: Vec<Cast>,
}

impl MovieCastList {
    pub fn entries(&self) -> (e: &Vec<Cast>)
        ensures
            e == &self.entries,
    {
        &self.entries
    }
}

impl View for MovieCastList {
    type V = Seq<CastView>;

    open spec fn view(&self) -> Seq<CastView> {
        self.entries@.map_values(|c: Cast| c@)
    }
}

/// One cast reference: a name, a path, member-range bounds, and an id.
/// `name` and `path` hold the raw bytes of the length-prefixed strings,
/// which are checked to be valid UTF-8.
#[derive(Debug)]
pub struct Cast {
    pub name: Vec<u8>,
    pub path: Vec<u8>,
    pub min: u8,
    pub max: u8,
    pub member_count: u16,
    pub id: u32,
}

/// The mathematical image of a `Cast`.
pub struct CastView {
    pub name: Seq<u8>,
    pub path: Seq<u8>,
    pub min: u8,
    pub max: u8,
    pub member_count: u16,
    pub id: u32,
}

impl View for Cast {
    type V = CastView;

    open spec fn view(&self) -> CastView {
        CastView {
            name: self.name@,
            path: self.path@,
            min: self.min,
            max: self.max,
            member_count: self.member_count,
            id: self.id,
        }
    }
}

/// The byte sequence of the name `"Internal"`, which marks the host
/// container in the cast list.
pub open spec fn internal_name() -> Seq<u8> {
    seq![0x49u8, 0x6e, 0x74, 0x65, 0x72, 0x6e, 0x61, 0x6c]
}

impl Cast {
    pub fn name(&self) -> (n: &Vec<u8>)
        ensures
            n == &self.name,
    {
        &self.name
    }

    pub fn path(&self) -> (p: &Vec<u8>)
        ensures
            p == &self.path,
    {
        &self.path
    }

    pub fn id(&self) -> (i: u32)
        ensures
            i == self.id,
    {
        self.id
    }

    /// True when this entry names the host container itself, which external
    /// resolution skips.
    pub fn is_internal(&self) -> (r: bool)
        ensures
            r == (self.name@ == internal_name()),
    {
        if self.name.len() != 8 {
            proof {
                assert(self.name@ != internal_name());
            }
            return false;
        }
        let eq = self.name[0] == 0x49 && self.name[1] == 0x6e && self.name[2] == 0x74
            && self.name[3] == 0x65 && self.name[4] == 0x72 && self.name[5] == 0x6e && self.name[6]
            == 0x61 && self.name[7] == 0x6c;
        proof {
            if eq {
                assert(self.name@ =~= internal_name());
            }
        }
        eq
    }
}

/// The `MCsL` chunk tag.
pub open spec fn tag_mcsl() -> FourCC {
    fourcc(0x4d, 0x43, 0x73, 0x4c)
}

/// One cast-list entry laid out at `pos`. All integers in `MCsL` are
/// big-endian whatever the container order. Layout: length-prefixed name,
/// one filler byte; length-prefixed path, one filler byte, and one more
/// filler byte only when the path is non-empty; then `min`, `max`,
/// `member_count`, `id`.
pub open spec fn spec_parse_cast_entry(s: Seq<u8>, pos: int) -> Result<(CastView, int), Error> {
    if pos + 1 > s.len() {
        Err(Error::Io)
    } else {
        let name_len = s[pos] as int;
        if pos + 1 + name_len > s.len() {
            Err(Error::Io)
        } else {
            let name = s.subrange(pos + 1, pos + 1 + name_len);
            if !valid_utf8(name) {
                Err(Error::InvalidUtf8)
            } else if pos + name_len + 2 > s.len() {
                Err(Error::Io)
            } else {
                let p2 = pos + name_len + 2;
                if p2 + 1 > s.len() {
                    Err(Error::Io)
                } else {
                    let path_len = s[p2] as int;
                    if p2 + 1 + path_len > s.len() {
                        Err(Error::Io)
                    } else {
                        let path = s.subrange(p2 + 1, p2 + 1 + path_len);
                        if !valid_utf8(path) {
                            Err(Error::InvalidUtf8)
                        } else if p2 + path_len + 2 > s.len() {
                            Err(Error::Io)
                        } else {
                            let p3 = if path_len > 0 {
                                p2 + path_len + 3
                            } else {
                                p2 + path_len + 2
                            };
                            if p3 + 8 > s.len() {
                                Err(Error::Io)
                            } else {
                                Ok(
                                    (
                                        CastView {
                                            name: name,
                                            path: path,
                                            min: s[p3],
                                            max: s[p3 + 1],
                                            member_count: be_word16(s.subrange(p3 + 2, p3 + 4)),
                                            id: be_word32(s.subrange(p3 + 4, p3 + 8)),
                                        },
                                        p3 + 8,
                                    ),
                                )
                            }
                        }
                    }
                }
            }
        }
    }
}

/// `n` consecutive cast-list entries starting at `pos`.
pub open spec fn spec_parse_cast_entries(s: Seq<u8>, pos: int, n: nat) -> Result<
    (Seq<CastView>, int),
    Error,
>
    decreases n,
{
    if n == 0 {
        Ok((Seq::empty(), pos))
    } else {
        match spec_parse_cast_entry(s, pos) {
            Err(e) => Err(e),
            Ok((c, p2)) => match spec_parse_cast_entries(s, p2, (n - 1) as nat) {
                Err(e) => Err(e),
                Ok((rest, p3)) => Ok((seq![c] + rest, p3)),
            },
        }
    }
}

/// The cast list laid out at `pos`: tag and size under the container order,
/// then (all big-endian) one filler word, the entry count, a 16-bit filler,
/// a filler count `x`, `x` filler words, one more filler word, and the
/// entries.
pub open spec fn spec_parse_mcsl(s: Seq<u8>, big: bool, pos: int) -> Result<
    (Seq<CastView>, int),
    Error,
> {
    if pos + 4 > s.len() {
        Err(Error::Io)
    } else {
        let tag = fourcc_at(s, big, pos);
        if tag != tag_mcsl() {
            Err(Error::MalformedChunk(tag_mcsl(), tag))
        } else if pos + 22 > s.len() {
            Err(Error::Io)
        } else {
            let count = be_word32(s.subrange(pos + 12, pos + 16)) as int;
            let x = be_word32(s.subrange(pos + 18, pos + 22)) as int;
            if pos + 26 + 4 * x > s.len() {
                Err(Error::Io)
            } else {
                spec_parse_cast_entries(s, pos + 26 + 4 * x, count as nat)
            }
        }
    }
}

/// Decode one cast-list entry at the cursor.
fn read_cast_entry(r: &mut Reader) -> (res: Result<Cast, Error>)
    ensures
        final(r).stream() == old(r).stream(),
        match res {
            Ok(c) => spec_parse_cast_entry(old(r).stream(), old(r).posn()) == Ok::<_, Error>(
                (c@, final(r).posn()),
            ),
            Err(e) => spec_parse_cast_entry(old(r).stream(), old(r).posn()) == Err::<
                (CastView, int),
                _,
            >(e),
        },
{
    let name_len = r.read_u8()?;
    let name = r.read_raw(name_len as usize)?;
    if !check_utf8(&name) {
        return Err(Error::InvalidUtf8);
    }
    let _f0 = r.read_u8()?;
    let path_len = r.read_u8()?;
    let path = r.read_raw(path_len as usize)?;
    if !check_utf8(&path) {
        return Err(Error::InvalidUtf8);
    }
    let _f1 = r.read_u8()?;
    if path_len > 0 {
        let _f2 = r.read_u8()?;
    }
    let min = r.read_u8()?;
    let max = r.read_u8()?;
    let member_count = r.read_u16::<BigEndian>()?;
    let id = r.read_u32::<BigEndian>()?;
    Ok(Cast { name, path, min, max, member_count, id })
}

/// Decode an `MCsL` chunk at the cursor.
#[verifier::loop_isolation(false)]
pub fn read_mcsl<E: Endianness>(r: &mut Reader) -> (res: Result<MovieCastList, Error>)
    ensures
        final(r).stream() == old(r).stream(),
        match res {
            Ok(m) => spec_parse_mcsl(old(r).stream(), E::spec_big(), old(r).posn()) == Ok::<
                _,
                Error,
            >((m@, final(r).posn())),
            Err(e) => spec_parse_mcsl(old(r).stream(), E::spec_big(), old(r).posn()) == Err::<
                (Seq<CastView>, int),
                _,
            >(e),
        },
{
    let ghost s = r.stream();
    let ghost big = E::spec_big();
    let ghost pos0 = r.posn();
    let tag = read_fourcc::<E>(r)?;
    let expected = FourCC::new(0x4d, 0x43, 0x73, 0x4c);
    if tag != expected {
        return Err(Error::MalformedChunk(expected, tag));
    }
    let _size = r.read_u32::<E>()?;
    let _f0 = r.read_u32::<BigEndian>()?;
    let count = r.read_u32::<BigEndian>()?;
    let _f1 = r.read_u16::<BigEndian>()?;
    let x = r.read_u32::<BigEndian>()?;
    let mut k: u32 = 0;
    while k < x
        invariant
            k <= x,
            r.stream() == s,
            r.posn() == pos0 + 22 + 4 * (k as int),
            r.posn() <= s.len(),
        decreases x - k,
    {
        let _fx = match r.read_u32::<BigEndian>() {
            Ok(v) => v,
            Err(_) => {
                return Err(Error::Io);
            },
        };
        k = k + 1;
    }
    let _f2 = r.read_u32::<BigEndian>()?;
    let ghost base = pos0 + 26 + 4 * (x as int);
    assert(r.posn() == base);
    let mut entries: Vec<Cast> = Vec::new();
    let mut i: u32 = 0;
    proof {
        match spec_parse_cast_entries(s, base, count as nat) {
            Ok((rest, p)) => {
                assert(entries@.map_values(|c: Cast| c@) + rest =~= rest);
            },
            Err(_) => {},
        }
    }
    while i < count
        invariant
            i <= count,
            r.stream() == s,
            spec_parse_cast_entries(s, base, count as nat) == (match spec_parse_cast_entries(
                s,
                r.posn(),
                (count - i) as nat,
            ) {
                Ok((rest, p)) => Ok::<(Seq<CastView>, int), Error>(
                    (entries@.map_values(|c: Cast| c@) + rest, p),
                ),
                Err(e) => Err::<(Seq<CastView>, int), Error>(e),
            }),
        decreases count - i,
    {
        let ghost pre_entries = entries@;
        let entry = match read_cast_entry(r) {
            Ok(c) => c,
            Err(e) => {
                return Err(e);
            },
        };
        let ghost mid_pos = r.posn();
        entries.push(entry);
        proof {
            assert(entries@.map_values(|c: Cast| c@) =~= pre_entries.map_values(|c: Cast| c@).push(
                entry@,
            ));
            match spec_parse_cast_entries(s, mid_pos, (count - i - 1) as nat) {
                Ok((rest, p)) => {
                    assert(pre_entries.map_values(|c: Cast| c@) + (seq![entry@] + rest)
                        =~= entries@.map_values(|c: Cast| c@) + rest);
                },
                Err(_) => {},
            }
        }
        i = i + 1;
    }
    proof {
        assert(spec_parse_cast_entries(s, r.posn(), 0nat) == Ok::<(Seq<CastView>, int), Error>(
            (Seq::empty(), r.posn()),
        ));
        assert(entries@.map_values(|c: Cast| c@) + Seq::<CastView>::empty() =~= entries@.map_values(
            |c: Cast| c@,
        ));
    }
    Ok(MovieCastList { entries })
}

} // verus!
