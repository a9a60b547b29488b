pub mod bitmap;
pub mod chunk;
pub mod endian;
pub mod error;
pub mod text;

use vstd::prelude::*;

use crate::chunk::bitd;
use crate::chunk::bitd::BitmapData;
use crate::chunk::cas;
use crate::chunk::cas::CastTable;
use crate::chunk::cast;
use crate::chunk::cast::CastProperties;
use crate::chunk::cast::CastPropertiesView;
use crate::chunk::imap;
use crate::chunk::imap::InitialMap;
use crate::chunk::key;
use crate::chunk::key::Key;
use crate::chunk::key::KeyTable;
use crate::chunk::mcsl;
use crate::chunk::mcsl::MovieCastList;
use crate::chunk::mmap;
use crate::chunk::mmap::MemoryMap;
use crate::chunk::mmap::MemoryMapEntry;
use crate::chunk::rifx;
use crate::chunk::rifx::Endianness;
use crate::chunk::rifx::Header;
use crate::endian::BigEndian;
use crate::endian::LittleEndian;
use crate::endian::Reader;
use crate::error::Error;

verus! {

/// One parsed container: the header and the three structural tables. All
/// other chunks are reached through them by resource id.
#[derive(Debug)]
pub struct DirectorFile {
    pub header: Header,
    pub imap: InitialMap,
    pub mmap: MemoryMap,
    pub key: KeyTable,
}

/// The mathematical image of a `DirectorFile`.
pub struct DirectorFileView {
    pub header: Header,
    pub imap: InitialMap,
    pub mmap: Seq<MemoryMapEntry>,
    pub key: Seq<Key>,
}

impl View for DirectorFile {
    type V = DirectorFileView;

    open spec fn view(&self) -> DirectorFileView {
        DirectorFileView {
            header: self.header,
            imap: self.imap,
            mmap: self.mmap.entries@,
            key: self.key.keys@,
        }
    }
}

/// Whether the container's byte order is big-endian.
pub open spec fn spec_big_of(h: Header) -> bool {
    h.endian == Endianness::Big
}

/// Well-formedness of a parsed container against its file size: the key
/// table sits at resource id 3; every memory-map row lies inside the file;
/// and every key edge points at an existing row of the right kind.
pub open spec fn wf_container(df: DirectorFileView, flen: int) -> bool {
    &&& df.mmap.len() > 3
    &&& forall|i: int|
        0 <= i < df.mmap.len() ==> #[trigger] df.mmap[i].offset + df.mmap[i].size <= flen
    &&& forall|i: int|
        0 <= i < df.key.len() ==> (#[trigger] df.key[i].owned < df.mmap.len()
            && df.mmap[df.key[i].owned as int].chunk == df.key[i].chunk)
}

/// The first key edge, in table order, that points outside the memory map
/// or at a row of another kind, reported as this walk's error; or nothing.
pub open spec fn spec_validate_keys(keys: Seq<Key>, mm: Seq<MemoryMapEntry>, i: int) -> Result<
    (),
    Error,
>
    decreases keys.len() - i,
{
    if i < 0 || i >= keys.len() {
        Ok(())
    } else if keys[i].owned >= mm.len() {
        Err(Error::InvalidOffset)
    } else if mm[keys[i].owned as int].chunk != keys[i].chunk {
        Err(Error::MalformedChunk(keys[i].chunk, mm[keys[i].owned as int].chunk))
    } else {
        spec_validate_keys(keys, mm, i + 1)
    }
}

/// A key walk that reports nothing leaves every edge from `i` on valid.
pub proof fn lemma_validate_keys_ok(keys: Seq<Key>, mm: Seq<MemoryMapEntry>, i: int)
    requires
        0 <= i,
        spec_validate_keys(keys, mm, i) is Ok,
    ensures
        forall|j: int|
            i <= j < keys.len() ==> (#[trigger] keys[j].owned < mm.len()
                && mm[keys[j].owned as int].chunk == keys[j].chunk),
    decreases keys.len() - i,
{
    if 0 <= i < keys.len() {
        lemma_validate_keys_ok(keys, mm, i + 1);
    }
}

/// The parse of the three base chunks under the order `big`, starting just
/// after the header: `imap`, then `mmap` at the offset the initial map
/// names, then `KEY*` at the offset of memory-map row 3; then the two
/// validity checks of the structural tables.
pub open spec fn spec_parse_base_chunks(s: Seq<u8>, big: bool, pos: int) -> Result<
    (InitialMap, Seq<MemoryMapEntry>, Seq<Key>),
    Error,
> {
    match imap::spec_parse_imap(s, big, pos) {
        Err(e) => Err(e),
        Ok((im, _)) => match mmap::spec_parse_mmap(s, big, im.mmap_offset as int) {
            Err(e) => Err(e),
            Ok((mm, _)) => {
                if mm.len() <= 3 {
                    Err(Error::InvalidOffset)
                } else {
                    match key::spec_parse_key(s, big, mm[3].offset as int) {
                        Err(e) => Err(e),
                        Ok((keys, _)) => {
                            if exists|i: int|
                                0 <= i < mm.len() && #[trigger] mm[i].offset + mm[i].size
                                    > s.len() {
                                Err(Error::InvalidOffset)
                            } else {
                                match spec_validate_keys(keys, mm, 0) {
                                    Err(e) => Err(e),
                                    Ok(_) => Ok((im, mm, keys)),
                                }
                            }
                        },
                    }
                }
            },
        },
    }
}

/// The parse of a whole base container: the header at offset 0, then the
/// base chunks under the header's order.
pub open spec fn spec_parse_base(s: Seq<u8>) -> Result<DirectorFileView, Error> {
    match rifx::spec_parse_rifx(s, 0) {
        Err(e) => Err(e),
        Ok((h, p1)) => match spec_parse_base_chunks(s, spec_big_of(h), p1) {
            Err(e) => Err(e),
            Ok((im, mm, keys)) => Ok(DirectorFileView { header: h, imap: im, mmap: mm, key: keys }),
        },
    }
}

/// Check that every memory-map row lies inside the file.
fn check_mmap_bounds(m: &MemoryMap, flen: usize) -> (ok: bool)
    ensures
        ok == !(exists|i: int|
            0 <= i < m.entries@.len() && #[trigger] m.entries@[i].offset + m.entries@[i].size
                > flen as int),
{
    let n = m.entries.len();
    let mut i: usize = 0;
    while i < n
        invariant
            i <= n,
            n == m.entries@.len(),
            forall|j: int|
                0 <= j < i ==> #[trigger] m.entries@[j].offset + m.entries@[j].size <= flen as int,
        decreases n - i,
    {
        let e = &m.entries[i];
        if (e.offset as u64) + (e.size as u64) > (flen as u64) {
            return false;
        }
        i = i + 1;
    }
    true
}

/// Check every key edge against the memory map, reporting the first bad one.
fn check_keys(k: &KeyTable, m: &MemoryMap) -> (res: Result<(), Error>)
    ensures
        res == spec_validate_keys(k.keys@, m.entries@, 0),
{
    let n = k.keys.len();
    let mut i: usize = 0;
    while i < n
        invariant
            i <= n,
            n == k.keys@.len(),
            spec_validate_keys(k.keys@, m.entries@, 0) == spec_validate_keys(
                k.keys@,
                m.entries@,
                i as int,
            ),
        decreases n - i,
    {
        let kk = &k.keys[i];
        if kk.owned as usize >= m.entries.len() {
            return Err(Error::InvalidOffset);
        }
        let entry = &m.entries[kk.owned as usize];
        if !(entry.chunk == kk.chunk) {
            return Err(Error::MalformedChunk(kk.chunk, entry.chunk));
        }
        i = i + 1;
    }
    Ok(())
}

/// Read the base chunks `imap`, `mmap`, `KEY*` under the order `E`, and
/// validate the tables.
pub fn read_base_chunks<E: crate::endian::Endianness>(r: &mut Reader) -> (res: Result<
    (InitialMap, MemoryMap, KeyTable),
    Error,
>)
    ensures
        final(r).stream() == old(r).stream(),
        match res {
            Ok(t) => spec_parse_base_chunks(old(r).stream(), E::spec_big(), old(r).posn()) == Ok::<
                _,
                Error,
            >((t.0, t.1.entries@, t.2.keys@)),
            Err(e) => spec_parse_base_chunks(old(r).stream(), E::spec_big(), old(r).posn())
                == Err::<(InitialMap, Seq<MemoryMapEntry>, Seq<Key>), _>(e),
        },
{
    let im = imap::read_imap::<E>(r)?;
    r.seek(im.mmap_offset() as usize);
    let mm = mmap::read_mmap::<E>(r)?;
    if mm.entries.len() <= 3 {
        return Err(Error::InvalidOffset);
    }
    let key_offset = mm.entries[3].offset;
    r.seek(key_offset as usize);
    let keys = key::read_key::<E>(r)?;
    let flen = r.size();
    if !check_mmap_bounds(&mm, flen) {
        return Err(Error::InvalidOffset);
    }
    match check_keys(&keys, &mm) {
        Ok(_) => {},
        Err(e) => {
            return Err(e);
        },
    }
    Ok((im, mm, keys))
}

impl DirectorFile {
    /// Parse a base container out of its bytes: header, initial map, memory
    /// map, key table, with the structural tables validated.
    pub fn parse_base(r: &mut Reader) -> (res: Result<DirectorFile, Error>)
        ensures
            final(r).stream() == old(r).stream(),
            match res {
                Ok(df) => spec_parse_base(old(r).stream()) == Ok::<_, Error>(df@) && wf_container(
                    df@,
                    old(r).stream().len() as int,
                ),
                Err(e) => spec_parse_base(old(r).stream()) == Err::<DirectorFileView, _>(e),
            },
    {
        r.seek(0);
        let header = rifx::read_rifx(r)?;
        let big = match header.endian() {
            Endianness::Big => true,
            Endianness::Little => false,
        };
        let chunks = if big {
            read_base_chunks::<BigEndian>(r)
        } else {
            read_base_chunks::<LittleEndian>(r)
        };
        let (im, mm, keys) = match chunks {
            Ok(t) => t,
            Err(e) => {
                return Err(e);
            },
        };
        let df = DirectorFile { header, imap: im, mmap: mm, key: keys };
        proof {
            lemma_validate_keys_ok(df.key.keys@, df.mmap.entries@, 0);
        }
        Ok(df)
    }

    pub fn header(&self) -> (h: &Header)
        ensures
            h == &self.header,
    {
        &self.header
    }

    pub fn imap(&self) -> (im: &InitialMap)
        ensures
            im == &self.imap,
    {
        &self.imap
    }

    pub fn mmap(&self) -> (m: &MemoryMap)
        ensures
            m == &self.mmap,
    {
        &self.mmap
    }

    pub fn key(&self) -> (k: &KeyTable)
        ensures
            k == &self.key,
    {
        &self.key
    }
}

/// The parse of the movie step: look `MCsL` up under the movie root id
/// `0x400`; a container without that edge is a plain base file; otherwise
/// the cast list sits at the owned chunk's offset.
pub open spec fn spec_parse_movie(s: Seq<u8>, df: DirectorFileView) -> Result<
    Option<Seq<mcsl::CastView>>,
    Error,
> {
    match key::spec_lookup(df.key, 0x400, mcsl::tag_mcsl()) {
        None => Ok(None),
        Some(id) => match mcsl::spec_parse_mcsl(
            s,
            spec_big_of(df.header),
            df.mmap[id as int].offset as int,
        ) {
            Err(e) => Err(e),
            Ok((cl, _)) => Ok(Some(cl)),
        },
    }
}

/// Resolve and decode the movie cast list of a parsed container.
pub fn read_cast_list(df: &DirectorFile, r: &mut Reader) -> (res: Result<
    Option<MovieCastList>,
    Error,
>)
    requires
        spec_parse_base(old(r).stream()) == Ok::<_, Error>(df@),
        wf_container(df@, old(r).stream().len() as int),
    ensures
        final(r).stream() == old(r).stream(),
        match res {
            Ok(opt) => spec_parse_movie(old(r).stream(), df@) == Ok::<_, Error>(
                match opt {
                    Some(m) => Some(m@),
                    None => None,
                },
            ),
            Err(e) => spec_parse_movie(old(r).stream(), df@) == Err::<
                Option<Seq<mcsl::CastView>>,
                _,
            >(e),
        },
{
    let tag = crate::chunk::FourCC::new(0x4d, 0x43, 0x73, 0x4c);
    let id = match df.key.lookup(0x400, tag) {
        None => {
            return Ok(None);
        },
        Some(id) => id,
    };
    proof {
        lemma_lookup_resolves(df@, old(r).stream().len() as int, 0x400, tag);
    }
    let off = df.mmap.entries[id as usize].offset;
    r.seek(off as usize);
    let big = match df.header.endian() {
        Endianness::Big => true,
        Endianness::Little => false,
    };
    let parsed = if big {
        mcsl::read_mcsl::<BigEndian>(r)
    } else {
        mcsl::read_mcsl::<LittleEndian>(r)
    };
    match parsed {
        Ok(m) => Ok(Some(m)),
        Err(e) => Err(e),
    }
}

/// One decoded bitmap member of a cast: its resource id, its `CASt`
/// properties, and the expanded pixel matrix.
#[derive(Debug)]
pub struct DecodedMember {
    pub id: u32,
    pub properties: CastProperties,
    pub bitmap: Vec<Vec<[u8; 4]>>,
}

/// The mathematical image of a `DecodedMember`, with the matrix as nested
/// sequences of bytes.
pub struct MemberView {
    pub id: u32,
    pub properties: CastPropertiesView,
    pub bitmap: Seq<Seq<Seq<u8>>>,
}

/// The nested-sequence image of a pixel matrix.
pub open spec fn matrix_view(m: Seq<Vec<[u8; 4]>>) -> Seq<Seq<Seq<u8>>> {
    m.map_values(|row: Vec<[u8; 4]>| row@.map_values(|px: [u8; 4]| px@))
}

impl View for DecodedMember {
    type V = MemberView;

    open spec fn view(&self) -> MemberView {
        MemberView { id: self.id, properties: self.properties@, bitmap: matrix_view(self.bitmap@) }
    }
}

/// The matrix a `BITD` payload expands to under the tolerant decoder.
pub open spec fn bitd_matrix(p: Seq<u8>, w: int, h: int) -> Seq<Seq<Seq<u8>>> {
    Seq::new(
        h as nat,
        |y: int|
            Seq::new(
                w as nat,
                |x: int| Seq::new(4nat, |c: int| crate::bitmap::bitd_cell(p, w, y, x, c)),
            ),
    )
}

/// The decode of one cast member with resource id `m`, or nothing where
/// the traversal skips it: an empty slot (id 0), an id outside the memory
/// map, a `CASt` that fails to decode, a member of any kind but bitmap, a
/// bitmap without a `BITD` edge or whose `BITD` fails to decode, a bit
/// depth other than 32, or a matrix too large for the address space.
pub open spec fn spec_member_at(s: Seq<u8>, big: bool, df: DirectorFileView, m: u32) -> Option<
    MemberView,
> {
    if m == 0 || m as int >= df.mmap.len() {
        None
    } else {
        match cast::spec_parse_cast(s, big, df.mmap[m as int].offset as int) {
            Err(_) => None,
            Ok((props, _)) => {
                if props.kind != cast::CastKind::Bitmap {
                    None
                } else {
                    match key::spec_lookup(df.key, m, bitd::tag_bitd()) {
                        None => None,
                        Some(id) => match bitd::spec_parse_bitd(
                            s,
                            big,
                            df.mmap[id as int].offset as int,
                        ) {
                            Err(_) => None,
                            Ok((payload, _)) => {
                                match (
                                    props.properties.bitmap_width,
                                    props.properties.bitmap_height,
                                    props.properties.bitmap_depth,
                                ) {
                                    (Some(w), Some(h), Some(d)) => {
                                        if d != 32 {
                                            None
                                        } else if 4 * (w as int) * (h as int) > usize::MAX {
                                            None
                                        } else {
                                            Some(
                                                MemberView {
                                                    id: m,
                                                    properties: props,
                                                    bitmap: bitd_matrix(payload, w as int, h as int),
                                                },
                                            )
                                        }
                                    },
                                    _ => None,
                                }
                            },
                        },
                    }
                }
            },
        }
    }
}

/// The decoded members of a cast table from slot `i` on, in table order,
/// with the skipped slots absent.
pub open spec fn spec_members(
    s: Seq<u8>,
    big: bool,
    df: DirectorFileView,
    tab: Seq<u32>,
    i: int,
) -> Seq<MemberView>
    decreases tab.len() - i,
{
    if i < 0 || i >= tab.len() {
        Seq::empty()
    } else {
        match spec_member_at(s, big, df, tab[i]) {
            None => spec_members(s, big, df, tab, i + 1),
            Some(mv) => seq![mv] + spec_members(s, big, df, tab, i + 1),
        }
    }
}

/// Decode the member with resource id `m` of a parsed cast container, or
/// skip it as the traversal does.
fn read_member<E: crate::endian::Endianness>(df: &DirectorFile, r: &mut Reader, m: u32) -> (res:
    Option<DecodedMember>)
    requires
        wf_container(df@, old(r).stream().len() as int),
    ensures
        final(r).stream() == old(r).stream(),
        match res {
            Some(dm) => spec_member_at(old(r).stream(), E::spec_big(), df@, m) == Some(dm@),
            None => spec_member_at(old(r).stream(), E::spec_big(), df@, m) is None,
        },
{
    if m == 0 {
        return None;
    }
    if m as usize >= df.mmap.entries.len() {
        return None;
    }
    let off = df.mmap.entries[m as usize].offset;
    r.seek(off as usize);
    let props = match cast::read_cast::<E>(r) {
        Ok(p) => p,
        Err(_) => {
            return None;
        },
    };
    let is_bitmap = match props.kind() {
        cast::CastKind::Bitmap => true,
        _ => false,
    };
    if !is_bitmap {
        return None;
    }
    let bitd_tag = crate::chunk::FourCC::new(0x42, 0x49, 0x54, 0x44);
    let id = match df.key.lookup(m, bitd_tag) {
        None => {
            return None;
        },
        Some(id) => id,
    };
    proof {
        lemma_lookup_resolves(df@, old(r).stream().len() as int, m, bitd_tag);
    }
    let boff = df.mmap.entries[id as usize].offset;
    r.seek(boff as usize);
    let data = match bitd::read_bitd::<E>(r) {
        Ok(d) => d,
        Err(_) => {
            return None;
        },
    };
    let w = match props.properties.bitmap_width {
        Some(w) => w,
        None => {
            return None;
        },
    };
    let h = match props.properties.bitmap_height {
        Some(h) => h,
        None => {
            return None;
        },
    };
    let d = match props.properties.bitmap_depth {
        Some(d) => d,
        None => {
            return None;
        },
    };
    if d != 32 {
        return None;
    }
    let wu = w as u64;
    let hu = h as u64;
    proof {
        assert(4 * wu * hu <= 0x400000000) by (nonlinear_arith)
            requires
                wu <= 0xffff,
                hu <= 0xffff,
        ;
    }
    let total = 4u64 * wu * hu;
    if total > (usize::MAX as u64) {
        return None;
    }
    let matrix = match crate::bitmap::expand_rle(w, h, &data.data, false) {
        Ok(mx) => mx,
        Err(_) => {
            return None;
        },
    };
    let member = DecodedMember { id: m, properties: props, bitmap: matrix };
    proof {
        assert(matrix_view(member.bitmap@) =~~= bitd_matrix(data.data@, w as int, h as int));
    }
    Some(member)
}

/// The parse of one external cast container out of its bytes: the base
/// chunks under its own header's order, then (under the main movie's order
/// `big`) the `CAS*` table owned by the cast root `0x400`, then each
/// member. A cast file without a `CAS*` edge is malformed.
pub open spec fn spec_parse_cast_file(s: Seq<u8>, big: bool) -> Result<
    (DirectorFileView, Seq<u32>, Seq<MemberView>),
    Error,
> {
    match spec_parse_base(s) {
        Err(e) => Err(e),
        Ok(df) => match key::spec_lookup(df.key, 0x400, cas::tag_cas()) {
            None => Err(Error::MalformedChunk(cas::tag_cas(), cas::tag_cas())),
            Some(id) => match cas::spec_parse_cas(s, big, df.mmap[id as int].offset as int) {
                Err(e) => Err(e),
                Ok((tab, _)) => Ok((df, tab, spec_members(s, big, df, tab, 0))),
            },
        },
    }
}

/// Parse an external cast container and decode its bitmap members, under
/// the main movie's byte order `E`. Failures of single members are
/// absorbed: the member is skipped and the walk goes on.
#[verifier::loop_isolation(false)]
#[verifier::rlimit(60)]
pub fn read_cast_file<E: crate::endian::Endianness>(r: &mut Reader) -> (res: Result<
    (DirectorFile, CastTable, Vec<DecodedMember>),
    Error,
>)
    ensures
        final(r).stream() == old(r).stream(),
        match res {
            Ok(t) => spec_parse_cast_file(old(r).stream(), E::spec_big()) == Ok::<_, Error>(
                (t.0@, t.1.members@, t.2@.map_values(|dm: DecodedMember| dm@)),
            ) && wf_container(t.0@, old(r).stream().len() as int),
            Err(e) => spec_parse_cast_file(old(r).stream(), E::spec_big()) == Err::<
                (DirectorFileView, Seq<u32>, Seq<MemberView>),
                _,
            >(e),
        },
{
    let ghost s = r.stream();
    let ghost big = E::spec_big();
    let df = DirectorFile::parse_base(r)?;
    let cas_tag = crate::chunk::FourCC::new(0x43, 0x41, 0x53, 0x2a);
    let id = match df.key.lookup(0x400, cas_tag) {
        None => {
            return Err(Error::MalformedChunk(cas_tag, cas_tag));
        },
        Some(id) => id,
    };
    proof {
        lemma_lookup_resolves(df@, s.len() as int, 0x400, cas_tag);
    }
    let off = df.mmap.entries[id as usize].offset;
    r.seek(off as usize);
    let table = cas::read_cas::<E>(r)?;
    let n = table.members.len();
    let mut members: Vec<DecodedMember> = Vec::new();
    let mut i: usize = 0;
    proof {
        assert(members@.map_values(|dm: DecodedMember| dm@) + spec_members(
            s,
            big,
            df@,
            table.members@,
            0,
        ) =~= spec_members(s, big, df@, table.members@, 0));
    }
    while i < n
        invariant
            i <= n,
            r.stream() == s,
            spec_members(s, big, df@, table.members@, 0) == members@.map_values(
                |dm: DecodedMember| dm@,
            ) + spec_members(s, big, df@, table.members@, i as int),
        decreases n - i,
    {
        let ghost pre = members@;
        let m = table.members[i];
        match read_member::<E>(&df, r, m) {
            Some(dm) => {
                members.push(dm);
                proof {
                    assert(members@.map_values(|dm: DecodedMember| dm@) =~= pre.map_values(
                        |dm: DecodedMember| dm@,
                    ).push(dm@));
                    assert(pre.map_values(|dm: DecodedMember| dm@) + (seq![dm@] + spec_members(
                        s,
                        big,
                        df@,
                        table.members@,
                        i as int + 1,
                    )) =~= members@.map_values(|dm: DecodedMember| dm@) + spec_members(
                        s,
                        big,
                        df@,
                        table.members@,
                        i as int + 1,
                    ));
                }
            },
            None => {},
        }
        i = i + 1;
    }
    proof {
        assert(spec_members(s, big, df@, table.members@, n as int) =~= Seq::<MemberView>::empty());
        assert(members@.map_values(|dm: DecodedMember| dm@) + Seq::<MemberView>::empty()
            =~= members@.map_values(|dm: DecodedMember| dm@));
    }
    Ok((df, table, members))
}


/// Expand the `BITD` payload of a bitmap member into its pixel matrix,
/// using the member's decoded `BitmapWidth`, `BitmapHeight` and
/// `BitmapDepth`. Only depth 32 is supported. The expansion is tolerant:
/// a payload that ends early leaves the rest of the matrix at its initial
/// pixel `(0, 0, 0, 255)`.
pub fn parse_bitmap_data(properties: &CastProperties, data: BitmapData) -> (res: Result<
    Vec<Vec<[u8; 4]>>,
    Error,
>)
    requires
        properties@.properties.bitmap_width is Some,
        properties@.properties.bitmap_height is Some,
        properties@.properties.bitmap_depth is Some,
        4 * (properties@.properties.bitmap_width->Some_0 as int) * (
        properties@.properties.bitmap_height->Some_0 as int) <= usize::MAX,
    ensures
        match res {
            Ok(m) => {
                &&& properties@.properties.bitmap_depth == Some(32u8)
                &&& matrix_view(m@) == bitd_matrix(
                    data.data@,
                    properties@.properties.bitmap_width->Some_0 as int,
                    properties@.properties.bitmap_height->Some_0 as int,
                )
                &&& m@.len() == properties@.properties.bitmap_height->Some_0 as int
            },
            Err(e) => {
                &&& properties@.properties.bitmap_depth->Some_0 != 32
                &&& e == Error::UnsupportedBitmapDepth(
                    properties@.properties.bitmap_depth->Some_0,
                )
            },
        },
{
    let w = match properties.properties.bitmap_width {
        Some(w) => w,
        None => {
            proof {
                assert(false);
            }
            return Err(Error::Io);
        },
    };
    let h = match properties.properties.bitmap_height {
        Some(h) => h,
        None => {
            proof {
                assert(false);
            }
            return Err(Error::Io);
        },
    };
    let d = match properties.properties.bitmap_depth {
        Some(d) => d,
        None => {
            proof {
                assert(false);
            }
            return Err(Error::Io);
        },
    };
    if d != 32 {
        return Err(Error::UnsupportedBitmapDepth(d));
    }
    let matrix = match crate::bitmap::expand_rle(w, h, &data.data, false) {
        Ok(mx) => mx,
        Err(e) => {
            proof {
                assert(false);
            }
            return Err(e);
        },
    };
    proof {
        assert(matrix_view(matrix@) =~~= bitd_matrix(data.data@, w as int, h as int));
    }
    Ok(matrix)
}

/// Every resource id below the used count names a chunk that lies inside
/// the file: offset plus size never passes the end.
pub proof fn lemma_mmap_rows_in_file(df: DirectorFileView, flen: int, i: int)
    requires
        wf_container(df, flen),
        0 <= i < df.mmap.len(),
    ensures
        df.mmap[i].offset + df.mmap[i].size <= flen,
{
}

/// Every key edge resolves: the owned id indexes the memory map, and the
/// row it names carries the key's own kind tag.
pub proof fn lemma_key_edges_resolve(df: DirectorFileView, flen: int, i: int)
    requires
        wf_container(df, flen),
        0 <= i < df.key.len(),
    ensures
        df.key[i].owned < df.mmap.len(),
        df.mmap[df.key[i].owned as int].chunk == df.key[i].chunk,
{
}

/// A successful lookup yields a valid resource id whose row carries the
/// looked-up tag.
pub proof fn lemma_lookup_resolves(
    df: DirectorFileView,
    flen: int,
    owner: u32,
    tag: crate::chunk::FourCC,
)
    requires
        wf_container(df, flen),
        key::spec_lookup(df.key, owner, tag) is Some,
    ensures
        key::spec_lookup(df.key, owner, tag)->Some_0 < df.mmap.len(),
        df.mmap[key::spec_lookup(df.key, owner, tag)->Some_0 as int].chunk == tag,
{
    key::lemma_lookup_found(df.key, owner, tag);
}

/// Parsing is a function of the bytes alone: two reads of equal bytes give
/// equal containers. Each parse call's result is pinned to
/// `spec_parse_base` of its stream, so equal streams decode to equal
/// object graphs.
pub proof fn lemma_parse_deterministic(s1: Seq<u8>, s2: Seq<u8>)
    requires
        s1 == s2,
    ensures
        spec_parse_base(s1) == spec_parse_base(s2),
{
}

} // verus!
