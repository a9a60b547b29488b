use vstd::prelude::*;

use vstd::utf8::valid_utf8;

use crate::chunk::fourcc;
use crate::chunk::fourcc_at;
use crate::chunk::read_fourcc;
use crate::chunk::FourCC;
use crate::endian::be_word16;
use crate::endian::be_word32;
use crate::endian::BigEndian;
use crate::endian::Endian;
use crate::endian::Endianness;
use crate::endian::Reader;
use crate::error::Error;
use crate::text::check_utf8;

verus! {

/// The fifteen cast-member kinds a `CASt` chunk can carry.
#[derive(Clone, Copy, PartialEq, Eq, Structural, Debug)]
pub enum CastKind {
    Bitmap,
    FilmLoop,
    StyledText,
    Palette,
    Picture,
    Sound,
    Button,
    Shape,
    Movie,
    DigitalVideo,
    Script,
    Text,
    OLE,
    Transition,
    Xtra,
}

/// The kind encoded by a `CASt` kind field, or none for a value outside
/// the known range.
pub open spec fn spec_kind_of(v: u32) -> Option<CastKind> {
    if v == 1 {
        Some(CastKind::Bitmap)
    } else if v == 2 {
        Some(CastKind::FilmLoop)
    } else if v == 3 {
        Some(CastKind::StyledText)
    } else if v == 4 {
        Some(CastKind::Palette)
    } else if v == 5 {
        Some(CastKind::Picture)
    } else if v == 6 {
        Some(CastKind::Sound)
    } else if v == 7 {
        Some(CastKind::Button)
    } else if v == 8 {
        Some(CastKind::Shape)
    } else if v == 9 {
        Some(CastKind::Movie)
    } else if v == 10 {
        Some(CastKind::DigitalVideo)
    } else if v == 11 {
        Some(CastKind::Script)
    } else if v == 12 {
        Some(CastKind::Text)
    } else if v == 13 {
        Some(CastKind::OLE)
    } else if v == 14 {
        Some(CastKind::Transition)
    } else if v == 15 {
        Some(CastKind::Xtra)
    } else {
        None
    }
}

/// Map a `CASt` kind field to its kind.
pub fn kind_of(v: u32) -> (res: Result<CastKind, Error>)
    ensures
        match res {
            Ok(k) => spec_kind_of(v) == Some(k),
            Err(e) => spec_kind_of(v) is None && e == Error::UnknownCastKind(v),
        },
{
    match v {
        1 => Ok(CastKind::Bitmap),
        2 => Ok(CastKind::FilmLoop),
        3 => Ok(CastKind::StyledText),
        4 => Ok(CastKind::Palette),
        5 => Ok(CastKind::Picture),
        6 => Ok(CastKind::Sound),
        7 => Ok(CastKind::Button),
        8 => Ok(CastKind::Shape),
        9 => Ok(CastKind::Movie),
        10 => Ok(CastKind::DigitalVideo),
        11 => Ok(CastKind::Script),
        12 => Ok(CastKind::Text),
        13 => Ok(CastKind::OLE),
        14 => Ok(CastKind::Transition),
        15 => Ok(CastKind::Xtra),
        _ => Err(Error::UnknownCastKind(v)),
    }
}

/// The property keys the decoder understands. Other indexed properties are
/// consumed and dropped.
#[derive(Clone, Copy, PartialEq, Eq, Structural, Debug)]
pub enum CastProperty {
    Name,
    XtraName,
    BitmapWidth,
    BitmapHeight,
    BitmapDepth,
}

/// The decoded properties of one member: each key has a fixed value type,
/// so the map is a record of optional fields.
#[derive(Debug)]
pub struct PropertyMap {
    pub name: Option<Vec<u8>>,
    pub xtra_name: Option<Vec<u8>>,
    pub bitmap_width: Option<u16>,
    pub bitmap_height: Option<u16>,
    pub bitmap_depth: Option<u8>,
}

/// The mathematical image of a `PropertyMap`.
pub struct PropertyMapView {
    pub name: Option<Seq<u8>>,
    pub xtra_name: Option<Seq<u8>>,
    pub bitmap_width: Option<u16>,
    pub bitmap_height: Option<u16>,
    pub bitmap_depth: Option<u8>,
}

/// The view of an optional byte buffer.
pub open spec fn view_opt_bytes(o: Option<Vec<u8>>) -> Option<Seq<u8>> {
    match o {
        Some(v) => Some(v@),
        None => None,
    }
}

impl View for PropertyMap {
    type V = PropertyMapView;

    open spec fn view(&self) -> PropertyMapView {
        PropertyMapView {
            name: view_opt_bytes(self.name),
            xtra_name: view_opt_bytes(self.xtra_name),
            bitmap_width: self.bitmap_width,
            bitmap_height: self.bitmap_height,
            bitmap_depth: self.bitmap_depth,
        }
    }
}

impl PropertyMap {
    /// True when the given key carries a value.
    pub fn contains(&self, key: CastProperty) -> (r: bool)
        ensures
            r == match key {
                CastProperty::Name => self@.name is Some,
                CastProperty::XtraName => self@.xtra_name is Some,
                CastProperty::BitmapWidth => self@.bitmap_width is Some,
                CastProperty::BitmapHeight => self@.bitmap_height is Some,
                CastProperty::BitmapDepth => self@.bitmap_depth is Some,
            },
    {
        match key {
            CastProperty::Name => self.name.is_some(),
            CastProperty::XtraName => self.xtra_name.is_some(),
            CastProperty::BitmapWidth => self.bitmap_width.is_some(),
            CastProperty::BitmapHeight => self.bitmap_height.is_some(),
            CastProperty::BitmapDepth => self.bitmap_depth.is_some(),
        }
    }
}

/// One decoded `CASt` chunk: the member kind and its property record.
#[derive(Debug)]
pub struct CastProperties {
    pub kind: CastKind,
    pub properties: PropertyMap,
}

/// The mathematical image of a `CastProperties`.
pub struct CastPropertiesView {
    pub kind: CastKind,
    pub properties: PropertyMapView,
}

impl View for CastProperties {
    type V = CastPropertiesView;

    open spec fn view(&self) -> CastPropertiesView {
        CastPropertiesView { kind: self.kind, properties: self.properties@ }
    }
}

impl CastProperties {
    pub fn kind(&self) -> (k: CastKind)
        ensures
            k == self.kind,
    {
        self.kind
    }

    pub fn properties(&self) -> (p: &PropertyMap)
        ensures
            p == &self.properties,
    {
        &self.properties
    }
}

/// The `CASt` chunk tag.
pub open spec fn tag_cast() -> FourCC {
    fourcc(0x43, 0x41, 0x53, 0x74)
}

/// The walk over the property blobs. `offs` holds `offset_count + 1`
/// inclusive start bounds; property `i` has length `offs[i+1] - offs[i]`,
/// and the walk fails when the offsets decrease. Property 1 is the name:
/// one length byte, clamped to the blob, then that many bytes (the rest of
/// the blob, if any, is left in place, as the on-disk producers leave none).
/// Property 10 is the xtra name, whose trailing NUL is kept. Every other
/// property is consumed and dropped.
pub open spec fn spec_parse_props(
    s: Seq<u8>,
    offs: Seq<u32>,
    i: int,
    pos: int,
    name: Option<Seq<u8>>,
    xtra: Option<Seq<u8>>,
) -> Result<(Option<Seq<u8>>, Option<Seq<u8>>, int), Error>
    decreases offs.len() - i,
{
    if i < 0 || i + 1 >= offs.len() {
        Ok((name, xtra, pos))
    } else if offs[i] > offs[i + 1] {
        Err(Error::MalformedChunk(tag_cast(), tag_cast()))
    } else {
        let l = offs[i + 1] - offs[i];
        if l == 0 {
            spec_parse_props(s, offs, i + 1, pos, name, xtra)
        } else if i == 1 {
            if pos + 1 > s.len() {
                Err(Error::Io)
            } else {
                let sl0 = s[pos] as int;
                let sl = if sl0 > l - 1 {
                    l - 1
                } else {
                    sl0
                };
                if pos + 1 + sl > s.len() {
                    Err(Error::Io)
                } else {
                    let bytes = s.subrange(pos + 1, pos + 1 + sl);
                    if !valid_utf8(bytes) {
                        Err(Error::InvalidUtf8)
                    } else {
                        spec_parse_props(s, offs, i + 1, pos + 1 + sl, Some(bytes), xtra)
                    }
                }
            }
        } else if i == 10 {
            if pos + l > s.len() {
                Err(Error::Io)
            } else {
                let bytes = s.subrange(pos, pos + l);
                if !valid_utf8(bytes) {
                    Err(Error::InvalidUtf8)
                } else {
                    spec_parse_props(s, offs, i + 1, pos + l, name, Some(bytes))
                }
            }
        } else {
            if pos + l > s.len() {
                Err(Error::Io)
            } else {
                spec_parse_props(s, offs, i + 1, pos + l, name, xtra)
            }
        }
    }
}

/// The sum of the property lengths `offs[j+1] - offs[j]` for `j >= i`.
pub open spec fn sum_prop_lens(offs: Seq<u32>, i: int) -> int
    decreases offs.len() - i,
{
    if i < 0 || i + 1 >= offs.len() {
        0
    } else {
        (offs[i + 1] - offs[i]) + sum_prop_lens(offs, i + 1)
    }
}

/// For a decodable offset table (offsets non-decreasing), the property
/// lengths from `i` on sum to the final offset minus `offs[i]`.
pub proof fn lemma_prop_lens_telescope_from(offs: Seq<u32>, i: int)
    requires
        0 <= i < offs.len(),
        forall|j: int| 0 <= j < offs.len() - 1 ==> #[trigger] offs[j] <= offs[j + 1],
    ensures
        sum_prop_lens(offs, i) == offs[offs.len() - 1] - offs[i],
    decreases offs.len() - i,
{
    if i + 1 >= offs.len() {
    } else {
        lemma_prop_lens_telescope_from(offs, i + 1);
    }
}

/// For every decodable `CASt` offset table, the property lengths sum to
/// `offs[offset_count] - offs[0]`: the property blobs exactly span the
/// declared range.
pub proof fn lemma_prop_lens_telescope(offs: Seq<u32>)
    requires
        offs.len() >= 1,
        forall|j: int| 0 <= j < offs.len() - 1 ==> #[trigger] offs[j] <= offs[j + 1],
    ensures
        sum_prop_lens(offs, 0) == offs[offs.len() - 1] - offs[0],
{
    lemma_prop_lens_telescope_from(offs, 0);
}


/// A property walk that succeeds saw no decreasing pair of offsets.
pub proof fn lemma_props_ok_offsets_sorted(
    s: Seq<u8>,
    offs: Seq<u32>,
    i: int,
    pos: int,
    name: Option<Seq<u8>>,
    xtra: Option<Seq<u8>>,
)
    requires
        0 <= i,
        spec_parse_props(s, offs, i, pos, name, xtra) is Ok,
    ensures
        forall|j: int| i <= j < offs.len() - 1 ==> #[trigger] offs[j] <= offs[j + 1],
    decreases offs.len() - i,
{
    if i < 0 || i + 1 >= offs.len() {
    } else {
        let l = offs[i + 1] - offs[i];
        if l == 0 {
            lemma_props_ok_offsets_sorted(s, offs, i + 1, pos, name, xtra);
        } else if i == 1 {
            let sl0 = s[pos] as int;
            let sl = if sl0 > l - 1 {
                l - 1
            } else {
                sl0
            };
            let bytes = s.subrange(pos + 1, pos + 1 + sl);
            lemma_props_ok_offsets_sorted(s, offs, i + 1, pos + 1 + sl, Some(bytes), xtra);
        } else if i == 10 {
            let bytes = s.subrange(pos, pos + l);
            lemma_props_ok_offsets_sorted(s, offs, i + 1, pos + l, name, Some(bytes));
        } else {
            lemma_props_ok_offsets_sorted(s, offs, i + 1, pos + l, name, xtra);
        }
    }
}

/// For every `CASt` whose property walk decodes, the property lengths sum
/// to the final offset minus the first: the declared offsets account for
/// the whole property range.
pub proof fn lemma_decoded_props_span(s: Seq<u8>, offs: Seq<u32>, pos: int)
    requires
        offs.len() >= 1,
        spec_parse_props(s, offs, 0, pos, None, None) is Ok,
    ensures
        sum_prop_lens(offs, 0) == offs[offs.len() - 1] - offs[0],
{
    lemma_props_ok_offsets_sorted(s, offs, 0, pos, None, None);
    lemma_prop_lens_telescope(offs);
}

/// The offset table of a `CASt` chunk at `pos`: `n + 1` big-endian words
/// starting at `pos + 42`.
pub open spec fn spec_cast_offsets(s: Seq<u8>, pos: int, n: int) -> Seq<u32> {
    Seq::new((n + 1) as nat, |j: int| be_word32(s.subrange(pos + 42 + 4 * j, pos + 46 + 4 * j)))
}

/// The parse of a `CASt` chunk at `pos`. After the tag and size (container
/// order), every integer is big-endian: the kind, two block sizes, five
/// filler words, the offset count, the offsets, the property blobs, and,
/// for a bitmap member only, the kind-specific block whose rectangle gives
/// `BitmapWidth = right - left`, `BitmapHeight = bottom - top`, and
/// `BitmapDepth`. A rectangle with `right < left` or `bottom < top` is
/// rejected as malformed.
pub open spec fn spec_parse_cast(s: Seq<u8>, big: bool, pos: int) -> Result<
    (CastPropertiesView, int),
    Error,
> {
    if pos + 4 > s.len() {
        Err(Error::Io)
    } else {
        let tag = fourcc_at(s, big, pos);
        if tag != tag_cast() {
            Err(Error::MalformedChunk(tag_cast(), tag))
        } else if pos + 12 > s.len() {
            Err(Error::Io)
        } else {
            let kindv = be_word32(s.subrange(pos + 8, pos + 12));
            match spec_kind_of(kindv) {
                None => Err(Error::UnknownCastKind(kindv)),
                Some(kind) => {
                    if pos + 42 > s.len() {
                        Err(Error::Io)
                    } else {
                        let n = be_word16(s.subrange(pos + 40, pos + 42)) as int;
                        if pos + 46 + 4 * n > s.len() {
                            Err(Error::Io)
                        } else {
                            let offs = spec_cast_offsets(s, pos, n);
                            match spec_parse_props(s, offs, 0, pos + 46 + 4 * n, None, None) {
                                Err(e) => Err(e),
                                Ok((name, xtra, q)) => spec_parse_cast_specific(
                                    s,
                                    kind,
                                    name,
                                    xtra,
                                    q,
                                ),
                            }
                        }
                    }
                },
            }
        }
    }
}

/// The kind-specific block after the property blobs. Only the bitmap block
/// is interpreted; every other kind stops here and leaves the block in
/// place, which the traversal never relies on.
pub open spec fn spec_parse_cast_specific(
    s: Seq<u8>,
    kind: CastKind,
    name: Option<Seq<u8>>,
    xtra: Option<Seq<u8>>,
    q: int,
) -> Result<(CastPropertiesView, int), Error> {
    if kind != CastKind::Bitmap {
        Ok(
            (
                CastPropertiesView {
                    kind: kind,
                    properties: PropertyMapView {
                        name: name,
                        xtra_name: xtra,
                        bitmap_width: None,
                        bitmap_height: None,
                        bitmap_depth: None,
                    },
                },
                q,
            ),
        )
    } else if q + 28 > s.len() {
        Err(Error::Io)
    } else {
        let top = be_word16(s.subrange(q + 2, q + 4));
        let left = be_word16(s.subrange(q + 4, q + 6));
        let bottom = be_word16(s.subrange(q + 6, q + 8));
        let right = be_word16(s.subrange(q + 8, q + 10));
        let depth = s[q + 23];
        if right < left || bottom < top {
            Err(Error::MalformedChunk(tag_cast(), tag_cast()))
        } else {
            Ok(
                (
                    CastPropertiesView {
                        kind: kind,
                        properties: PropertyMapView {
                            name: name,
                            xtra_name: xtra,
                            bitmap_width: Some((right - left) as u16),
                            bitmap_height: Some((bottom - top) as u16),
                            bitmap_depth: Some(depth),
                        },
                    },
                    q + 28,
                ),
            )
        }
    }
}

/// Decode a `CASt` chunk at the cursor.
#[verifier::loop_isolation(false)]
pub fn read_cast<E: Endianness>(r: &mut Reader) -> (res: Result<CastProperties, Error>)
    ensures
        final(r).stream() == old(r).stream(),
        match res {
            Ok(c) => spec_parse_cast(old(r).stream(), E::spec_big(), old(r).posn()) == Ok::<
                _,
                Error,
            >((c@, final(r).posn())),
            Err(e) => spec_parse_cast(old(r).stream(), E::spec_big(), old(r).posn()) == Err::<
                (CastPropertiesView, int),
                _,
            >(e),
        },
{
    let ghost s = r.stream();
    let ghost big = E::spec_big();
    let ghost pos0 = r.posn();
    let tag = read_fourcc::<E>(r)?;
    let expected = FourCC::new(0x43, 0x41, 0x53, 0x74);
    if tag != expected {
        return Err(Error::MalformedChunk(expected, tag));
    }
    let _size = r.read_u32::<E>()?;
    let kindv = r.read_u32::<BigEndian>()?;
    let kind = kind_of(kindv)?;
    let _a = r.read_u32::<BigEndian>()?;
    let _b = r.read_u32::<BigEndian>()?;
    let _c = r.read_u32::<BigEndian>()?;
    let _d = r.read_u32::<BigEndian>()?;
    let _e = r.read_u32::<BigEndian>()?;
    let _f = r.read_u32::<BigEndian>()?;
    let _g = r.read_u32::<BigEndian>()?;
    let offset_count = r.read_u16::<BigEndian>()?;
    let n = offset_count as usize;
    let ghost offs_spec = spec_cast_offsets(s, pos0, n as int);
    let mut offsets: Vec<u32> = Vec::new();
    let mut j: usize = 0;
    while j < n + 1
        invariant
            j <= n + 1,
            r.stream() == s,
            r.posn() == pos0 + 42 + 4 * (j as int),
            r.posn() <= s.len(),
            offsets@ =~= offs_spec.subrange(0, j as int),
        decreases n + 1 - j,
    {
        let o = match r.read_u32::<BigEndian>() {
            Ok(v) => v,
            Err(_) => {
                return Err(Error::Io);
            },
        };
        offsets.push(o);
        proof {
            assert(offsets@ =~= offs_spec.subrange(0, j as int + 1));
        }
        j = j + 1;
    }
    proof {
        assert(offsets@ =~= offs_spec);
    }
    let ghost blob_base = pos0 + 46 + 4 * (n as int);
    assert(r.posn() == blob_base);
    let mut name: Option<Vec<u8>> = None;
    let mut xtra: Option<Vec<u8>> = None;
    let mut i: usize = 0;
    while i < n
        invariant
            i <= n,
            r.stream() == s,
            r.posn() <= s.len(),
            offsets@ == offs_spec,
            offsets@.len() == n + 1,
            spec_parse_props(s, offs_spec, 0, blob_base, None, None) == spec_parse_props(
                s,
                offs_spec,
                i as int,
                r.posn(),
                view_opt_bytes(name),
                view_opt_bytes(xtra),
            ),
        decreases n - i,
    {
        let ghost pre_pos = r.posn();
        let ghost pre_name = view_opt_bytes(name);
        let ghost pre_xtra = view_opt_bytes(xtra);
        if offsets[i + 1] < offsets[i] {
            return Err(Error::MalformedChunk(expected, expected));
        }
        let l = offsets[i + 1] - offsets[i];
        if l == 0 {
        } else if i == 1 {
            let str_len = match r.read_u8() {
                Ok(v) => v,
                Err(_) => {
                    return Err(Error::Io);
                },
            };
            let sl = if (str_len as u32) > l - 1 {
                (l - 1) as usize
            } else {
                str_len as usize
            };
            let bytes = match r.read_raw(sl) {
                Ok(v) => v,
                Err(_) => {
                    return Err(Error::Io);
                },
            };
            if !check_utf8(&bytes) {
                return Err(Error::InvalidUtf8);
            }
            name = Some(bytes);
        } else if i == 10 {
            let bytes = match r.read_raw(l as usize) {
                Ok(v) => v,
                Err(_) => {
                    return Err(Error::Io);
                },
            };
            if !check_utf8(&bytes) {
                return Err(Error::InvalidUtf8);
            }
            xtra = Some(bytes);
        } else {
            let _scrap = match r.read_raw(l as usize) {
                Ok(v) => v,
                Err(_) => {
                    return Err(Error::Io);
                },
            };
        }
        proof {
            assert(spec_parse_props(s, offs_spec, i as int, pre_pos, pre_name, pre_xtra)
                == spec_parse_props(
                s,
                offs_spec,
                i as int + 1,
                r.posn(),
                view_opt_bytes(name),
                view_opt_bytes(xtra),
            ));
        }
        i = i + 1;
    }
    let ghost q = r.posn();
    proof {
        assert(spec_parse_props(s, offs_spec, n as int, q, view_opt_bytes(name), view_opt_bytes(
            xtra,
        )) == Ok::<(Option<Seq<u8>>, Option<Seq<u8>>, int), Error>((view_opt_bytes(name),
        view_opt_bytes(xtra), q)));
    }
    let is_bitmap = match kind {
        CastKind::Bitmap => true,
        _ => false,
    };
    if !is_bitmap {
        let properties = PropertyMap {
            name,
            xtra_name: xtra,
            bitmap_width: None,
            bitmap_height: None,
            bitmap_depth: None,
        };
        return Ok(CastProperties { kind, properties });
    }
    let _s0 = r.read_u16::<BigEndian>()?;
    let top = r.read_u16::<BigEndian>()?;
    let left = r.read_u16::<BigEndian>()?;
    let bottom = r.read_u16::<BigEndian>()?;
    let right = r.read_u16::<BigEndian>()?;
    let _s1 = r.read_u32::<BigEndian>()?;
    let _s2 = r.read_u32::<BigEndian>()?;
    let _px = r.read_u16::<BigEndian>()?;
    let _py = r.read_u16::<BigEndian>()?;
    let _s3 = r.read_u8()?;
    let depth = r.read_u8()?;
    let _s4 = r.read_u16::<BigEndian>()?;
    let _s5 = r.read_u16::<BigEndian>()?;
    if right < left || bottom < top {
        return Err(Error::MalformedChunk(expected, expected));
    }
    let width = right - left;
    let height = bottom - top;
    let properties = PropertyMap {
        name,
        xtra_name: xtra,
        bitmap_width: Some(width),
        bitmap_height: Some(height),
        bitmap_depth: Some(depth),
    };
    Ok(CastProperties { kind, properties })
}

} // verus!
