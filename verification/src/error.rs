use vstd::prelude::*;

use crate::chunk::FourCC;

verus! {

/// The ways a Director container can fail to decode.
///
/// `Io` stands for every failure of the underlying byte source; with an
/// in-memory source that is exactly a read or seek past the end of the data.
#[derive(Clone, Copy, PartialEq, Eq, Structural, Debug)]
pub enum Error {
    /// A read went past the end of the byte source.
    Io,
    /// The preamble tag was neither `RIFX` nor `XFIR`.
    MalformedHeader,
    /// A chunk decoder saw a mismatched magic: (expected, found).
    MalformedChunk(FourCC, FourCC),
    /// A `CASt` kind field outside the known range.
    UnknownCastKind(u32),
    /// A bitmap member whose bit depth is not 32.
    UnsupportedBitmapDepth(u8),
    /// The RLE stream ended before the pixel matrix was filled (strict mode).
    TruncatedBitmap,
    /// A length-prefixed string was not valid UTF-8.
    InvalidUtf8,
    /// A table-derived offset or resource id does not fit the file.
    InvalidOffset,
}

} // verus!
