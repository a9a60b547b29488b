use vstd::prelude::*;

use crate::error::Error;

verus! {

/// Marker type selecting big-endian byte order.
pub struct BigEndian;

/// Marker type selecting little-endian byte order.
pub struct LittleEndian;

/// A byte order, chosen once per container from its header.
pub trait Endianness {
    /// True for the big-endian order.
    spec fn spec_big() -> bool;

    fn is_big_endian() -> (b: bool)
        ensures
            b == Self::spec_big(),
    ;
}

impl Endianness for BigEndian {
    open spec fn spec_big() -> bool {
        true
    }

    fn is_big_endian() -> (b: bool) {
        true
    }
}

impl Endianness for LittleEndian {
    open spec fn spec_big() -> bool {
        false
    }

    fn is_big_endian() -> (b: bool) {
        false
    }
}

/// The value of two bytes read big-endian.
pub open spec fn be_word16(s: Seq<u8>) -> u16 {
    ((s[0] as int) * 0x100 + (s[1] as int)) as u16
}

/// The value of two bytes read little-endian.
pub open spec fn le_word16(s: Seq<u8>) -> u16 {
    ((s[1] as int) * 0x100 + (s[0] as int)) as u16
}

/// The value of two bytes under the given order.
pub open spec fn word16(big: bool, s: Seq<u8>) -> u16 {
    if big {
        be_word16(s)
    } else {
        le_word16(s)
    }
}

/// The value of four bytes read big-endian.
pub open spec fn be_word32(s: Seq<u8>) -> u32 {
    ((s[0] as int) * 0x1000000 + (s[1] as int) * 0x10000 + (s[2] as int) * 0x100 + (
    s[3] as int)) as u32
}

/// The value of four bytes read little-endian.
pub open spec fn le_word32(s: Seq<u8>) -> u32 {
    ((s[3] as int) * 0x1000000 + (s[2] as int) * 0x10000 + (s[1] as int) * 0x100 + (
    s[0] as int)) as u32
}

/// The value of four bytes under the given order.
pub open spec fn word32(big: bool, s: Seq<u8>) -> u32 {
    if big {
        be_word32(s)
    } else {
        le_word32(s)
    }
}

/// The value of eight bytes read big-endian.
pub open spec fn be_word64(s: Seq<u8>) -> u64 {
    ((s[0] as int) * 0x100000000000000 + (s[1] as int) * 0x1000000000000 + (s[2] as int)
        * 0x10000000000 + (s[3] as int) * 0x100000000 + (s[4] as int) * 0x1000000 + (s[5] as int)
        * 0x10000 + (s[6] as int) * 0x100 + (s[7] as int)) as u64
}

/// The value of eight bytes read little-endian.
pub open spec fn le_word64(s: Seq<u8>) -> u64 {
    ((s[7] as int) * 0x100000000000000 + (s[6] as int) * 0x1000000000000 + (s[5] as int)
        * 0x10000000000 + (s[4] as int) * 0x100000000 + (s[3] as int) * 0x1000000 + (s[2] as int)
        * 0x10000 + (s[1] as int) * 0x100 + (s[0] as int)) as u64
}

/// The value of eight bytes under the given order.
pub open spec fn word64(big: bool, s: Seq<u8>) -> u64 {
    if big {
        be_word64(s)
    } else {
        le_word64(s)
    }
}

/// The big-endian bytes of a 32-bit value, most significant first.
pub open spec fn be_bytes32(v: u32) -> Seq<u8> {
    seq![
        (((v >> 24) & 0xff) as u8),
        (((v >> 16) & 0xff) as u8),
        (((v >> 8) & 0xff) as u8),
        ((v & 0xff) as u8),
    ]
}

/// The little-endian bytes of a 32-bit value, least significant first.
pub open spec fn le_bytes32(v: u32) -> Seq<u8> {
    seq![
        ((v & 0xff) as u8),
        (((v >> 8) & 0xff) as u8),
        (((v >> 16) & 0xff) as u8),
        (((v >> 24) & 0xff) as u8),
    ]
}

/// Writing a 32-bit value big-endian and reading it back under the big order
/// returns the value unchanged.
pub proof fn lemma_be_word32_roundtrip(v: u32)
    ensures
        word32(true, be_bytes32(v)) == v,
{
    assert((((v >> 24) & 0xff) as u8) * 0x1000000 + (((v >> 16) & 0xff) as u8) * 0x10000 + (((v
        >> 8) & 0xff) as u8) * 0x100 + ((v & 0xff) as u8) == v) by (bit_vector);
}

/// Writing a 32-bit value little-endian and reading it back under the little
/// order returns the value unchanged.
pub proof fn lemma_le_word32_roundtrip(v: u32)
    ensures
        word32(false, le_bytes32(v)) == v,
{
    assert((((v >> 24) & 0xff) as u8) * 0x1000000 + (((v >> 16) & 0xff) as u8) * 0x10000 + (((v
        >> 8) & 0xff) as u8) * 0x100 + ((v & 0xff) as u8) == v) by (bit_vector);
}

/// An in-memory seekable byte source: the container bytes plus a cursor.
pub struct Reader {
    pub data: Vec<u8>,
    pub pos: usize,
}

impl Reader {
    /// The bytes of the source, unchanged by any read or seek.
    pub open spec fn stream(&self) -> Seq<u8> {
        self.data@
    }

    /// The cursor, as an absolute offset into the stream.
    pub open spec fn posn(&self) -> int {
        self.pos as int
    }

    /// True when `n` more bytes can be read at the cursor.
    pub open spec fn can_read(&self, n: int) -> bool {
        self.posn() + n <= self.stream().len()
    }

    pub fn new(data: Vec<u8>) -> (r: Reader)
        ensures
            r.stream() == data@,
            r.posn() == 0,
    {
        Reader { data, pos: 0 }
    }

    /// The total size of the stream.
    pub fn size(&self) -> (n: usize)
        ensures
            n == self.stream().len(),
    {
        self.data.len()
    }

    /// Absolute seek. Seeking past the end is allowed; reads there fail.
    pub fn seek(&mut self, pos: usize)
        ensures
            final(self).stream() == old(self).stream(),
            final(self).posn() == pos as int,
    {
        self.pos = pos;
    }

    /// Consume `n` bytes verbatim.
    pub fn read_raw(&mut self, n: usize) -> (r: Result<Vec<u8>, Error>)
        ensures
            final(self).stream() == old(self).stream(),
            match r {
                Ok(v) => {
                    &&& old(self).can_read(n as int)
                    &&& final(self).posn() == old(self).posn() + n
                    &&& v@ == old(self).stream().subrange(old(self).posn(), old(self).posn() + n)
                },
                Err(e) => {
                    &&& !old(self).can_read(n as int)
                    &&& e == Error::Io
                    &&& final(self).posn() == old(self).posn()
                },
            },
    {
        if self.pos > self.data.len() || n > self.data.len() - self.pos {
            return Err(Error::Io);
        }
        let mut v: Vec<u8> = Vec::new();
        let mut i: usize = 0;
        while i < n
            invariant
                i <= n,
                self.pos + n <= self.data.len(),
                v@ == self.data@.subrange(self.pos as int, self.pos + i),
            decreases n - i,
        {
            v.push(self.data[self.pos + i]);
            i = i + 1;
            assert(v@ == self.data@.subrange(self.pos as int, self.pos + i));
        }
        self.pos = self.pos + n;
        Ok(v)
    }
}

/// Endian-aware reads over a byte source, as the chunk decoders use them.
pub trait Endian {
    /// The bytes of the source.
    spec fn bytes(&self) -> Seq<u8>;

    /// The cursor.
    spec fn cursor(&self) -> int;

    /// Read `n` bytes; under the little order the buffer is reversed after
    /// reading, which restores structural fourCC tags to logical order.
    fn read_bytes<E: Endianness>(&mut self, n: usize) -> (r: Result<Vec<u8>, Error>)
        ensures
            final(self).bytes() == old(self).bytes(),
            match r {
                Ok(v) => {
                    &&& old(self).cursor() + n <= old(self).bytes().len()
                    &&& final(self).cursor() == old(self).cursor() + n
                    &&& v@ == if E::spec_big() {
                        old(self).bytes().subrange(old(self).cursor(), old(self).cursor() + n)
                    } else {
                        old(self).bytes().subrange(old(self).cursor(), old(self).cursor() + n).reverse()
                    }
                },
                Err(e) => {
                    &&& old(self).cursor() + n > old(self).bytes().len()
                    &&& e == Error::Io
                },
            },
    ;

    fn read_u8(&mut self) -> (r: Result<u8, Error>)
        ensures
            final(self).bytes() == old(self).bytes(),
            match r {
                Ok(b) => {
                    &&& old(self).cursor() + 1 <= old(self).bytes().len()
                    &&& final(self).cursor() == old(self).cursor() + 1
                    &&& b == old(self).bytes()[old(self).cursor()]
                },
                Err(e) => {
                    &&& old(self).cursor() + 1 > old(self).bytes().len()
                    &&& e == Error::Io
                },
            },
    ;

    fn read_u16<E: Endianness>(&mut self) -> (r: Result<u16, Error>)
        ensures
            final(self).bytes() == old(self).bytes(),
            match r {
                Ok(w) => {
                    &&& old(self).cursor() + 2 <= old(self).bytes().len()
                    &&& final(self).cursor() == old(self).cursor() + 2
                    &&& w == word16(
                        E::spec_big(),
                        old(self).bytes().subrange(old(self).cursor(), old(self).cursor() + 2),
                    )
                },
                Err(e) => {
                    &&& old(self).cursor() + 2 > old(self).bytes().len()
                    &&& e == Error::Io
                },
            },
    ;

    fn read_u32<E: Endianness>(&mut self) -> (r: Result<u32, Error>)
        ensures
            final(self).bytes() == old(self).bytes(),
            match r {
                Ok(w) => {
                    &&& old(self).cursor() + 4 <= old(self).bytes().len()
                    &&& final(self).cursor() == old(self).cursor() + 4
                    &&& w == word32(
                        E::spec_big(),
                        old(self).bytes().subrange(old(self).cursor(), old(self).cursor() + 4),
                    )
                },
                Err(e) => {
                    &&& old(self).cursor() + 4 > old(self).bytes().len()
                    &&& e == Error::Io
                },
            },
    ;

    fn read_u64<E: Endianness>(&mut self) -> (r: Result<u64, Error>)
        ensures
            final(self).bytes() == old(self).bytes(),
            match r {
                Ok(w) => {
                    &&& old(self).cursor() + 8 <= old(self).bytes().len()
                    &&& final(self).cursor() == old(self).cursor() + 8
                    &&& w == word64(
                        E::spec_big(),
                        old(self).bytes().subrange(old(self).cursor(), old(self).cursor() + 8),
                    )
                },
                Err(e) => {
                    &&& old(self).cursor() + 8 > old(self).bytes().len()
                    &&& e == Error::Io
                },
            },
    ;
}

impl Endian for Reader {
    open spec fn bytes(&self) -> Seq<u8> {
        self.stream()
    }

    open spec fn cursor(&self) -> int {
        self.posn()
    }

    fn read_bytes<E: Endianness>(&mut self, n: usize) -> (r: Result<Vec<u8>, Error>) {
        let v = self.read_raw(n)?;
        if E::is_big_endian() {
            Ok(v)
        } else {
            let ghost s = v@;
            let mut w: Vec<u8> = Vec::new();
            let mut i: usize = 0;
            while i < n
                invariant
                    i <= n,
                    v@ == s,
                    s.len() == n,
                    w@ =~= s.reverse().subrange(0, i as int),
                decreases n - i,
            {
                w.push(v[n - 1 - i]);
                i = i + 1;
                assert(w@ =~= s.reverse().subrange(0, i as int));
            }
            assert(w@ =~= s.reverse());
            Ok(w)
        }
    }

    fn read_u8(&mut self) -> (r: Result<u8, Error>) {
        let v = self.read_raw(1)?;
        Ok(v[0])
    }

    fn read_u16<E: Endianness>(&mut self) -> (r: Result<u16, Error>) {
        let v = self.read_raw(2)?;
        let w = if E::is_big_endian() {
            (v[0] as u16) * 0x100 + (v[1] as u16)
        } else {
            (v[1] as u16) * 0x100 + (v[0] as u16)
        };
        Ok(w)
    }

    fn read_u32<E: Endianness>(&mut self) -> (r: Result<u32, Error>) {
        let v = self.read_raw(4)?;
        let w = if E::is_big_endian() {
            (v[0] as u32) * 0x1000000 + (v[1] as u32) * 0x10000 + (v[2] as u32) * 0x100 + (
            v[3] as u32)
        } else {
            (v[3] as u32) * 0x1000000 + (v[2] as u32) * 0x10000 + (v[1] as u32) * 0x100 + (
            v[0] as u32)
        };
        Ok(w)
    }

    fn read_u64<E: Endianness>(&mut self) -> (r: Result<u64, Error>) {
        let v = self.read_raw(8)?;
        let w = if E::is_big_endian() {
            (v[0] as u64) * 0x100000000000000 + (v[1] as u64) * 0x1000000000000 + (v[2] as u64)
                * 0x10000000000 + (v[3] as u64) * 0x100000000 + (v[4] as u64) * 0x1000000 + (
            v[5] as u64) * 0x10000 + (v[6] as u64) * 0x100 + (v[7] as u64)
        } else {
            (v[7] as u64) * 0x100000000000000 + (v[6] as u64) * 0x1000000000000 + (v[5] as u64)
                * 0x10000000000 + (v[4] as u64) * 0x100000000 + (v[3] as u64) * 0x1000000 + (
            v[2] as u64) * 0x10000 + (v[1] as u64) * 0x100 + (v[0] as u64)
        };
        Ok(w)
    }
}

} // verus!
