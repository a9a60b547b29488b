use vstd::prelude::*;

use vstd::utf8::is_continuation_byte;
use vstd::utf8::length_of_first_scalar;
use vstd::utf8::pop_first_scalar;
use vstd::utf8::valid_first_scalar;
use vstd::utf8::valid_utf8;

verus! {

/// Range-based form of "starts with one well-formed UTF-8 scalar": the shape
/// a byte-wise validator can check directly, shown equal below to vstd's
/// `valid_first_scalar`.
pub open spec fn scalar_head_ok(t: Seq<u8>) -> bool {
    t.len() >= 1 && {
        let b0 = t[0];
        ||| b0 < 0x80
        ||| (0xc2 <= b0 < 0xe0 && t.len() >= 2 && is_continuation_byte(t[1]))
        ||| (0xe0 <= b0 < 0xf0 && t.len() >= 3 && is_continuation_byte(t[1])
            && is_continuation_byte(t[2]) && (b0 == 0xe0 ==> t[1] >= 0xa0) && (b0 == 0xed ==> t[1]
            <= 0x9f))
        ||| (0xf0 <= b0 < 0xf5 && t.len() >= 4 && is_continuation_byte(t[1])
            && is_continuation_byte(t[2]) && is_continuation_byte(t[3]) && (b0 == 0xf0 ==> t[1]
            >= 0x90) && (b0 == 0xf4 ==> t[1] <= 0x8f))
    }
}

/// The byte length of the scalar that `scalar_head_ok` accepted.
pub open spec fn scalar_head_len(t: Seq<u8>) -> int {
    if t[0] < 0x80 {
        1
    } else if t[0] < 0xe0 {
        2
    } else if t[0] < 0xf0 {
        3
    } else {
        4
    }
}

/// The range-based head test agrees with vstd's `valid_first_scalar`, and on
/// acceptance the scalar's length is fixed by the leading byte alone.
pub proof fn lemma_scalar_head(t: Seq<u8>)
    requires
        t.len() >= 1,
    ensures
        valid_first_scalar(t) == scalar_head_ok(t),
        scalar_head_ok(t) ==> length_of_first_scalar(t) == scalar_head_len(t),
{
    let b0 = t[0];
    if b0 < 0x80 {
        assert((b0 & 0x7f) < 0xd800) by (bit_vector);
    } else if b0 < 0xc0 {
        // a bare continuation byte leads nothing
    } else if b0 < 0xc2 {
        // overlong two-byte form
        if t.len() >= 2 {
            let b1 = t[1];
            assert(0xc0 <= b0 <= 0xc1 ==> ((((b0 & 0x1f) as u32) << 6) | ((b1 & 0x3f) as u32))
                < 0x80) by (bit_vector);
        }
    } else if b0 < 0xe0 {
        if t.len() >= 2 && is_continuation_byte(t[1]) {
            let b1 = t[1];
            assert(0xc2 <= b0 <= 0xdf && 0x80 <= b1 <= 0xbf ==> 0x80 <= ((((b0 & 0x1f) as u32)
                << 6) | ((b1 & 0x3f) as u32)) && ((((b0 & 0x1f) as u32) << 6) | ((b1
                & 0x3f) as u32)) < 0xd800) by (bit_vector);
        }
    } else if b0 < 0xf0 {
        if t.len() >= 3 && is_continuation_byte(t[1]) && is_continuation_byte(t[2]) {
            let b1 = t[1];
            let b2 = t[2];
            assert(0xe0 <= b0 <= 0xef && 0x80 <= b1 <= 0xbf && 0x80 <= b2 <= 0xbf ==> {
                &&& ((((((b0 & 0x0f) as u32) << 12) | (((b1 & 0x3f) as u32) << 6)) | ((b2
                    & 0x3f) as u32)) >= 0x800) == (b0 != 0xe0 || b1 >= 0xa0)
                &&& (0xd800 <= (((((b0 & 0x0f) as u32) << 12) | (((b1 & 0x3f) as u32) << 6)) | ((b2
                    & 0x3f) as u32)) <= 0xdfff) == (b0 == 0xed && b1 >= 0xa0)
            }) by (bit_vector);
        }
    } else if b0 < 0xf8 {
        if t.len() >= 4 && is_continuation_byte(t[1]) && is_continuation_byte(t[2])
            && is_continuation_byte(t[3]) {
            let b1 = t[1];
            let b2 = t[2];
            let b3 = t[3];
            assert(0xf0 <= b0 <= 0xf7 && 0x80 <= b1 <= 0xbf && 0x80 <= b2 <= 0xbf && 0x80 <= b3
                <= 0xbf ==> {
                &&& ((0x10000 <= ((((((b0 & 0x07) as u32) << 18) | (((b1 & 0x3f) as u32) << 12)) | (((
                    b2 & 0x3f) as u32) << 6)) | ((b3 & 0x3f) as u32))) == (b0 != 0xf0 || b1
                    >= 0x90))
                &&& ((((((((b0 & 0x07) as u32) << 18) | (((b1 & 0x3f) as u32) << 12)) | (((b2
                    & 0x3f) as u32) << 6)) | ((b3 & 0x3f) as u32)) <= 0x10ffff) == (b0 < 0xf4 || (b0
                    == 0xf4 && b1 <= 0x8f)))
            }) by (bit_vector);
        }
    } else {
        // 0xf8..0xff lead no UTF-8 scalar
    }
}

/// Check that the bytes form a valid UTF-8 encoding, in the sense of vstd's
/// `valid_utf8`.
pub fn check_utf8(v: &Vec<u8>) -> (b: bool)
    ensures
        b == valid_utf8(v@),
{
    let n = v.len();
    let mut i: usize = 0;
    proof {
        assert(v@.skip(0) =~= v@);
    }
    while i < n
        invariant
            i <= n,
            n == v@.len(),
            valid_utf8(v@) == valid_utf8(v@.skip(i as int)),
        decreases n - i,
    {
        let ghost sfx = v@.skip(i as int);
        proof {
            lemma_scalar_head(sfx);
        }
        let b0 = v[i];
        let width: usize = if b0 < 0x80 {
            1
        } else if b0 < 0xc2 {
            return false;
        } else if b0 < 0xe0 {
            if n - i < 2 || !is_cont(v[i + 1]) {
                return false;
            }
            2
        } else if b0 < 0xf0 {
            if n - i < 3 || !is_cont(v[i + 1]) || !is_cont(v[i + 2]) {
                return false;
            }
            if b0 == 0xe0 && v[i + 1] < 0xa0 {
                return false;
            }
            if b0 == 0xed && v[i + 1] > 0x9f {
                return false;
            }
            3
        } else if b0 < 0xf5 {
            if n - i < 4 || !is_cont(v[i + 1]) || !is_cont(v[i + 2]) || !is_cont(v[i + 3]) {
                return false;
            }
            if b0 == 0xf0 && v[i + 1] < 0x90 {
                return false;
            }
            if b0 == 0xf4 && v[i + 1] > 0x8f {
                return false;
            }
            4
        } else {
            return false;
        };
        proof {
            assert(scalar_head_ok(sfx));
            assert(length_of_first_scalar(sfx) == width as int);
            assert(pop_first_scalar(sfx) =~= v@.skip(i as int + width as int));
        }
        i = i + width;
    }
    proof {
        assert(v@.skip(n as int).len() == 0);
    }
    true
}

/// True for a UTF-8 continuation byte.
fn is_cont(b: u8) -> (r: bool)
    ensures
        r == is_continuation_byte(b),
{
    0x80 <= b && b <= 0xbf
}

} // verus!
