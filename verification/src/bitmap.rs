use vstd::prelude::*;

use crate::error::Error;

verus! {

/// The run-length expansion of a `BITD` payload, opcode by opcode.
///
/// An opcode byte `n >= 128` repeats the next byte `257 - n` times; an
/// opcode `n < 128` copies the next `n + 1` bytes verbatim. A stream that
/// ends inside an opcode yields the bytes that are present: a repeat opcode
/// with no byte after it yields nothing, a literal run yields its available
/// tail.
pub open spec fn rle_expand(p: Seq<u8>) -> Seq<u8>
    decreases p.len(),
{
    if p.len() == 0 {
        Seq::empty()
    } else {
        let n = p[0] as int;
        if n >= 128 {
            if p.len() >= 2 {
                Seq::new((257 - n) as nat, |j: int| p[1]) + rle_expand(p.skip(2))
            } else {
                Seq::empty()
            }
        } else {
            if p.len() >= 2 + n {
                p.subrange(1, 2 + n) + rle_expand(p.skip(2 + n))
            } else {
                p.subrange(1, p.len() as int)
            }
        }
    }
}

/// `s` cut to at most `cap` elements.
pub open spec fn take_at_most(s: Seq<u8>, cap: int) -> Seq<u8> {
    if s.len() <= cap {
        s
    } else {
        s.take(cap)
    }
}

/// The byte of the decoded pixel matrix at row `y`, column `x`, channel
/// plane `c`. The stream fills a row's plane 0 across the full width, then
/// planes 1, 2, 3, then moves to the next row; so the cell's position in
/// the expanded stream is `y*(4*w) + c*w + x`. Beyond the expanded stream
/// the matrix keeps its initial value: 0 on planes 0..3 and 255 on plane 3.
pub open spec fn bitd_cell(p: Seq<u8>, w: int, y: int, x: int, c: int) -> u8 {
    let e = rle_expand(p);
    let k = y * (4 * w) + c * w + x;
    if k < e.len() {
        e[k]
    } else if c == 3 {
        255
    } else {
        0
    }
}

/// Expand the opcode stream into at most `cap` output bytes, consuming
/// opcodes whole and stopping once `cap` bytes exist.
#[verifier::loop_isolation(false)]
#[verifier::rlimit(100)]
fn decode_stream(p: &Vec<u8>, cap: usize) -> (out: Vec<u8>)
    ensures
        out@ == take_at_most(rle_expand(p@), cap as int),
{
    let mut out: Vec<u8> = Vec::new();
    let mut i: usize = 0;
    proof {
        assert(p@.skip(0) =~= p@);
        assert(Seq::<u8>::empty() + rle_expand(p@) =~= rle_expand(p@));
    }
    while i < p.len() && out.len() < cap
        invariant
            i <= p@.len(),
            out@.len() <= cap,
            take_at_most(rle_expand(p@), cap as int) == take_at_most(
                out@ + rle_expand(p@.skip(i as int)),
                cap as int,
            ),
        decreases p@.len() - i, cap - out.len(),
    {
        let ghost pre_out = out@;
        let ghost sfx = p@.skip(i as int);
        let n = p[i];
        if n >= 128 {
            if i + 1 >= p.len() {
                proof {
                    assert(sfx.len() == 1);
                    assert(rle_expand(sfx) =~= Seq::<u8>::empty());
                    assert(p@.skip(p@.len() as int).len() == 0);
                    assert(out@ + rle_expand(sfx) =~= out@ + rle_expand(p@.skip(p@.len() as int)));
                }
                i = p.len();
            } else {
                let b = p[i + 1];
                let run: usize = 257 - (n as usize);
                let ghost runbytes = Seq::new(run as nat, |t: int| b);
                proof {
                    assert(sfx[0] == n && sfx[1] == b && sfx.len() >= 2);
                    assert(sfx.skip(2) =~= p@.skip(i as int + 2));
                    assert(rle_expand(sfx) == runbytes + rle_expand(p@.skip(i as int + 2)));
                }
                let mut j: usize = 0;
                while j < run && out.len() < cap
                    invariant
                        j <= run,
                        out@.len() <= cap,
                        out@ == pre_out + runbytes.subrange(0, j as int),
                    decreases run - j,
                {
                    out.push(b);
                    proof {
                        assert(out@ =~= pre_out + runbytes.subrange(0, j as int + 1));
                    }
                    j = j + 1;
                }
                if j < run {
                    // the matrix filled up inside the run
                    proof {
                        assert(out@.len() == cap);
                        assert(take_at_most(out@ + rle_expand(p@.skip(i as int)), cap as int)
                            =~= out@);
                        assert(take_at_most(pre_out + rle_expand(sfx), cap as int) =~= out@);
                    }
                } else {
                    proof {
                        assert(out@ =~= pre_out + runbytes);
                        assert(out@ + rle_expand(p@.skip(i as int + 2)) =~= pre_out + rle_expand(
                            sfx,
                        ));
                    }
                    i = i + 2;
                }
            }
        } else {
            let run: usize = (n as usize) + 1;
            let avail = p.len() - (i + 1);
            let take_n = if run > avail {
                avail
            } else {
                run
            };
            let ghost lit = p@.subrange(i as int + 1, i as int + 1 + take_n as int);
            let mut j: usize = 0;
            while j < take_n && out.len() < cap
                invariant
                    j <= take_n,
                    i + 1 + take_n <= p@.len(),
                    out@.len() <= cap,
                    out@ == pre_out + lit.subrange(0, j as int),
                decreases take_n - j,
            {
                out.push(p[i + 1 + j]);
                proof {
                    assert(out@ =~= pre_out + lit.subrange(0, j as int + 1));
                }
                j = j + 1;
            }
            if j < take_n {
                // the matrix filled up inside the run
                proof {
                    assert(out@.len() == cap);
                    if take_n < run {
                        assert(sfx.subrange(1, sfx.len() as int) =~= p@.subrange(
                            i as int + 1,
                            p@.len() as int,
                        ));
                        assert(rle_expand(sfx) == p@.subrange(i as int + 1, p@.len() as int));
                        assert(rle_expand(sfx) =~= lit);
                    } else {
                        assert(sfx.subrange(1, 2 + (n as int)) =~= p@.subrange(
                            i as int + 1,
                            i as int + 2 + (n as int),
                        ));
                        assert(sfx.skip(2 + (n as int)) =~= p@.skip(i as int + 2 + (n as int)));
                        assert(rle_expand(sfx) == p@.subrange(i as int + 1, i as int + 2 + (
                        n as int)) + rle_expand(p@.skip(i as int + 2 + (n as int))));
                        assert(p@.subrange(i as int + 1, i as int + 2 + (n as int)) =~= lit);
                    }
                    assert(take_at_most(pre_out + rle_expand(sfx), cap as int) =~= out@);
                }
            } else if take_n < run {
                // the stream ended inside the run
                proof {
                    assert(sfx.subrange(1, sfx.len() as int) =~= p@.subrange(
                        i as int + 1,
                        p@.len() as int,
                    ));
                    assert(rle_expand(sfx) == p@.subrange(i as int + 1, p@.len() as int));
                    assert(rle_expand(sfx) =~= lit);
                    assert(out@ =~= pre_out + lit);
                    assert(p@.skip(p@.len() as int).len() == 0);
                    assert(out@ + rle_expand(p@.skip(p@.len() as int)) =~= pre_out + rle_expand(
                        sfx,
                    ));
                }
                i = p.len();
            } else {
                proof {
                    assert(sfx.subrange(1, 2 + (n as int)) =~= p@.subrange(
                        i as int + 1,
                        i as int + 2 + (n as int),
                    ));
                    assert(sfx.skip(2 + (n as int)) =~= p@.skip(i as int + 2 + (n as int)));
                    assert(rle_expand(sfx) == p@.subrange(i as int + 1, i as int + 2 + (n as int))
                        + rle_expand(p@.skip(i as int + 2 + (n as int))));
                    assert(p@.subrange(i as int + 1, i as int + 2 + (n as int)) =~= lit);
                    assert(sfx.skip(2 + (n as int)) =~= p@.skip(i as int + 2 + (n as int)));
                    assert(out@ =~= pre_out + lit);
                    assert(out@ + rle_expand(p@.skip(i as int + 1 + run as int)) =~= pre_out
                        + rle_expand(sfx));
                }
                i = i + 1 + run;
            }
        }
    }
    proof {
        if i >= p@.len() {
            assert(p@.skip(i as int).len() == 0);
            assert(rle_expand(p@.skip(i as int)) =~= Seq::<u8>::empty());
            assert(out@ + rle_expand(p@.skip(i as int)) =~= out@);
            assert(take_at_most(out@, cap as int) =~= out@);
        } else {
            assert(out@.len() == cap);
            assert(take_at_most(out@ + rle_expand(p@.skip(i as int)), cap as int) =~= out@);
        }
    }
    out
}

/// Pad the decoded stream with the matrix's initial values (0 on planes
/// 0..2, 255 on plane 3) up to exactly `cap = 4 * width * height` bytes.
#[verifier::loop_isolation(false)]
fn pad_stream(out: &mut Vec<u8>, width: usize, cap: usize)
    requires
        old(out)@.len() <= cap,
        cap as int == 4 * (width as int) * ((cap as int) / (4 * (width as int))) || old(out)@.len() == cap,
        width > 0 || old(out)@.len() == cap,
    ensures
        final(out)@.len() == cap,
        forall|k: int|
            0 <= k < cap ==> final(out)@[k] == (if k < old(out)@.len() {
                old(out)@[k]
            } else if (k / (width as int)) % 4 == 3 {
                255u8
            } else {
                0u8
            }),
{
    let ghost base = out@;
    while out.len() < cap
        invariant
            base.len() <= out@.len() <= cap,
            width > 0 || out@.len() == cap,
            forall|k: int|
                0 <= k < out@.len() ==> out@[k] == (if k < base.len() {
                    base[k]
                } else if (k / (width as int)) % 4 == 3 {
                    255u8
                } else {
                    0u8
                }),
        decreases cap - out.len(),
    {
        let k = out.len();
        let plane = (k / width) % 4;
        if plane == 3 {
            out.push(255);
        } else {
            out.push(0);
        }
    }
}

/// Expand a `BITD` payload into a `height x width` matrix of 4-byte pixels.
///
/// Cells the stream does not reach keep the initial pixel `(0, 0, 0, 255)`.
/// In strict mode a stream whose expansion does not fill the matrix is
/// rejected instead.
#[verifier::loop_isolation(false)]
pub fn expand_rle(width: u16, height: u16, payload: &Vec<u8>, strict: bool) -> (res: Result<
    Vec<Vec<[u8; 4]>>,
    Error,
>)
    requires
        4 * (width as int) * (height as int) <= usize::MAX,
    ensures
        match res {
            Ok(m) => {
                &&& rle_expand(payload@).len() < 4 * (width as int) * (height as int) ==> !strict
                &&& m@.len() == height as int
                &&& forall|y: int| 0 <= y < height ==> #[trigger] m@[y]@.len() == width as int
                &&& forall|y: int, x: int, c: int|
                    0 <= y < height && 0 <= x < width && 0 <= c < 4 ==> #[trigger] m@[y]@[x]@[c]
                        == bitd_cell(payload@, width as int, y, x, c)
            },
            Err(e) => {
                &&& e == Error::TruncatedBitmap
                &&& strict
                &&& rle_expand(payload@).len() < 4 * (width as int) * (height as int)
            },
        },
{
    let w = width as usize;
    let h = height as usize;
    let cap = 4 * w * h;
    let mut flat = decode_stream(payload, cap);
    if strict && flat.len() < cap {
        return Err(Error::TruncatedBitmap);
    }
    let ghost e = rle_expand(payload@);
    proof {
        if flat@.len() < cap {
            assert(e.len() == flat@.len());
        }
        assert(cap as int == 4 * (w as int) * ((cap as int) / (4 * (w as int)))
            || flat@.len() == cap) by (nonlinear_arith)
            requires
                cap == 4 * w * h,
                w >= 0,
                h >= 0,
        ;
    }
    pad_stream(&mut flat, w, cap);
    proof {
        assert(forall|k: int|
            0 <= k < cap ==> flat@[k] == (if k < e.len() {
                e[k]
            } else if (k / (w as int)) % 4 == 3 {
                255u8
            } else {
                0u8
            }));
    }
    let mut m: Vec<Vec<[u8; 4]>> = Vec::new();
    let mut y: usize = 0;
    let mut row_base: usize = 0;
    while y < h
        invariant
            y <= h,
            row_base == y * (4 * w),
            flat@.len() == cap,
            cap == 4 * w * h,
            m@.len() == y as int,
            forall|yy: int| 0 <= yy < y ==> #[trigger] m@[yy]@.len() == w as int,
            forall|yy: int, x: int, c: int|
                0 <= yy < y && 0 <= x < w && 0 <= c < 4 ==> #[trigger] m@[yy]@[x]@[c] == flat@[yy
                    * (4 * (w as int)) + c * (w as int) + x],
        decreases h - y,
    {
        proof {
            assert(row_base + 4 * w <= cap) by (nonlinear_arith)
                requires
                    row_base == y * (4 * w),
                    y < h,
                    cap == 4 * w * h,
                    w >= 0,
                    h >= 0,
            ;
        }
        let mut row: Vec<[u8; 4]> = Vec::new();
        let mut x: usize = 0;
        while x < w
            invariant
                x <= w,
                row_base + 4 * w <= cap,
                flat@.len() == cap,
                row@.len() == x as int,
                forall|xx: int, c: int|
                    0 <= xx < x && 0 <= c < 4 ==> #[trigger] row@[xx]@[c] == flat@[row_base + c * (
                    w as int) + xx],
            decreases w - x,
        {
            let px: [u8; 4] = [
                flat[row_base + x],
                flat[row_base + w + x],
                flat[row_base + 2 * w + x],
                flat[row_base + 3 * w + x],
            ];
            row.push(px);
            proof {
                assert(px@[0] == flat@[row_base + 0 * (w as int) + x as int]);
                assert(px@[1] == flat@[row_base + 1 * (w as int) + x as int]);
                assert(px@[2] == flat@[row_base + 2 * (w as int) + x as int]);
                assert(px@[3] == flat@[row_base + 3 * (w as int) + x as int]);
            }
            x = x + 1;
        }
        m.push(row);
        y = y + 1;
        row_base = row_base + 4 * w;
        proof {
            assert(row_base == y * (4 * w)) by (nonlinear_arith)
                requires
                    row_base == (y - 1) * (4 * w) + 4 * w,
            ;
        }
    }
    proof {
        assert(forall|y: int, x: int, c: int|
            0 <= y < height && 0 <= x < width && 0 <= c < 4 ==> #[trigger] m@[y]@[x]@[c]
                == bitd_cell(payload@, width as int, y, x, c)) by {
            assert forall|y: int, x: int, c: int|
                0 <= y < height && 0 <= x < width && 0 <= c < 4 implies #[trigger] m@[y]@[x]@[c]
                == bitd_cell(payload@, width as int, y, x, c) by {
                let k = y * (4 * (w as int)) + c * (w as int) + x;
                assert(0 <= k < cap) by (nonlinear_arith)
                    requires
                        0 <= y < h,
                        0 <= x < w,
                        0 <= c < 4,
                        cap == 4 * w * h,
                        k == y * (4 * (w as int)) + c * (w as int) + x,
                ;
                assert(m@[y]@[x]@[c] == flat@[k]);
                if k >= e.len() {
                    assert(k == (4 * y + c) * (w as int) + x) by (nonlinear_arith)
                        requires
                            k == y * (4 * (w as int)) + c * (w as int) + x,
                    ;
                    vstd::arithmetic::div_mod::lemma_fundamental_div_mod_converse(
                        k,
                        w as int,
                        4 * y + c,
                        x,
                    );
                    assert(k / (w as int) == 4 * y + c);
                    vstd::arithmetic::div_mod::lemma_fundamental_div_mod_converse(
                        4 * y + c,
                        4,
                        y,
                        c,
                    );
                    assert((4 * y + c) % 4 == c);
                }
            }
        }
    }
    Ok(m)
}

/// Expansion is monotone in the stream: the expansion of a stream is a
/// prefix of the expansion of any extension of it. In particular the
/// decoder's output depends only on the opcodes it needed: bytes past the
/// point where the matrix filled cannot change any cell.
pub proof fn lemma_rle_expand_prefix(p: Seq<u8>, q: Seq<u8>)
    ensures
        rle_expand(p).is_prefix_of(rle_expand(p + q)),
    decreases p.len(),
{
    let pq = p + q;
    if p.len() == 0 {
        assert(rle_expand(p) =~= Seq::<u8>::empty());
        assert(rle_expand(p).is_prefix_of(rle_expand(pq)));
    } else {
        let n = p[0] as int;
        assert(pq[0] == p[0]);
        if n >= 128 {
            if p.len() >= 2 {
                assert(pq[1] == p[1]);
                assert(p.skip(2) + q =~= pq.skip(2));
                lemma_rle_expand_prefix(p.skip(2), q);
                let run = Seq::new((257 - n) as nat, |j: int| p[1]);
                assert(rle_expand(p) == run + rle_expand(p.skip(2)));
                assert(rle_expand(pq) == Seq::new((257 - n) as nat, |j: int| pq[1]) + rle_expand(
                    pq.skip(2),
                ));
                assert(Seq::new((257 - n) as nat, |j: int| pq[1]) =~= run);
                assert(rle_expand(p).is_prefix_of(rle_expand(pq)));
            } else {
                assert(rle_expand(p) =~= Seq::<u8>::empty());
                assert(rle_expand(p).is_prefix_of(rle_expand(pq)));
            }
        } else {
            if p.len() >= 2 + n {
                assert(pq.len() >= 2 + n);
                assert(p.subrange(1, 2 + n) =~= pq.subrange(1, 2 + n));
                assert(p.skip(2 + n) + q =~= pq.skip(2 + n));
                lemma_rle_expand_prefix(p.skip(2 + n), q);
                assert(rle_expand(p) == p.subrange(1, 2 + n) + rle_expand(p.skip(2 + n)));
                assert(rle_expand(pq) == pq.subrange(1, 2 + n) + rle_expand(pq.skip(2 + n)));
                assert(rle_expand(p).is_prefix_of(rle_expand(pq)));
            } else {
                assert(rle_expand(p) == p.subrange(1, p.len() as int));
                if pq.len() >= 2 + n {
                    assert(rle_expand(pq) == pq.subrange(1, 2 + n) + rle_expand(pq.skip(2 + n)));
                    assert(forall|t: int|
                        0 <= t < p.len() - 1 ==> p.subrange(1, p.len() as int)[t] == pq.subrange(
                            1,
                            2 + n,
                        )[t]);
                    assert(rle_expand(p).is_prefix_of(rle_expand(pq)));
                } else {
                    assert(rle_expand(pq) == pq.subrange(1, pq.len() as int));
                    assert(forall|t: int|
                        0 <= t < p.len() - 1 ==> p.subrange(1, p.len() as int)[t] == pq.subrange(
                            1,
                            pq.len() as int,
                        )[t]);
                    assert(rle_expand(p).is_prefix_of(rle_expand(pq)));
                }
            }
        }
    }
}

/// The stream position of row `y`, column `x`, channel plane `c` in the
/// expanded pixel stream of a matrix `w` columns wide.
pub open spec fn cell_index(w: int, y: int, x: int, c: int) -> int {
    y * (4 * w) + c * w + x
}

/// When the expanded stream exactly fills the matrix, every cell holds its
/// own stream byte - no cell keeps an initial value - and distinct cells
/// take distinct stream bytes: each byte of the stream is written exactly
/// once, and the decoder needed exactly the bytes it consumed.
pub proof fn lemma_bitd_exact_fill(p: Seq<u8>, w: int, h: int)
    requires
        0 <= w,
        0 <= h,
        rle_expand(p).len() == 4 * w * h,
    ensures
        forall|y: int, x: int, c: int|
            0 <= y < h && 0 <= x < w && 0 <= c < 4 ==> #[trigger] bitd_cell(p, w, y, x, c)
                == rle_expand(p)[cell_index(w, y, x, c)],
        forall|y: int, x: int, c: int, y2: int, x2: int, c2: int|
            0 <= y < h && 0 <= x < w && 0 <= c < 4 && 0 <= y2 < h && 0 <= x2 < w && 0 <= c2 < 4
                && (y != y2 || x != x2 || c != c2) ==> #[trigger] cell_index(w, y, x, c)
                != #[trigger] cell_index(w, y2, x2, c2),
{
    assert forall|y: int, x: int, c: int|
        0 <= y < h && 0 <= x < w && 0 <= c < 4 implies #[trigger] bitd_cell(p, w, y, x, c)
        == rle_expand(p)[cell_index(w, y, x, c)] by {
        assert(0 <= cell_index(w, y, x, c) < 4 * w * h) by (nonlinear_arith)
            requires
                0 <= y < h,
                0 <= x < w,
                0 <= c < 4,
        ;
    }
    assert forall|y: int, x: int, c: int, y2: int, x2: int, c2: int|
        0 <= y < h && 0 <= x < w && 0 <= c < 4 && 0 <= y2 < h && 0 <= x2 < w && 0 <= c2 < 4 && (y
            != y2 || x != x2 || c != c2) implies #[trigger] cell_index(w, y, x, c)
        != #[trigger] cell_index(w, y2, x2, c2) by {
        let k = cell_index(w, y, x, c);
        let k2 = cell_index(w, y2, x2, c2);
        if k == k2 {
            assert(k == (4 * y + c) * w + x && k2 == (4 * y2 + c2) * w + x2) by (nonlinear_arith)
                requires
                    k == cell_index(w, y, x, c),
                    k2 == cell_index(w, y2, x2, c2),
            ;
            vstd::arithmetic::div_mod::lemma_fundamental_div_mod_converse(k, w, 4 * y + c, x);
            vstd::arithmetic::div_mod::lemma_fundamental_div_mod_converse(k2, w, 4 * y2 + c2, x2);
            assert(x == x2 && 4 * y + c == 4 * y2 + c2);
            vstd::arithmetic::div_mod::lemma_fundamental_div_mod_converse(4 * y + c, 4, y, c);
            vstd::arithmetic::div_mod::lemma_fundamental_div_mod_converse(4 * y2 + c2, 4, y2, c2);
            assert(y == y2 && c == c2);
        }
    }
}

/// Opcodes past the point where the matrix filled change nothing: when the
/// expansion of `p` already covers the matrix, appending any `q` leaves
/// every cell as it was.
pub proof fn lemma_bitd_ignores_tail(p: Seq<u8>, q: Seq<u8>, w: int, h: int)
    requires
        0 <= w,
        0 <= h,
        rle_expand(p).len() >= 4 * w * h,
    ensures
        forall|y: int, x: int, c: int|
            0 <= y < h && 0 <= x < w && 0 <= c < 4 ==> #[trigger] bitd_cell(p + q, w, y, x, c)
                == bitd_cell(p, w, y, x, c),
{
    lemma_rle_expand_prefix(p, q);
    assert forall|y: int, x: int, c: int|
        0 <= y < h && 0 <= x < w && 0 <= c < 4 implies #[trigger] bitd_cell(p + q, w, y, x, c)
        == bitd_cell(p, w, y, x, c) by {
        assert(0 <= cell_index(w, y, x, c) < 4 * w * h) by (nonlinear_arith)
            requires
                0 <= y < h,
                0 <= x < w,
                0 <= c < 4,
        ;
        let k = cell_index(w, y, x, c);
        assert(rle_expand(p + q)[k] == rle_expand(p)[k]);
    }
}

/// The plainest encoding the documented opcodes allow: literal runs of at
/// most 128 bytes each.
pub open spec fn rle_encode(s: Seq<u8>) -> Seq<u8>
    decreases s.len(),
{
    if s.len() == 0 {
        Seq::empty()
    } else if s.len() <= 128 {
        seq![(s.len() - 1) as u8] + s
    } else {
        seq![127u8] + s.take(128) + rle_encode(s.skip(128))
    }
}

/// The decoder is a left inverse of the documented encoding: expanding an
/// encoded stream returns the original bytes.
pub proof fn lemma_rle_round_trip(s: Seq<u8>)
    ensures
        rle_expand(rle_encode(s)) == s,
    decreases s.len(),
{
    if s.len() == 0 {
        assert(rle_expand(rle_encode(s)) =~= s);
    } else if s.len() <= 128 {
        let enc = seq![(s.len() - 1) as u8] + s;
        let n = enc[0] as int;
        assert(n == s.len() - 1 && n < 128);
        assert(enc.len() == 2 + n);
        assert(rle_expand(enc) == enc.subrange(1, 2 + n) + rle_expand(enc.skip(2 + n)));
        assert(enc.skip(2 + n).len() == 0);
        assert(rle_expand(enc.skip(2 + n)) =~= Seq::<u8>::empty());
        assert(enc.subrange(1, 2 + n) =~= s);
        assert(rle_expand(enc) =~= s);
    } else {
        let enc = seq![127u8] + s.take(128) + rle_encode(s.skip(128));
        let n = enc[0] as int;
        assert(n == 127);
        assert(enc.len() >= 2 + n);
        assert(rle_expand(enc) == enc.subrange(1, 2 + n) + rle_expand(enc.skip(2 + n)));
        assert(enc.subrange(1, 129) =~= s.take(128));
        assert(enc.skip(129) =~= rle_encode(s.skip(128)));
        lemma_rle_round_trip(s.skip(128));
        assert(rle_expand(enc) =~= s.take(128) + s.skip(128));
        assert(s.take(128) + s.skip(128) =~= s);
    }
}

/// The matrix form of the round trip: encoding the pixel stream of any
/// matrix and expanding it again reproduces every cell.
pub proof fn lemma_rle_matrix_round_trip(s: Seq<u8>, w: int, h: int)
    requires
        0 <= w,
        0 <= h,
        s.len() == 4 * w * h,
    ensures
        forall|y: int, x: int, c: int|
            0 <= y < h && 0 <= x < w && 0 <= c < 4 ==> #[trigger] bitd_cell(rle_encode(s), w, y, x, c)
                == s[cell_index(w, y, x, c)],
{
    lemma_rle_round_trip(s);
    lemma_bitd_exact_fill(rle_encode(s), w, h);
}

} // verus!
