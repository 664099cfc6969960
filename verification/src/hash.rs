//! Executable BLAKE2b, verified against the model in [`crate::model`].
use vstd::prelude::*;

use vstd::slice::slice_subrange;

use crate::model::spec_blake2b;
use crate::model::spec_ceil;
use crate::model::spec_dd;
use crate::model::spec_kk;
use crate::model::spec_nn;
use crate::model::spec_word_at;
use crate::model::spec_g;
use crate::model::spec_iv;
use crate::model::spec_rotr;
use crate::model::spec_sigma_row;
use crate::model::spec_word_from_bytes;
use crate::model::wadd;
use crate::model::IV0;
use crate::model::IV1;
use crate::model::IV2;
use crate::model::IV3;
use crate::model::IV4;
use crate::model::IV5;
use crate::model::IV6;
use crate::model::IV7;

verus! {

/// A fresh all-zero 16-word block.
pub fn blank_block() -> (b: [u64; 16])
    ensures
        b@.len() == 16,
        forall|i: int| 0 <= i < 16 ==> b@[i] == 0u64,
{
    [0u64; 16]
}

/// In-place wraparound addition on a 64-bit word.
pub fn add(a: &mut u64, b: u64)
    ensures
        *final(a) == wadd(*old(a), b),
{
    *a = a.wrapping_add(b);
}

/// Ceiling division.
pub fn ceil(dividend: usize, divisor: usize) -> (r: usize)
    requires
        divisor > 0,
    ensures
        r == spec_ceil(dividend as int, divisor as int),
{
    proof {
        let di = dividend as int;
        let vi = divisor as int;
        vstd::arithmetic::div_mod::lemma_fundamental_div_mod(di, vi);
        if di % vi != 0 {
            assert(di / vi + 1 <= di) by (nonlinear_arith)
                requires
                    di == vi * (di / vi) + di % vi,
                    vi >= 1,
                    di / vi >= 0,
                    di % vi >= 1,
            ;
        }
    }
    (dividend / divisor) + (if dividend % divisor != 0 {
        1
    } else {
        0
    })
}

/// Rotate `x` right by `n` bit positions.
fn rotr(x: u64, n: u64) -> (r: u64)
    requires
        0 < n < 64,
    ensures
        r == spec_rotr(x, n),
{
    (x >> n) | (x << (64 - n))
}

/// The mixing function G: mutates the four selected slots of the working
/// vector `v`, mixing in the message words `x` and `y`.
pub fn g(v: &mut [u64; 16], a: usize, b: usize, c: usize, d: usize, x: u64, y: u64)
    requires
        a < 16,
        b < 16,
        c < 16,
        d < 16,
        a != b,
        a != c,
        a != d,
        b != c,
        b != d,
        c != d,
    ensures
        final(v)@ == spec_g(old(v)@, a as int, b as int, c as int, d as int, x, y),
{
    let mut va: u64 = v[a];
    crate::hash::add(&mut va, v[b]);
    crate::hash::add(&mut va, x);
    let vd = rotr(v[d] ^ va, 32);
    let mut vc: u64 = v[c];
    crate::hash::add(&mut vc, vd);
    let vb = rotr(v[b] ^ vc, 24);
    let mut va2: u64 = va;
    crate::hash::add(&mut va2, vb);
    crate::hash::add(&mut va2, y);
    let vd2 = rotr(vd ^ va2, 16);
    let mut vc2: u64 = vc;
    crate::hash::add(&mut vc2, vd2);
    let vb2 = rotr(vb ^ vc2, 63);
    v[a] = va2;
    v[b] = vb2;
    v[c] = vc2;
    v[d] = vd2;
}

/// Row `r` of the SIGMA permutation table.
fn sigma_row(r: usize) -> (s: [usize; 16])
    requires
        r < 10,
    ensures
        s@ == spec_sigma_row(r as int),
        forall|j: int| 0 <= j < 16 ==> s@[j] < 16,
{
    let s: [usize; 16] = if r == 0 {
        [0, 1, 2, 3, 4, 5, 6, 7, 8, 9, 10, 11, 12, 13, 14, 15]
    } else if r == 1 {
        [14, 10, 4, 8, 9, 15, 13, 6, 1, 12, 0, 2, 11, 7, 5, 3]
    } else if r == 2 {
        [11, 8, 12, 0, 5, 2, 15, 13, 10, 14, 3, 6, 7, 1, 9, 4]
    } else if r == 3 {
        [7, 9, 3, 1, 13, 12, 11, 14, 2, 6, 5, 10, 4, 0, 15, 8]
    } else if r == 4 {
        [9, 0, 5, 7, 2, 4, 10, 15, 14, 1, 11, 12, 6, 8, 3, 13]
    } else if r == 5 {
        [2, 12, 6, 10, 0, 11, 8, 3, 4, 13, 7, 5, 15, 14, 1, 9]
    } else if r == 6 {
        [12, 5, 1, 15, 14, 13, 4, 10, 0, 7, 6, 3, 9, 2, 8, 11]
    } else if r == 7 {
        [13, 11, 7, 14, 12, 1, 3, 9, 5, 0, 15, 4, 8, 6, 2, 10]
    } else if r == 8 {
        [6, 15, 14, 9, 11, 3, 0, 8, 12, 2, 13, 7, 1, 4, 10, 5]
    } else {
        [10, 2, 8, 4, 7, 6, 1, 5, 15, 11, 9, 14, 3, 12, 13, 0]
    };
    proof {
        crate::model::lemma_seq16_eq(s@, spec_sigma_row(r as int));
        crate::model::lemma_sigma_row_bounds(r as int);
    }
    s
}

/// The compression function F: mutates the running state `h` given one
/// message block `m`, the 128-bit byte counter `t` and the finalization
/// flag.
pub fn f(h: &mut [u64; 8], m: [u64; 16], t: u128, flag: bool)
    ensures
        final(h)@ == crate::model::spec_f(old(h)@, m@, t, flag),
{
    let mut v: [u64; 16] = [0u64; 16];
    v[0] = h[0];
    v[1] = h[1];
    v[2] = h[2];
    v[3] = h[3];
    v[4] = h[4];
    v[5] = h[5];
    v[6] = h[6];
    v[7] = h[7];
    v[8] = IV0;
    v[9] = IV1;
    v[10] = IV2;
    v[11] = IV3;
    v[12] = IV4;
    v[13] = IV5;
    v[14] = IV6;
    v[15] = IV7;
    proof {
        crate::model::lemma_seq16_eq(v@, old(h)@ + spec_iv());
    }
    v[12] = v[12] ^ (t as u64);
    v[13] = v[13] ^ ((t >> 64) as u64);
    if flag {
        v[14] = v[14] ^ u64::MAX;
    }
    let ghost vstart = v@;
    let mut r: usize = 0;
    while r < 12
        invariant
            r <= 12,
            v@ == crate::model::spec_rounds(vstart, m@, r as int),
        decreases 12 - r,
    {
        let s = sigma_row(r % 10);
        g(&mut v, 0, 4, 8, 12, m[s[0]], m[s[1]]);
        g(&mut v, 1, 5, 9, 13, m[s[2]], m[s[3]]);
        g(&mut v, 2, 6, 10, 14, m[s[4]], m[s[5]]);
        g(&mut v, 3, 7, 11, 15, m[s[6]], m[s[7]]);
        g(&mut v, 0, 5, 10, 15, m[s[8]], m[s[9]]);
        g(&mut v, 1, 6, 11, 12, m[s[10]], m[s[11]]);
        g(&mut v, 2, 7, 8, 13, m[s[12]], m[s[13]]);
        g(&mut v, 3, 4, 9, 14, m[s[14]], m[s[15]]);
        proof {
            assert(v@ == crate::model::spec_round(
                crate::model::spec_rounds(vstart, m@, r as int),
                m@,
                spec_sigma_row((r % 10) as int),
            ));
            assert((r + 1 - 1) as int % 10 == (r % 10) as int);
        }
        r = r + 1;
    }
    h[0] = h[0] ^ v[0] ^ v[8];
    h[1] = h[1] ^ v[1] ^ v[9];
    h[2] = h[2] ^ v[2] ^ v[10];
    h[3] = h[3] ^ v[3] ^ v[11];
    h[4] = h[4] ^ v[4] ^ v[12];
    h[5] = h[5] ^ v[5] ^ v[13];
    h[6] = h[6] ^ v[6] ^ v[14];
    h[7] = h[7] ^ v[7] ^ v[15];
    proof {
        crate::model::lemma_seq8_eq(h@, crate::model::spec_f(old(h)@, m@, t, flag));
    }
}

/// Pack up to the first 8 bytes of `bytes` into a 64-bit word,
/// little-endian, padding missing bytes with zero.
pub fn bytes_to_word(bytes: &[u8]) -> (w: u64)
    ensures
        w == spec_word_from_bytes(bytes@),
{
    let n = bytes.len();
    let b0: u64 = if n > 0 {
        bytes[0] as u64
    } else {
        0
    };
    let b1: u64 = if n > 1 {
        bytes[1] as u64
    } else {
        0
    };
    let b2: u64 = if n > 2 {
        bytes[2] as u64
    } else {
        0
    };
    let b3: u64 = if n > 3 {
        bytes[3] as u64
    } else {
        0
    };
    let b4: u64 = if n > 4 {
        bytes[4] as u64
    } else {
        0
    };
    let b5: u64 = if n > 5 {
        bytes[5] as u64
    } else {
        0
    };
    let b6: u64 = if n > 6 {
        bytes[6] as u64
    } else {
        0
    };
    let b7: u64 = if n > 7 {
        bytes[7] as u64
    } else {
        0
    };
    b0 + b1 * 0x100 + b2 * 0x1_0000 + b3 * 0x100_0000 + b4 * 0x1_0000_0000 + b5 * 0x100_0000_0000
        + b6 * 0x1_0000_0000_0000 + b7 * 0x100_0000_0000_0000
}

/// Drive all assembled blocks through the compression function and truncate
/// the serialized final state to `nn` bytes.
pub fn blake2(d: Vec<[u64; 16]>, ll: u128, kk: u64, nn: u64) -> (r: Vec<u8>)
    requires
        d@.len() >= 1,
        nn <= 64,
        kk > 0 ==> ll + 128 <= u128::MAX,
    ensures
        r@ == crate::model::spec_blake2(crate::model::blocks_view(d@), ll, kk, nn),
        r@.len() == nn,
{
    let mut h: [u64; 8] = [IV0, IV1, IV2, IV3, IV4, IV5, IV6, IV7];
    proof {
        crate::model::lemma_seq8_eq(h@, spec_iv());
    }
    h[0] = h[0] ^ (0x01010000u64 ^ ((kk << 8u64) ^ nn));
    assert(h@ == crate::model::spec_h0(kk, nn));
    let dd = d.len();
    let mut i: usize = 0;
    while i < dd - 1
        invariant
            dd == d@.len(),
            dd >= 1,
            i <= dd - 1,
            h@ == crate::model::spec_process(
                crate::model::spec_h0(kk, nn),
                crate::model::blocks_view(d@),
                i as int,
            ),
        decreases dd - 1 - i,
    {
        let t: u128 = (i as u128 + 1) * 128;
        f(&mut h, d[i], t, false);
        proof {
            assert(crate::model::blocks_view(d@)[i as int] == d@[i as int]@);
            assert(t == (((i as int + 1) * 128) as u128));
        }
        i = i + 1;
    }
    let t_last: u128 = if kk > 0 {
        ll + 128
    } else {
        ll
    };
    f(&mut h, d[dd - 1], t_last, true);
    proof {
        assert(crate::model::blocks_view(d@)[dd - 1] == d@[dd - 1]@);
        assert(h@ == crate::model::spec_blake2_state(crate::model::blocks_view(d@), ll, kk, nn));
    }
    let ghost hfin = h@;
    let mut out: Vec<u8> = Vec::new();
    let nnu: usize = nn as usize;
    let mut bpos: usize = 0;
    while bpos < nnu
        invariant
            nnu == nn,
            nnu <= 64,
            bpos <= nnu,
            h@ == hfin,
            hfin.len() == 8,
            out@.len() == bpos,
            forall|j: int| 0 <= j < bpos ==> out@[j] == crate::model::spec_le_bytes(hfin)[j],
        decreases nnu - bpos,
    {
        let wi: usize = bpos / 8;
        let sh: u64 = ((bpos % 8) * 8) as u64;
        out.push(#[verifier::truncate] ((h[wi] >> sh) as u8));
        bpos = bpos + 1;
    }
    proof {
        assert(out@.len() == nn as int);
        assert(crate::model::spec_le_bytes(hfin).len() == 64);
        assert forall|j: int| 0 <= j < nn implies out@[j] == crate::model::spec_le_bytes(
            hfin,
        ).take(nn as int)[j] by {
            assert(out@[j] == crate::model::spec_le_bytes(hfin)[j]);
        }
        assert(out@ =~= crate::model::spec_le_bytes(hfin).take(nn as int));
    }
    out
}

/// The BLAKE2b entry point: hash message `m` with key `k` (empty for
/// unkeyed hashing) to a digest of `nn` bytes. A key longer than 64 bytes
/// is silently clamped to its first 64 bytes, and a requested length above
/// 64 is silently clamped to 64; a requested length of 0 is not validated
/// and yields an empty digest.
pub fn blake2b(m: &[u8], k: &[u8], nn: u8) -> (r: Vec<u8>)
    ensures
        r@ == spec_blake2b(m@, k@, nn),
        r@.len() == spec_nn(nn),
{
    let kk: usize = if k.len() < 64 {
        k.len()
    } else {
        64
    };
    let nn_c: u8 = if nn < 64 {
        nn
    } else {
        64
    };
    let mlen = m.len();
    let cb = ceil(kk, 128);
    let cm = ceil(mlen, 128);
    proof {
        vstd::arithmetic::div_mod::lemma_fundamental_div_mod(mlen as int, 128);
        assert(cb <= 1);
        assert(cm as int <= mlen as int / 128 + 1);
    }
    let sum = cb + cm;
    let dd: usize = if sum == 0 {
        1
    } else {
        sum
    };
    assert(dd as int == spec_dd(mlen as int, kk as int));
    let first: usize = if kk > 0 {
        1
    } else {
        0
    };
    let nmb = dd - first;
    let mut blocks: Vec<[u64; 16]> = Vec::new();
    if kk > 0 {
        let mut kb: [u64; 16] = blank_block();
        let mut w: usize = 0;
        while w < 16
            invariant
                w <= 16,
                kk == spec_kk(k@),
                0 < kk <= 64,
                kk <= k@.len(),
                forall|j: int| 0 <= j < w ==> kb@[j] == spec_word_at(k@.take(kk as int), 8 * j),
                forall|j: int| w <= j < 16 ==> kb@[j] == 0,
            decreases 16 - w,
        {
            let lo = w * 8;
            if lo < kk {
                let hi = if kk - lo < 8 {
                    kk
                } else {
                    lo + 8
                };
                let chunk = slice_subrange(k, lo, hi);
                let word = bytes_to_word(chunk);
                kb[w] = word;
                proof {
                    let kt = k@.take(kk as int);
                    assert(k@.subrange(lo as int, hi as int) =~= kt.subrange(
                        lo as int,
                        hi as int,
                    ));
                    crate::model::lemma_word_at_subrange(kt, lo as int);
                }
            } else {
                proof {
                    crate::model::lemma_word_at_zero(k@.take(kk as int), 8 * (w as int));
                }
            }
            w = w + 1;
        }
        blocks.push(kb);
    }
    let mut pos: usize = 0;
    let mut mb: usize = 0;
    while mb < nmb
        invariant
            mb <= nmb,
            first == (if kk > 0 {
                1int
            } else {
                0int
            }),
            nmb == dd - first,
            dd as int == spec_dd(mlen as int, kk as int),
            kk == spec_kk(k@),
            kk <= k@.len(),
            mlen == m@.len(),
            blocks@.len() == first + mb,
            pos as int == (if (mb as int) * 128 <= mlen as int {
                (mb as int) * 128
            } else {
                mlen as int
            }),
            kk > 0 ==> (forall|j: int|
                0 <= j < 16 ==> blocks@[0]@[j] == spec_word_at(k@.take(kk as int), 8 * j)),
            forall|bi: int, j: int|
                first <= bi < first + mb && 0 <= j < 16 ==> blocks@[bi]@[j] == spec_word_at(
                    m@,
                    (bi - first) * 128 + 8 * j,
                ),
        decreases nmb - mb,
    {
        let mut bb: [u64; 16] = blank_block();
        let mut w: usize = 0;
        while w < 16
            invariant
                w <= 16,
                mlen == m@.len(),
                pos as int == (if (mb as int) * 128 + 8 * (w as int) <= mlen as int {
                    (mb as int) * 128 + 8 * (w as int)
                } else {
                    mlen as int
                }),
                forall|j: int|
                    0 <= j < w ==> bb@[j] == spec_word_at(m@, (mb as int) * 128 + 8 * j),
                forall|j: int| w <= j < 16 ==> bb@[j] == 0,
            decreases 16 - w,
        {
            if pos < mlen {
                let hi = if mlen - pos < 8 {
                    mlen
                } else {
                    pos + 8
                };
                let chunk = slice_subrange(m, pos, hi);
                let word = bytes_to_word(chunk);
                bb[w] = word;
                proof {
                    crate::model::lemma_word_at_subrange(m@, pos as int);
                }
                pos = hi;
            } else {
                proof {
                    crate::model::lemma_word_at_zero(m@, (mb as int) * 128 + 8 * (w as int));
                }
            }
            w = w + 1;
        }
        blocks.push(bb);
        mb = mb + 1;
    }
    proof {
        let sb = crate::model::spec_blocks(m@, k@);
        assert(sb.len() == dd as int);
        assert(blocks@.len() == dd as int);
        assert forall|b: int| 0 <= b < dd implies crate::model::blocks_view(blocks@)[b] == sb[b] by {
            assert(crate::model::blocks_view(blocks@)[b] == blocks@[b]@);
            assert forall|w: int| 0 <= w < 16 implies blocks@[b]@[w] == sb[b][w] by {
                if b == 0 && kk > 0 {
                    assert(blocks@[0]@[w] == spec_word_at(k@.take(kk as int), 8 * w));
                } else {
                    assert(blocks@[b]@[w] == spec_word_at(m@, (b - first) * 128 + 8 * w));
                }
            }
            assert(blocks@[b]@ =~= sb[b]);
        }
        assert(crate::model::blocks_view(blocks@) =~= sb);
    }
    let r = blake2(blocks, mlen as u128, kk as u64, nn_c as u64);
    proof {
        assert(spec_kk(k@) == kk as int);
        assert(spec_nn(nn) == nn_c as int);
        assert(r@ == spec_blake2b(m@, k@, nn));
    }
    r
}

} // verus!
