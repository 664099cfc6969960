//! Mathematical model of the BLAKE2b hash function (RFC 7693, sequential
//! single-instance mode, unkeyed or keyed, variable digest length).
//!
//! Every executable function of the crate is specified against the
//! definitions in this module: 64-bit words with wraparound addition, the
//! initialization vector, the ten message-word permutation schedules, the
//! mixing function G, the compression function F, block assembly from the
//! key and message bytes, and the truncated little-endian serialization of
//! the final state.
use vstd::prelude::*;

verus! {

/// First word of the initialization vector.
pub const IV0: u64 = 0x6A09E667F3BCC908;

/// Second word of the initialization vector.
pub const IV1: u64 = 0xBB67AE8584CAA73B;

/// Third word of the initialization vector.
pub const IV2: u64 = 0x3C6EF372FE94F82B;

/// Fourth word of the initialization vector.
pub const IV3: u64 = 0xA54FF53A5F1D36F1;

/// Fifth word of the initialization vector.
pub const IV4: u64 = 0x510E527FADE682D1;

/// Sixth word of the initialization vector.
pub const IV5: u64 = 0x9B05688C2B3E6C1F;

/// Seventh word of the initialization vector.
pub const IV6: u64 = 0x1F83D9ABFB41BD6B;

/// Eighth word of the initialization vector.
pub const IV7: u64 = 0x5BE0CD19137E2179;

/// The initialization vector as a sequence of 8 words.
pub open spec fn spec_iv() -> Seq<u64> {
    seq![IV0, IV1, IV2, IV3, IV4, IV5, IV6, IV7]
}

/// Addition on 64-bit words that wraps around modulo 2^64.
pub open spec fn wadd(x: u64, y: u64) -> u64 {
    if x + y <= u64::MAX {
        (x + y) as u64
    } else {
        (x + y - 0x1_0000_0000_0000_0000) as u64
    }
}

/// Right rotation of a 64-bit word by `n` positions, 0 < n < 64.
pub open spec fn spec_rotr(x: u64, n: u64) -> u64
    recommends
        0 < n < 64,
{
    (x >> n) | (x << ((64 - n) as u64))
}

/// The message-word permutation schedule used by round `r`: row `r mod 10`
/// of the SIGMA table of RFC 7693 (rows beyond index 9 reuse row 9, which
/// never happens for the arguments the rest of the model supplies).
pub open spec fn spec_sigma_row(r: int) -> Seq<usize> {
    if r == 0 {
        seq![0usize, 1, 2, 3, 4, 5, 6, 7, 8, 9, 10, 11, 12, 13, 14, 15]
    } else if r == 1 {
        seq![14usize, 10, 4, 8, 9, 15, 13, 6, 1, 12, 0, 2, 11, 7, 5, 3]
    } else if r == 2 {
        seq![11usize, 8, 12, 0, 5, 2, 15, 13, 10, 14, 3, 6, 7, 1, 9, 4]
    } else if r == 3 {
        seq![7usize, 9, 3, 1, 13, 12, 11, 14, 2, 6, 5, 10, 4, 0, 15, 8]
    } else if r == 4 {
        seq![9usize, 0, 5, 7, 2, 4, 10, 15, 14, 1, 11, 12, 6, 8, 3, 13]
    } else if r == 5 {
        seq![2usize, 12, 6, 10, 0, 11, 8, 3, 4, 13, 7, 5, 15, 14, 1, 9]
    } else if r == 6 {
        seq![12usize, 5, 1, 15, 14, 13, 4, 10, 0, 7, 6, 3, 9, 2, 8, 11]
    } else if r == 7 {
        seq![13usize, 11, 7, 14, 12, 1, 3, 9, 5, 0, 15, 4, 8, 6, 2, 10]
    } else if r == 8 {
        seq![6usize, 15, 14, 9, 11, 3, 0, 8, 12, 2, 13, 7, 1, 4, 10, 5]
    } else {
        seq![10usize, 2, 8, 4, 7, 6, 1, 5, 15, 11, 9, 14, 3, 12, 13, 0]
    }
}

/// One application of the mixing function G to slots `a`, `b`, `c`, `d` of
/// the 16-word working vector `v`, driven by the two message words `x`, `y`:
/// two structurally identical half-rounds with rotation amounts (32, 24)
/// and (16, 63).
pub open spec fn spec_g(v: Seq<u64>, a: int, b: int, c: int, d: int, x: u64, y: u64) -> Seq<u64>
    recommends
        v.len() == 16,
        0 <= a < 16,
        0 <= b < 16,
        0 <= c < 16,
        0 <= d < 16,
{
    let va1 = wadd(wadd(v[a], v[b]), x);
    let vd1 = spec_rotr(v[d] ^ va1, 32);
    let vc1 = wadd(v[c], vd1);
    let vb1 = spec_rotr(v[b] ^ vc1, 24);
    let va2 = wadd(wadd(va1, vb1), y);
    let vd2 = spec_rotr(vd1 ^ va2, 16);
    let vc2 = wadd(vc1, vd2);
    let vb2 = spec_rotr(vb1 ^ vc2, 63);
    v.update(a, va2).update(b, vb2).update(c, vc2).update(d, vd2)
}

/// One round of the compression function: 8 applications of G, first to the
/// four columns of the notional 4x4 arrangement of the working vector, then
/// to its four diagonals, consuming the 16 entries of the round's message
/// schedule `s` in order.
pub open spec fn spec_round(v: Seq<u64>, m: Seq<u64>, s: Seq<usize>) -> Seq<u64>
    recommends
        v.len() == 16,
        m.len() == 16,
        s.len() == 16,
{
    let v1 = spec_g(v, 0, 4, 8, 12, m[s[0] as int], m[s[1] as int]);
    let v2 = spec_g(v1, 1, 5, 9, 13, m[s[2] as int], m[s[3] as int]);
    let v3 = spec_g(v2, 2, 6, 10, 14, m[s[4] as int], m[s[5] as int]);
    let v4 = spec_g(v3, 3, 7, 11, 15, m[s[6] as int], m[s[7] as int]);
    let v5 = spec_g(v4, 0, 5, 10, 15, m[s[8] as int], m[s[9] as int]);
    let v6 = spec_g(v5, 1, 6, 11, 12, m[s[10] as int], m[s[11] as int]);
    let v7 = spec_g(v6, 2, 7, 8, 13, m[s[12] as int], m[s[13] as int]);
    spec_g(v7, 3, 4, 9, 14, m[s[14] as int], m[s[15] as int])
}

/// The first `n` rounds of the compression function applied to working
/// vector `v`; round `i` (0-indexed) uses schedule row `i mod 10`.
pub open spec fn spec_rounds(v: Seq<u64>, m: Seq<u64>, n: int) -> Seq<u64>
    recommends
        v.len() == 16,
        m.len() == 16,
    decreases n,
{
    if n <= 0 {
        v
    } else {
        spec_round(spec_rounds(v, m, n - 1), m, spec_sigma_row((n - 1) % 10))
    }
}

/// The compression function F: transforms the 8-word state `h` given one
/// 16-word message block `m`, the 128-bit byte counter `t` and the
/// finalization flag, by running 12 rounds over a 16-word working vector
/// seeded from `h` and the IV, with the counter XORed into slots 12 and 13
/// and slot 14 complemented on the last block.
pub open spec fn spec_f(h: Seq<u64>, m: Seq<u64>, t: u128, flag: bool) -> Seq<u64>
    recommends
        h.len() == 8,
        m.len() == 16,
{
    let v0 = h + spec_iv();
    let v1 = v0.update(12, v0[12] ^ (t as u64)).update(13, v0[13] ^ ((t >> 64) as u64));
    let v2 = if flag {
        v1.update(14, v1[14] ^ u64::MAX)
    } else {
        v1
    };
    let w = spec_rounds(v2, m, 12);
    Seq::new(8, |i: int| h[i] ^ w[i] ^ w[i + 8])
}

/// The state after feeding blocks `0 .. n` of `d` through F, each with
/// counter `(i + 1) * 128` and the finalization flag clear.
pub open spec fn spec_process(h: Seq<u64>, d: Seq<Seq<u64>>, n: int) -> Seq<u64>
    recommends
        h.len() == 8,
        n <= d.len(),
    decreases n,
{
    if n <= 0 {
        h
    } else {
        spec_f(spec_process(h, d, n - 1), d[n - 1], ((n * 128) as u128), false)
    }
}

/// The parameter word mixed into the first state word: digest length `nn`
/// and key length `kk` in sequential single-instance mode.
pub open spec fn spec_param_word(kk: u64, nn: u64) -> u64 {
    0x01010000u64 ^ ((kk << 8u64) ^ nn)
}

/// The initial state: the IV with the parameter word XORed into word 0.
pub open spec fn spec_h0(kk: u64, nn: u64) -> Seq<u64> {
    spec_iv().update(0, IV0 ^ spec_param_word(kk, nn))
}

/// The final 8-word state after absorbing all blocks of `d`: every block
/// but the last with counter `(i + 1) * 128`, the last with counter `ll`
/// (plus 128 when a key block was prepended, which the caller folds into
/// `ll`) and the finalization flag set.
pub open spec fn spec_blake2_state(d: Seq<Seq<u64>>, ll: u128, kk: u64, nn: u64) -> Seq<u64>
    recommends
        d.len() >= 1,
        kk > 0 ==> ll + 128 <= u128::MAX,
{
    let hpre = spec_process(spec_h0(kk, nn), d, d.len() - 1);
    let tfin = if kk > 0 {
        (ll + 128) as u128
    } else {
        ll
    };
    spec_f(hpre, d[d.len() - 1], tfin, true)
}

/// Little-endian serialization of a word sequence: byte `j` is byte
/// `j mod 8` of word `j / 8`.
pub open spec fn spec_le_bytes(h: Seq<u64>) -> Seq<u8> {
    Seq::new(h.len() * 8, |j: int| ((h[j / 8] >> (((j % 8) * 8) as u64)) as u8))
}

/// The digest over assembled blocks: the first `nn` bytes of the
/// little-endian serialization of the final state.
pub open spec fn spec_blake2(d: Seq<Seq<u64>>, ll: u128, kk: u64, nn: u64) -> Seq<u8>
    recommends
        d.len() >= 1,
        nn <= 64,
        kk > 0 ==> ll + 128 <= u128::MAX,
{
    spec_le_bytes(spec_blake2_state(d, ll, kk, nn)).take(nn as int)
}

/// Byte `i` of `s`, or 0 beyond the end: block assembly pads short trailing
/// chunks with zero bytes.
pub open spec fn spec_byte_at(s: Seq<u8>, i: int) -> u8 {
    if 0 <= i < s.len() {
        s[i]
    } else {
        0
    }
}

/// The 64-bit word packed little-endian from the 8 bytes of `s` starting at
/// `off`, missing bytes read as zero.
pub open spec fn spec_word_at(s: Seq<u8>, off: int) -> u64 {
    (spec_byte_at(s, off) + spec_byte_at(s, off + 1) * 0x100 + spec_byte_at(s, off + 2) * 0x1_0000
        + spec_byte_at(s, off + 3) * 0x100_0000 + spec_byte_at(s, off + 4) * 0x1_0000_0000
        + spec_byte_at(s, off + 5) * 0x100_0000_0000 + spec_byte_at(s, off + 6) * 0x1_0000_0000_0000
        + spec_byte_at(s, off + 7) * 0x100_0000_0000_0000) as u64
}

/// The word read from the first 8 bytes of `s`, zero-padded.
pub open spec fn spec_word_from_bytes(s: Seq<u8>) -> u64 {
    spec_word_at(s, 0)
}

/// Effective key length: the key is silently clamped to its first 64 bytes.
pub open spec fn spec_kk(k: Seq<u8>) -> int {
    if k.len() < 64 {
        k.len() as int
    } else {
        64
    }
}

/// Effective digest length: requests above 64 are silently clamped to 64.
pub open spec fn spec_nn(nn: u8) -> int {
    if nn < 64 {
        nn as int
    } else {
        64
    }
}

/// Ceiling division.
pub open spec fn spec_ceil(a: int, b: int) -> int
    recommends
        b > 0,
{
    a / b + if a % b == 0 {
        0int
    } else {
        1int
    }
}

/// Total block count: the key (if any) occupies its own leading block, and
/// at least one block always exists, even for an empty unkeyed message.
pub open spec fn spec_dd(mlen: int, kk: int) -> int {
    let s = spec_ceil(kk, 128) + spec_ceil(mlen, 128);
    if s == 0 {
        1
    } else {
        s
    }
}

/// The padded 16-word blocks assembled from message `m` and key `k`: the
/// clamped key bytes fill the start of block 0 when a key is present, and
/// the message is packed 8 bytes per word, little-endian, from the next
/// block on, with zero padding throughout.
pub open spec fn spec_blocks(m: Seq<u8>, k: Seq<u8>) -> Seq<Seq<u64>> {
    let kk = spec_kk(k);
    let first = if kk > 0 {
        1int
    } else {
        0int
    };
    Seq::new(
        spec_dd(m.len() as int, kk) as nat,
        |b: int|
            Seq::new(
                16,
                |w: int|
                    if b == 0 && kk > 0 {
                        spec_word_at(k.take(kk), 8 * w)
                    } else {
                        spec_word_at(m, (b - first) * 128 + 8 * w)
                    },
            ),
    )
}

/// The view of a vector of blocks as a sequence of word sequences.
pub open spec fn blocks_view(d: Seq<[u64; 16]>) -> Seq<Seq<u64>> {
    d.map_values(|blk: [u64; 16]| blk@)
}

/// The final 8-word state of the whole hash of message `m` with key `k` and
/// requested digest length `nn`, parameters clamped as the entry point
/// clamps them.
pub open spec fn spec_final_state(m: Seq<u8>, k: Seq<u8>, nn: u8) -> Seq<u64> {
    spec_blake2_state(
        spec_blocks(m, k),
        m.len() as u128,
        spec_kk(k) as u64,
        spec_nn(nn) as u64,
    )
}

/// The BLAKE2b digest of message `m` with key `k` (empty for unkeyed
/// hashing) and requested digest length `nn`: the first `min(nn, 64)` bytes
/// of the little-endian serialization of the final state.
pub open spec fn spec_blake2b(m: Seq<u8>, k: Seq<u8>, nn: u8) -> Seq<u8> {
    spec_blake2(
        spec_blocks(m, k),
        m.len() as u128,
        spec_kk(k) as u64,
        spec_nn(nn) as u64,
    )
}

/// The hash is a pure function of its three inputs: two digests of the same
/// message, key and requested length are equal, with no randomness or
/// hidden state.
pub proof fn lemma_blake2b_deterministic(
    m: Seq<u8>,
    k: Seq<u8>,
    nn: u8,
    r1: Seq<u8>,
    r2: Seq<u8>,
)
    requires
        r1 == spec_blake2b(m, k, nn),
        r2 == spec_blake2b(m, k, nn),
    ensures
        r1 == r2,
{
}

/// The digest always has exactly the clamped requested length: `nn` bytes
/// for `nn` in 1..=64.
pub proof fn lemma_blake2b_len(m: Seq<u8>, k: Seq<u8>, nn: u8)
    ensures
        spec_blake2b(m, k, nn).len() == spec_nn(nn),
{
    let st = spec_final_state(m, k, nn);
    assert(st.len() == 8);
    assert(spec_le_bytes(st).len() == 64);
}

/// Truncation is a prefix operation: the digest of length `nn` consists of
/// the first `nn` bytes of the full 64-byte little-endian serialization of
/// its final state; in particular a 1-byte digest is exactly the first byte
/// of that serialization. (The final state itself depends on the clamped
/// `nn` through the parameter word, so digests of different requested
/// lengths do not share a common state.)
pub proof fn lemma_digest_prefix_of_state(m: Seq<u8>, k: Seq<u8>, nn: u8)
    ensures
        forall|j: int|
            0 <= j < spec_nn(nn) ==> spec_blake2b(m, k, nn)[j] == spec_le_bytes(
                spec_final_state(m, k, nn),
            )[j],
        spec_nn(nn) >= 1 ==> spec_blake2b(m, k, nn)[0] == spec_le_bytes(
            spec_final_state(m, k, nn),
        )[0],
{
    let st = spec_final_state(m, k, nn);
    assert(st.len() == 8);
    assert(spec_le_bytes(st).len() == 64);
}

/// A message length that is an exact multiple of the 128-byte block size
/// sits on the expected side of the `ceil` boundary: one byte less needs
/// the same number of blocks, one byte more needs exactly one block more.
pub proof fn lemma_block_count_boundary(mlen: int, kk: int)
    requires
        mlen > 0,
        mlen % 128 == 0,
        0 <= kk <= 64,
    ensures
        spec_dd(mlen, kk) == spec_ceil(kk, 128) + mlen / 128,
        spec_dd(mlen - 1, kk) == spec_dd(mlen, kk),
        spec_dd(mlen + 1, kk) == spec_dd(mlen, kk) + 1,
{
    vstd::arithmetic::div_mod::lemma_fundamental_div_mod(mlen, 128);
    assert(mlen == 128 * (mlen / 128));
    assert(mlen / 128 >= 1);
    assert((mlen - 1) / 128 == mlen / 128 - 1 && (mlen - 1) % 128 == 127) by {
        vstd::arithmetic::div_mod::lemma_fundamental_div_mod(mlen - 1, 128);
    }
    assert((mlen + 1) / 128 == mlen / 128 && (mlen + 1) % 128 == 1) by {
        vstd::arithmetic::div_mod::lemma_fundamental_div_mod(mlen + 1, 128);
    }
}

/// At least one block always exists, even for an empty, unkeyed message:
/// that case is hashed as a single all-zero block.
pub proof fn lemma_at_least_one_block(mlen: int, kk: int)
    requires
        mlen >= 0,
        kk >= 0,
    ensures
        spec_dd(mlen, kk) >= 1,
{
    assert(spec_ceil(kk, 128) >= 0);
    assert(spec_ceil(mlen, 128) >= 0);
}

/// A requested digest length above 64 is silently clamped: it yields the
/// 64-byte digest.
pub proof fn lemma_nn_clamp(m: Seq<u8>, k: Seq<u8>, nn: u8)
    requires
        nn >= 64,
    ensures
        spec_blake2b(m, k, nn) == spec_blake2b(m, k, 64),
{
}

/// A key longer than 64 bytes is silently clamped: only its first 64 bytes
/// influence the digest.
pub proof fn lemma_key_clamp(m: Seq<u8>, k: Seq<u8>, nn: u8)
    requires
        k.len() >= 64,
    ensures
        spec_blake2b(m, k, nn) == spec_blake2b(m, k.take(64), nn),
{
    let kt = k.take(64);
    assert(spec_kk(k) == 64 && spec_kk(kt) == 64);
    assert(kt.take(64) =~= k.take(64));
    let b1 = spec_blocks(m, k);
    let b2 = spec_blocks(m, kt);
    assert(b1.len() == b2.len());
    assert forall|b: int| 0 <= b < b1.len() implies b1[b] == b2[b] by {
        assert forall|w: int| 0 <= w < 16 implies b1[b][w] == b2[b][w] by {
            if b == 0 {
                assert(spec_word_at(k.take(64), 8 * w) == spec_word_at(kt.take(64), 8 * w));
            }
        }
        assert(b1[b] =~= b2[b]);
    }
    assert(b1 =~= b2);
}

/// Packing the chunk of `s` that starts at `off` (up to 8 bytes, cut off at
/// the end of `s`) equals reading a zero-padded word of `s` at `off`.
pub proof fn lemma_word_at_subrange(s: Seq<u8>, off: int)
    requires
        0 <= off < s.len(),
    ensures
        spec_word_from_bytes(
            s.subrange(
                off,
                if off + 8 <= s.len() {
                    off + 8
                } else {
                    s.len() as int
                },
            ),
        ) == spec_word_at(s, off),
{
    let hi = if off + 8 <= s.len() {
        off + 8
    } else {
        s.len() as int
    };
    let sub = s.subrange(off, hi);
    assert(spec_byte_at(sub, 0) == spec_byte_at(s, off));
    assert(spec_byte_at(sub, 1) == spec_byte_at(s, off + 1));
    assert(spec_byte_at(sub, 2) == spec_byte_at(s, off + 2));
    assert(spec_byte_at(sub, 3) == spec_byte_at(s, off + 3));
    assert(spec_byte_at(sub, 4) == spec_byte_at(s, off + 4));
    assert(spec_byte_at(sub, 5) == spec_byte_at(s, off + 5));
    assert(spec_byte_at(sub, 6) == spec_byte_at(s, off + 6));
    assert(spec_byte_at(sub, 7) == spec_byte_at(s, off + 7));
}

/// A zero-padded word read entirely past the end of `s` is zero.
pub proof fn lemma_word_at_zero(s: Seq<u8>, off: int)
    requires
        off >= s.len(),
    ensures
        spec_word_at(s, off) == 0,
{
}

/// Two 16-element sequences that agree at every index are equal.
pub proof fn lemma_seq16_eq<T>(s: Seq<T>, t: Seq<T>)
    requires
        s.len() == 16,
        t.len() == 16,
        s[0] == t[0],
        s[1] == t[1],
        s[2] == t[2],
        s[3] == t[3],
        s[4] == t[4],
        s[5] == t[5],
        s[6] == t[6],
        s[7] == t[7],
        s[8] == t[8],
        s[9] == t[9],
        s[10] == t[10],
        s[11] == t[11],
        s[12] == t[12],
        s[13] == t[13],
        s[14] == t[14],
        s[15] == t[15],
    ensures
        s == t,
{
    assert forall|j: int| 0 <= j < 16 implies s[j] == t[j] by {
        if j == 0 {
        } else if j == 1 {
        } else if j == 2 {
        } else if j == 3 {
        } else if j == 4 {
        } else if j == 5 {
        } else if j == 6 {
        } else if j == 7 {
        } else if j == 8 {
        } else if j == 9 {
        } else if j == 10 {
        } else if j == 11 {
        } else if j == 12 {
        } else if j == 13 {
        } else if j == 14 {
        } else {
            assert(j == 15);
        }
    }
    assert(s =~= t);
}

/// Two 8-element sequences that agree at every index are equal.
pub proof fn lemma_seq8_eq<T>(s: Seq<T>, t: Seq<T>)
    requires
        s.len() == 8,
        t.len() == 8,
        s[0] == t[0],
        s[1] == t[1],
        s[2] == t[2],
        s[3] == t[3],
        s[4] == t[4],
        s[5] == t[5],
        s[6] == t[6],
        s[7] == t[7],
    ensures
        s == t,
{
    assert forall|j: int| 0 <= j < 8 implies s[j] == t[j] by {
        if j == 0 {
        } else if j == 1 {
        } else if j == 2 {
        } else if j == 3 {
        } else if j == 4 {
        } else if j == 5 {
        } else if j == 6 {
        } else {
            assert(j == 7);
        }
    }
    assert(s =~= t);
}

/// A 16-element sequence whose every element is below 16 when each element
/// is below 16.
proof fn lemma_row_bounds(s: Seq<usize>)
    requires
        s.len() == 16,
        s[0] < 16,
        s[1] < 16,
        s[2] < 16,
        s[3] < 16,
        s[4] < 16,
        s[5] < 16,
        s[6] < 16,
        s[7] < 16,
        s[8] < 16,
        s[9] < 16,
        s[10] < 16,
        s[11] < 16,
        s[12] < 16,
        s[13] < 16,
        s[14] < 16,
        s[15] < 16,
    ensures
        forall|j: int| 0 <= j < 16 ==> s[j] < 16,
{
    assert forall|j: int| 0 <= j < 16 implies s[j] < 16 by {
        if j == 0 {
        } else if j == 1 {
        } else if j == 2 {
        } else if j == 3 {
        } else if j == 4 {
        } else if j == 5 {
        } else if j == 6 {
        } else if j == 7 {
        } else if j == 8 {
        } else if j == 9 {
        } else if j == 10 {
        } else if j == 11 {
        } else if j == 12 {
        } else if j == 13 {
        } else if j == 14 {
        } else {
            assert(j == 15);
        }
    }
}

/// Every entry of every permutation schedule row is a valid index into a
/// 16-word block.
pub proof fn lemma_sigma_row_bounds(r: int)
    ensures
        forall|j: int| 0 <= j < 16 ==> spec_sigma_row(r)[j] < 16,
        spec_sigma_row(r).len() == 16,
{
    if r == 0 {
        lemma_row_bounds(spec_sigma_row(r));
    } else if r == 1 {
        lemma_row_bounds(spec_sigma_row(r));
    } else if r == 2 {
        lemma_row_bounds(spec_sigma_row(r));
    } else if r == 3 {
        lemma_row_bounds(spec_sigma_row(r));
    } else if r == 4 {
        lemma_row_bounds(spec_sigma_row(r));
    } else if r == 5 {
        lemma_row_bounds(spec_sigma_row(r));
    } else if r == 6 {
        lemma_row_bounds(spec_sigma_row(r));
    } else if r == 7 {
        lemma_row_bounds(spec_sigma_row(r));
    } else if r == 8 {
        lemma_row_bounds(spec_sigma_row(r));
    } else {
        lemma_row_bounds(spec_sigma_row(r));
    }
}

} // verus!
