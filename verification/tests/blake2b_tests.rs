//! Known-answer tests from RFC 7693 and the BLAKE2 reference test vectors,
//! plus boundary and regression checks for the digest's documented
//! properties.
use blake2b::blake2b;

/// Decode a lowercase hex string into bytes.
fn hx(s: &str) -> Vec<u8> {
    let b = s.as_bytes();
    assert!(b.len() % 2 == 0);
    let val = |c: u8| -> u8 {
        match c {
            b'0'..=b'9' => c - b'0',
            b'a'..=b'f' => c - b'a' + 10,
            _ => panic!("not a hex digit"),
        }
    };
    let mut out = Vec::new();
    let mut i = 0;
    while i < b.len() {
        out.push(val(b[i]) * 16 + val(b[i + 1]));
        i += 2;
    }
    out
}

#[test]
fn kat_unkeyed_empty_512() {
    let d = blake2b(b"", b"", 64);
    assert_eq!(
        d,
        hx("786a02f742015903c6c6fd852552d272912f4740e15847618a86e217f71f5419d25e1031afee585313896444934eb04b903a685b1448b755d56f701afe9be2ce")
    );
}

#[test]
fn kat_unkeyed_abc_512() {
    let d = blake2b(b"abc", b"", 64);
    assert_eq!(
        d,
        hx("ba80a53f981c4d0d6a2797b69f12f6e94c212f14685ac4b74b12bb6fdbffa2d17d87c5392aab792dc252d5de4533cc9518d38aa8dbf1925ab92386edd4009923")
    );
}

#[test]
fn kat_keyed_empty_512() {
    let key: Vec<u8> = (0u8..64).collect();
    let d = blake2b(b"", &key, 64);
    assert_eq!(
        d,
        hx("10ebb67700b1868efb4417987acf4690ae9d972fb7a590c2f02871799aaa4786b5e996e8f0f4eb981fc214b005f42d2ff4233499391653df7aefcbc13fc51568")
    );
}

#[test]
fn deterministic_same_inputs() {
    let m = b"the same message, hashed twice";
    let k = b"a secret key";
    assert_eq!(blake2b(m, k, 64), blake2b(m, k, 64));
    assert_eq!(blake2b(m, b"", 32), blake2b(m, b"", 32));
}

#[test]
fn output_length_matches_request() {
    for nn in 1u8..=64 {
        assert_eq!(blake2b(b"length check", b"", nn).len(), nn as usize);
        assert_eq!(blake2b(b"", b"key", nn).len(), nn as usize);
    }
}

#[test]
fn single_bit_flip_in_message_changes_digest() {
    let base = b"avalanche test message".to_vec();
    let reference = blake2b(&base, b"", 64);
    for byte in 0..base.len() {
        for bit in 0..8 {
            let mut flipped = base.clone();
            flipped[byte] ^= 1u8 << bit;
            assert_ne!(blake2b(&flipped, b"", 64), reference);
        }
    }
}

#[test]
fn single_bit_flip_in_key_changes_digest() {
    let key = b"0123456789abcdef".to_vec();
    let reference = blake2b(b"message", &key, 64);
    for byte in 0..key.len() {
        for bit in 0..8 {
            let mut flipped = key.clone();
            flipped[byte] ^= 1u8 << bit;
            assert_ne!(blake2b(b"message", &flipped, 64), reference);
        }
    }
}

#[test]
fn changed_digest_length_changes_digest() {
    let d63 = blake2b(b"message", b"", 63);
    let d64 = blake2b(b"message", b"", 64);
    assert_ne!(d63, d64[..63].to_vec());
}

#[test]
fn keyed_differs_from_unkeyed() {
    let m = b"the very same message";
    assert_ne!(blake2b(m, b"k", 64), blake2b(m, b"", 64));
    assert_ne!(blake2b(b"", b"k", 64), blake2b(b"", b"", 64));
}

#[test]
fn block_boundary_lengths() {
    for base in [128usize, 256, 384] {
        let shorter = blake2b(&vec![7u8; base - 1], b"", 64);
        let exact = blake2b(&vec![7u8; base], b"", 64);
        let longer = blake2b(&vec![7u8; base + 1], b"", 64);
        assert_eq!(shorter.len(), 64);
        assert_eq!(exact.len(), 64);
        assert_eq!(longer.len(), 64);
        assert_ne!(shorter, exact);
        assert_ne!(exact, longer);
        assert_ne!(shorter, longer);
    }
}

#[test]
fn block_boundary_with_key() {
    // A key occupies its own leading block: 128 message bytes then span
    // blocks 1 and does not disturb the count.
    let key = b"k";
    let a = blake2b(&vec![1u8; 127], key, 64);
    let b = blake2b(&vec![1u8; 128], key, 64);
    let c = blake2b(&vec![1u8; 129], key, 64);
    assert_ne!(a, b);
    assert_ne!(b, c);
}

#[test]
fn one_byte_digest() {
    let d = blake2b(b"tiny", b"", 1);
    assert_eq!(d.len(), 1);
}

#[test]
fn oversized_key_is_clamped_to_64_bytes() {
    let long_key: Vec<u8> = (0u8..80).collect();
    let clamped: Vec<u8> = (0u8..64).collect();
    assert_eq!(blake2b(b"m", &long_key, 64), blake2b(b"m", &clamped, 64));
}

#[test]
fn oversized_digest_request_is_clamped_to_64() {
    assert_eq!(blake2b(b"m", b"", 255), blake2b(b"m", b"", 64));
    assert_eq!(blake2b(b"m", b"", 65).len(), 64);
}

#[test]
fn zero_digest_request_yields_empty_digest() {
    // A requested length of 0 is not validated; the truncation then keeps
    // nothing.
    assert_eq!(blake2b(b"m", b"", 0).len(), 0);
}

#[test]
fn empty_message_with_key_uses_one_block() {
    // kk > 0 and an empty message: the key block is the single, final block.
    let d = blake2b(b"", b"key", 64);
    assert_eq!(d.len(), 64);
    assert_ne!(d, blake2b(b"", b"", 64));
}
