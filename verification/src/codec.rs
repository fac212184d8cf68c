//! Byte-level primitives shared by the record and container formats:
//! big-endian 32-bit integer fields, the CRC-32/ISO-HDLC checksum, and
//! UTF-8 decoding of payload bytes.

use vstd::prelude::*;
use vstd::utf8::{
    decode_utf8, encode_utf8, encode_utf8_decode_utf8, encode_utf8_valid_utf8, is_ascii_chars,
    is_ascii_chars_encode_utf8, valid_utf8,
};

verus! {

/// The CRC-32/ISO-HDLC checksum of a byte sequence, the checksum the wire
/// format protects each record with. The value depends on the bytes alone;
/// it is pinned down only by the test suite and the checking code that
/// computes it.
pub uninterp spec fn crc32_of(bytes: Seq<u8>) -> u32;

/// Relies on crc::Crc::<u32>::checksum with the CRC-32/ISO-HDLC parameters:
/// a pure table-driven computation whose result depends on the input bytes
/// alone.
#[verifier::external_body]
pub fn crc32(bytes: &[u8]) -> (r: u32)
    ensures
        r == crc32_of(bytes@),
{
    crc::Crc::<u32>::new(&crc::CRC_32_ISO_HDLC).checksum(bytes)
}

/// Relies on core::str::from_utf8: it returns Ok exactly when the bytes are
/// valid UTF-8, and the returned str is their decoding.
#[verifier::external_body]
pub fn str_from_utf8(bytes: &[u8]) -> (r: Option<&str>)
    ensures
        r is Some <==> valid_utf8(bytes@),
        r matches Some(s) ==> s@ == decode_utf8(bytes@),
{
    match core::str::from_utf8(bytes) {
        Ok(s) => Some(s),
        Err(_) => None,
    }
}

/// Appends every byte of `src` to `dst`, in order.
pub fn push_all(dst: &mut Vec<u8>, src: &[u8])
    ensures
        final(dst)@ == old(dst)@ + src@,
{
    let ghost dst0 = dst@;
    let mut i: usize = 0;
    while i < src.len()
        invariant
            i <= src@.len(),
            dst@ == dst0 + src@.subrange(0, i as int),
        decreases src@.len() - i,
    {
        dst.push(src[i]);
        proof {
            assert(dst@ =~= dst0 + src@.subrange(0, i as int + 1));
        }
        i = i + 1;
    }
    proof {
        assert(dst@ =~= dst0 + src@);
    }
}

/// The characters of an ASCII byte sequence, one character per byte.
pub open spec fn ascii_chars_of(s: Seq<u8>) -> Seq<char> {
    s.map_values(|b: u8| b as char)
}

/// The character for decimal digit `d`.
pub open spec fn digit_char(d: nat) -> char
    recommends
        d < 10,
{
    ((48 + d) as u8) as char
}

/// The decimal rendering of `n`: most significant digit first, no
/// leading zeros except for the single digit of zero itself.
pub open spec fn spec_decimal(n: nat) -> Seq<char>
    decreases n,
{
    if n < 10 {
        seq![digit_char(n)]
    } else {
        spec_decimal(n / 10).push(digit_char(n % 10))
    }
}

/// Renders a 32-bit integer in decimal.
pub fn u32_to_decimal(n: u32) -> (r: String)
    ensures
        r@ == spec_decimal(n as nat),
{
    let mut digits: Vec<u8> = Vec::new();
    if n == 0 {
        digits.push(48);
        proof {
            assert(ascii_chars_of(digits@.reverse()) =~= spec_decimal(0));
        }
    } else {
        let mut m = n;
        while m > 0
            invariant
                m <= n,
                n > 0,
                forall|k: int| 0 <= k < digits@.len() ==> 48 <= #[trigger] digits@[k] < 58,
                spec_decimal(n as nat) == (if m > 0 {
                    spec_decimal(m as nat) + ascii_chars_of(digits@.reverse())
                } else {
                    ascii_chars_of(digits@.reverse())
                }),
            decreases m,
        {
            let d = (m % 10) as u8 + 48;
            let ghost old_digits = digits@;
            digits.push(d);
            m = m / 10;
            proof {
                assert(digits@.reverse() =~= seq![d] + old_digits.reverse());
                assert(ascii_chars_of(digits@.reverse()) =~= seq![digit_char((d - 48) as nat)]
                    + ascii_chars_of(old_digits.reverse()));
                if m > 0 {
                    assert(spec_decimal(m as nat).push(digit_char((d - 48) as nat)) + ascii_chars_of(
                        old_digits.reverse(),
                    ) =~= spec_decimal(m as nat) + ascii_chars_of(digits@.reverse()));
                } else {
                    assert(seq![digit_char((d - 48) as nat)] + ascii_chars_of(old_digits.reverse())
                        =~= ascii_chars_of(digits@.reverse()));
                }
            }
        }
    }
    let mut ordered: Vec<u8> = Vec::new();
    let mut i: usize = digits.len();
    while i > 0
        invariant
            i <= digits@.len(),
            forall|k: int| 0 <= k < digits@.len() ==> 48 <= #[trigger] digits@[k] < 58,
            ordered@ == digits@.subrange(i as int, digits@.len() as int).reverse(),
        decreases i,
    {
        i = i - 1;
        let ghost old_ordered = ordered@;
        ordered.push(digits[i]);
        proof {
            assert(ordered@ =~= digits@.subrange(i as int, digits@.len() as int).reverse());
        }
    }
    proof {
        assert(digits@.subrange(0, digits@.len() as int) =~= digits@);
        assert(forall|k: int| 0 <= k < ordered@.len() ==> #[trigger] ordered@[k] < 128);
        lemma_ascii_bytes_decode(ordered@);
    }
    match str_from_utf8(ordered.as_slice()) {
        Some(s) => s.to_owned(),
        None => {
            proof {
                assert(false);
            }
            String::new()
        },
    }
}

/// A sequence of bytes below 128 is valid UTF-8 and decodes to one
/// character per byte.
pub proof fn lemma_ascii_bytes_decode(s: Seq<u8>)
    requires
        forall|i: int| 0 <= i < s.len() ==> s[i] < 128,
    ensures
        valid_utf8(s),
        decode_utf8(s) == ascii_chars_of(s),
{
    let chars = ascii_chars_of(s);
    assert forall|i: int| 0 <= i < chars.len() implies '\0' <= #[trigger] chars[i]
        <= '\u{7f}' by {
        assert(chars[i] == s[i] as char);
    }
    assert(is_ascii_chars(chars));
    is_ascii_chars_encode_utf8(chars);
    assert(encode_utf8(chars) =~= s);
    encode_utf8_valid_utf8(chars);
    encode_utf8_decode_utf8(chars);
}

/// The 4-byte big-endian rendering of a 32-bit unsigned integer.
pub open spec fn u32_to_be(x: u32) -> Seq<u8> {
    seq![
        ((x >> 24) & 0xff) as u8,
        ((x >> 16) & 0xff) as u8,
        ((x >> 8) & 0xff) as u8,
        (x & 0xff) as u8,
    ]
}

/// The 32-bit unsigned integer read from 4 bytes in big-endian order.
pub open spec fn u32_from_be(s: Seq<u8>) -> u32
    recommends
        s.len() == 4,
{
    (((s[0] as u32) << 24) | ((s[1] as u32) << 16) | ((s[2] as u32) << 8) | (s[3] as u32)) as u32
}

/// Writing a 32-bit integer big-endian and reading it back is the identity.
pub proof fn lemma_u32_be_round_trip(x: u32)
    ensures
        u32_from_be(u32_to_be(x)) == x,
{
    assert(((((((x >> 24) & 0xff) as u8) as u32) << 24) | (((((x >> 16) & 0xff) as u8) as u32)
        << 16) | (((((x >> 8) & 0xff) as u8) as u32) << 8) | (((x & 0xff) as u8) as u32)) as u32
        == x) by (bit_vector);
}

/// Renders a 32-bit integer as its 4 big-endian bytes.
pub fn u32_to_be_bytes(x: u32) -> (r: [u8; 4])
    ensures
        r@ == u32_to_be(x),
{
    let r: [u8; 4] = [
        ((x >> 24) & 0xff) as u8,
        ((x >> 16) & 0xff) as u8,
        ((x >> 8) & 0xff) as u8,
        (x & 0xff) as u8,
    ];
    assert(r@ =~= u32_to_be(x));
    r
}

/// Reads the 4 bytes at `offset` as a big-endian 32-bit integer.
pub fn read_u32_be(bytes: &[u8], offset: usize) -> (r: u32)
    requires
        offset + 4 <= bytes@.len(),
    ensures
        r == u32_from_be(bytes@.subrange(offset as int, offset as int + 4)),
{
    let b0 = bytes[offset];
    let b1 = bytes[offset + 1];
    let b2 = bytes[offset + 2];
    let b3 = bytes[offset + 3];
    let r = ((b0 as u32) << 24) | ((b1 as u32) << 16) | ((b2 as u32) << 8) | (b3 as u32);
    proof {
        let s = bytes@.subrange(offset as int, offset as int + 4);
        assert(s[0] == b0 && s[1] == b1 && s[2] == b2 && s[3] == b3);
    }
    r
}

} // verus!
