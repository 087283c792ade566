//! Lowercase hexadecimal encoding of bytes, and its inverse.

use vstd::prelude::*;

verus! {

/// Why a byte string is not the hexadecimal encoding of anything.
#[derive(Debug, Clone, Copy, PartialEq, Eq, Structural)]
pub enum HexError {
    /// The input has an odd number of characters.
    OddLength,
    /// Some character is not one of `0-9`, `a-f`, `A-F`.
    InvalidDigit,
}

/// The lowercase hexadecimal digit for a value below sixteen.
pub open spec fn hex_digit(nibble: int) -> u8 {
    if nibble < 10 {
        (0x30 + nibble) as u8
    } else {
        (0x57 + nibble) as u8
    }
}

/// The hexadecimal encoding of `bytes`: two lowercase digits per byte, the
/// high half first.
pub open spec fn hex_encoding(bytes: Seq<u8>) -> Seq<u8> {
    Seq::new(
        2 * bytes.len(),
        |i: int|
            if i % 2 == 0 {
                hex_digit(bytes[i / 2] as int / 16)
            } else {
                hex_digit(bytes[i / 2] as int % 16)
            },
    )
}

/// The value of a hexadecimal digit of either case, if `c` is one.
pub open spec fn hex_value(c: u8) -> Option<u8> {
    if 0x30 <= c <= 0x39 {
        Some((c - 0x30) as u8)
    } else if 0x61 <= c <= 0x66 {
        Some((c - 0x57) as u8)
    } else if 0x41 <= c <= 0x46 {
        Some((c - 0x37) as u8)
    } else {
        None
    }
}

/// Whether every character of `hex` is a hexadecimal digit.
pub open spec fn all_hex_digits(hex: Seq<u8>) -> bool {
    forall|i: int| 0 <= i < hex.len() ==> (#[trigger] hex_value(hex[i])) is Some
}

/// The bytes that `hex` encodes, for an even number of hexadecimal digits.
pub open spec fn hex_decoding(hex: Seq<u8>) -> Seq<u8> {
    Seq::new(
        hex.len() / 2,
        |i: int| (hex_value(hex[2 * i])->0 * 16 + hex_value(hex[2 * i + 1])->0) as u8,
    )
}

/// What `decode` returns on `hex`.
pub open spec fn decode_spec(hex: Seq<u8>) -> Result<Seq<u8>, HexError> {
    if hex.len() % 2 != 0 {
        Err(HexError::OddLength)
    } else if !all_hex_digits(hex) {
        Err(HexError::InvalidDigit)
    } else {
        Ok(hex_decoding(hex))
    }
}

fn digit_of(nibble: u8) -> (c: u8)
    requires
        nibble < 16,
    ensures
        c == hex_digit(nibble as int),
{
    if nibble < 10 {
        0x30 + nibble
    } else {
        0x57 + nibble
    }
}

fn value_of(c: u8) -> (v: Option<u8>)
    ensures
        v == hex_value(c),
        v matches Some(n) ==> n < 16,
{
    if 0x30 <= c && c <= 0x39 {
        Some(c - 0x30)
    } else if 0x61 <= c && c <= 0x66 {
        Some(c - 0x57)
    } else if 0x41 <= c && c <= 0x46 {
        Some(c - 0x37)
    } else {
        None
    }
}

/// Replaces the bytes in `bytes` by their hexadecimal encoding.
pub fn encode_in_place(bytes: &mut Vec<u8>)
    ensures
        final(bytes)@ == hex_encoding(old(bytes)@),
{
    let n: usize = bytes.len();
    let mut i: usize = 0;
    while i < n
        invariant
            n == old(bytes)@.len(),
            i <= n,
            bytes@.len() == (n - i) + 2 * i,
            bytes@.subrange(0, n - i) == old(bytes)@.subrange(i as int, n as int),
            bytes@.subrange(n - i, n - i + 2 * i) == hex_encoding(
                old(bytes)@.subrange(0, i as int),
            ),
        decreases n - i,
    {
        let ghost before = bytes@;
        let byte: u8 = bytes.remove(0);
        assert(byte == old(bytes)@[i as int]) by {
            assert(before.subrange(0, n - i)[0] == old(bytes)@.subrange(i as int, n as int)[0]);
        }
        let hi: u8 = byte >> 4;
        let lo: u8 = byte & 0xf;
        assert(hi == byte / 16 && lo == byte % 16) by (bit_vector)
            requires
                hi == byte >> 4,
                lo == byte & 0xf,
        ;
        bytes.push(digit_of(hi));
        bytes.push(digit_of(lo));
        proof {
            let k = n - i - 1;
            assert(bytes@.subrange(0, k) =~= old(bytes)@.subrange(i + 1, n as int)) by {
                assert forall|j: int| 0 <= j < k implies bytes@[j] == old(bytes)@[i + 1 + j] by {
                    assert(before.subrange(0, n - i)[j + 1] == old(bytes)@.subrange(
                        i as int,
                        n as int,
                    )[j + 1]);
                }
            }
            let enc = hex_encoding(old(bytes)@.subrange(0, i + 1));
            assert(bytes@.subrange(k, k + 2 * (i + 1)) =~= enc) by {
                assert forall|j: int| 0 <= j < 2 * (i + 1) implies bytes@[k + j] == enc[j] by {
                    if j < 2 * i {
                        assert(before.subrange(n - i, n - i + 2 * i)[j] == hex_encoding(
                            old(bytes)@.subrange(0, i as int),
                        )[j]);
                    }
                }
            }
        }
        i = i + 1;
    }
    assert(old(bytes)@.subrange(0, n as int) =~= old(bytes)@);
}

/// Replaces the bytes in `bytes` by their hexadecimal encoding.
pub fn binary_to_hex_bytes(bytes: &mut Vec<u8>)
    ensures
        final(bytes)@ == hex_encoding(old(bytes)@),
{
    encode_in_place(bytes)
}

/// Decodes a string of hexadecimal digits, two per byte, of either case.
pub fn decode(hex: &[u8]) -> (res: Result<Vec<u8>, HexError>)
    ensures
        match res {
            Ok(bytes) => decode_spec(hex@) == Ok::<Seq<u8>, HexError>(bytes@),
            Err(e) => decode_spec(hex@) == Err::<Seq<u8>, HexError>(e),
        },
{
    let n: usize = hex.len();
    if n % 2 != 0 {
        return Err(HexError::OddLength);
    }
    let mut bytes: Vec<u8> = Vec::new();
    let mut i: usize = 0;
    while i < n
        invariant
            n == hex@.len(),
            n % 2 == 0,
            i % 2 == 0,
            i <= n,
            bytes@.len() == i / 2,
            forall|j: int| 0 <= j < i ==> (#[trigger] hex_value(hex@[j])) is Some,
            forall|j: int| 0 <= j < bytes@.len() ==> bytes@[j] == hex_decoding(hex@)[j],
        decreases n - i,
    {
        let high: u8 = match value_of(hex[i]) {
            Some(v) => v,
            None => {
                return Err(HexError::InvalidDigit);
            },
        };
        let low: u8 = match value_of(hex[i + 1]) {
            Some(v) => v,
            None => {
                return Err(HexError::InvalidDigit);
            },
        };
        bytes.push(high * 16 + low);
        i = i + 2;
    }
    assert(bytes@ =~= hex_decoding(hex@));
    Ok(bytes)
}

/// Decoding undoes encoding: every byte string is the decoding of its own
/// hexadecimal encoding.
pub proof fn lemma_decode_of_encoding(bytes: Seq<u8>)
    ensures
        decode_spec(hex_encoding(bytes)) == Ok::<Seq<u8>, HexError>(bytes),
{
    let hex = hex_encoding(bytes);
    assert(hex_decoding(hex) =~= bytes);
}

/// An encoding is twice as long as what it encodes, and all of it is
/// hexadecimal digits.
pub proof fn lemma_encoding_is_hex(bytes: Seq<u8>)
    ensures
        hex_encoding(bytes).len() == 2 * bytes.len(),
        all_hex_digits(hex_encoding(bytes)),
{
}

} // verus!
