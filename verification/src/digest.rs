//! Digest computation for candidates: SHA-1 over the candidate's UTF-8
//! bytes, reported as canonical lowercase hexadecimal text.

use vstd::prelude::*;
use sha1::Digest;

verus! {

/// The hexadecimal digit character for a value below sixteen.
pub open spec fn hex_digit_char(d: nat) -> char {
    if d < 10 {
        crate::text::digit_char(d)
    } else if d == 10 {
        'a'
    } else if d == 11 {
        'b'
    } else if d == 12 {
        'c'
    } else if d == 13 {
        'd'
    } else if d == 14 {
        'e'
    } else {
        'f'
    }
}

/// Canonical lowercase hexadecimal encoding of a byte sequence: two digits
/// per byte, high nibble first.
pub open spec fn hex_of(bytes: Seq<u8>) -> Seq<char> {
    Seq::new(
        bytes.len() * 2,
        |i: int|
            if i % 2 == 0 {
                hex_digit_char((bytes[i / 2] >> 4u8) as nat)
            } else {
                hex_digit_char((bytes[i / 2] & 0x0fu8) as nat)
            },
    )
}

/// The SHA-1 digest of a byte sequence. Only named here: it is a fixed
/// function of the input bytes alone, computed by the `sha1` crate.
pub uninterp spec fn sha1_of(bytes: Seq<u8>) -> Seq<u8>;

/// Relies on `sha1::Sha1::digest`: the 160-bit (20-byte) SHA-1 digest of the
/// input, determined by the input bytes alone.
#[verifier::external_body]
fn sha1_bytes(data: &[u8]) -> (r: Vec<u8>)
    ensures
        r@ == sha1_of(data@),
        r@.len() == 20,
{
    sha1::Sha1::digest(data).to_vec()
}

/// Relies on `hex::encode`: lowercase hexadecimal text, two digits per input
/// byte, high nibble first.
#[verifier::external_body]
fn hex_encode(data: &Vec<u8>) -> (r: String)
    ensures
        r@ == hex_of(data@),
{
    hex::encode(data)
}

/// The lowercase hexadecimal SHA-1 digest of a piece of text (the digest of
/// its UTF-8 bytes).
pub open spec fn digest_hex_of(s: Seq<char>) -> Seq<char> {
    hex_of(sha1_of(vstd::utf8::encode_utf8(s)))
}

/// Computes the lowercase hexadecimal SHA-1 digest of a candidate.
pub fn digest_hex(candidate: &str) -> (r: String)
    ensures
        r@ == digest_hex_of(candidate@),
        r@.len() == 40,
{
    let bytes = candidate.as_bytes();
    let d = sha1_bytes(bytes);
    hex_encode(&d)
}

/// The digest function is deterministic: hashing the same candidate twice
/// yields the same hexadecimal digest.
pub proof fn lemma_digest_deterministic(a: Seq<char>, b: Seq<char>)
    requires
        a == b,
    ensures
        digest_hex_of(a) == digest_hex_of(b),
{
}

} // verus!
