//! Content digests: SHA-256 rendered as lowercase hex.

use sha2::Digest;
use vstd::prelude::*;

verus! {

/// The SHA-256 digest of `data`.
pub uninterp spec fn sha256_spec(data: Seq<u8>) -> Seq<u8>;

/// Lowercase hex digit for a value in `0..16`.
pub open spec fn hex_digit(n: int) -> char {
    if n < 10 {
        (48 + n) as char
    } else {
        (87 + n) as char
    }
}

/// Lowercase hex rendering of `b`, two characters per byte, high nibble first.
pub open spec fn hex_lower(b: Seq<u8>) -> Seq<char>
    decreases b.len(),
{
    if b.len() == 0 {
        Seq::empty()
    } else {
        seq![hex_digit(b[0] as int / 16), hex_digit(b[0] as int % 16)] + hex_lower(b.drop_first())
    }
}

/// The hex rendering has two characters per byte.
pub proof fn lemma_hex_lower_len(b: Seq<u8>)
    ensures
        hex_lower(b).len() == 2 * b.len(),
    decreases b.len(),
{
    if b.len() > 0 {
        lemma_hex_lower_len(b.drop_first());
    }
}

/// Every character of a hex rendering is a lowercase hex digit.
pub proof fn lemma_hex_lower_chars(b: Seq<u8>)
    ensures
        forall|i: int|
            0 <= i < hex_lower(b).len() ==> ('0' <= #[trigger] hex_lower(b)[i] <= '9') || ('a'
                <= hex_lower(b)[i] <= 'f'),
    decreases b.len(),
{
    if b.len() > 0 {
        lemma_hex_lower_chars(b.drop_first());
        let hi = b[0] as int / 16;
        let lo = b[0] as int % 16;
        let rest = hex_lower(b.drop_first());
        assert(hex_lower(b) == seq![hex_digit(hi), hex_digit(lo)] + rest);
        assert forall|i: int| 0 <= i < hex_lower(b).len() implies ('0' <= #[trigger] hex_lower(
            b,
        )[i] <= '9') || ('a' <= hex_lower(b)[i] <= 'f') by {
            if i >= 2 {
                assert(hex_lower(b)[i] == rest[i - 2]);
            }
        }
    }
}

/// SHA-256 of `data`.
///
/// Trusted: `sha2::Sha256::digest` (the `Digest` trait's one-shot hash) returns
/// the 32-byte SHA-256 digest of its input; the digest depends on the input
/// alone, so it is named by `sha256_spec`.
#[verifier::external_body]
fn sha256(data: &[u8]) -> (d: Vec<u8>)
    ensures
        d@ == sha256_spec(data@),
        d@.len() == 32,
{
    sha2::Sha256::digest(data).to_vec()
}

/// Lowercase hex encoding of `data`.
///
/// Trusted: `hex::encode` maps every byte to two characters of
/// `0123456789abcdef`, high nibble first.
#[verifier::external_body]
pub(crate) fn hex_encode(data: &[u8]) -> (s: String)
    ensures
        s@ == hex_lower(data@),
{
    hex::encode(data)
}

/// Lowercase hex SHA-256 of `bytes` (64 characters).
pub fn sha256_hex(bytes: &[u8]) -> (s: String)
    ensures
        s@ == hex_lower(sha256_spec(bytes@)),
        s@.len() == 64,
{
    let d = sha256(bytes);
    proof {
        lemma_hex_lower_len(d@);
    }
    hex_encode(d.as_slice())
}

} // verus!
