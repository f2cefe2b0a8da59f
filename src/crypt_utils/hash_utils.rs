//! One-way digests of three widths, returned as lowercase hexadecimal text.
use vstd::prelude::*;
use sha2::Digest;

verus! {

/// The SHA-256 digest of a byte sequence.
pub uninterp spec fn sha256_of(data: Seq<u8>) -> Seq<u8>;

/// The SHA-384 digest of a byte sequence.
pub uninterp spec fn sha384_of(data: Seq<u8>) -> Seq<u8>;

/// The SHA-512 digest of a byte sequence.
pub uninterp spec fn sha512_of(data: Seq<u8>) -> Seq<u8>;

/// The lowercase hexadecimal digit for a value below 16.
pub open spec fn hex_digit(n: u8) -> char {
    seq!['0', '1', '2', '3', '4', '5', '6', '7', '8', '9', 'a', 'b', 'c', 'd', 'e', 'f'][n as int]
}

/// Lowercase hexadecimal text of a byte sequence: two digits per byte, the
/// high nibble first.
pub open spec fn hex_of(b: Seq<u8>) -> Seq<char>
    decreases b.len(),
{
    if b.len() == 0 {
        Seq::empty()
    } else {
        hex_of(b.drop_last()) + seq![hex_digit(b.last() >> 4u8), hex_digit(b.last() & 15u8)]
    }
}

/// Whether a character is a lowercase hexadecimal digit.
pub open spec fn is_hex_char(c: char) -> bool {
    ('0' <= c && c <= '9') || ('a' <= c && c <= 'f')
}

/// Hexadecimal text has two digits per byte, each a lowercase hex digit.
pub proof fn lemma_hex_of(b: Seq<u8>)
    ensures
        hex_of(b).len() == 2 * b.len(),
        forall|i: int| 0 <= i < hex_of(b).len() ==> is_hex_char(#[trigger] hex_of(b)[i]),
    decreases b.len(),
{
    if b.len() > 0 {
        lemma_hex_of(b.drop_last());
        let x = b.last();
        assert(x >> 4u8 < 16u8) by (bit_vector);
        assert(x & 15u8 < 16u8) by (bit_vector);
        let h = hex_of(b);
        let t = hex_of(b.drop_last());
        assert forall|i: int| 0 <= i < h.len() implies is_hex_char(#[trigger] h[i]) by {
            if i < t.len() {
                assert(h[i] == t[i]);
            }
        }
    }
}

/// The digests are functions of their input: equal inputs give equal hex
/// texts, for each of the three widths.
pub proof fn lemma_digests_deterministic(a: Seq<u8>, b: Seq<u8>)
    requires
        a == b,
    ensures
        hex_of(sha256_of(a)) == hex_of(sha256_of(b)),
        hex_of(sha384_of(a)) == hex_of(sha384_of(b)),
        hex_of(sha512_of(a)) == hex_of(sha512_of(b)),
{
}

/// Relies on `hex::encode`: two lowercase hex digits per byte, high nibble
/// first.
#[verifier::external_body]
pub(crate) fn hex_encode(data: &[u8]) -> (r: String)
    ensures
        r@ == hex_of(data@),
{
    hex::encode(data)
}

/// Relies on `sha2::Sha256`: the 32-byte digest of the input.
#[verifier::external_body]
fn sha256_digest(data: &[u8]) -> (r: Vec<u8>)
    ensures
        r@ == sha256_of(data@),
        r@.len() == 32,
{
    sha2::Sha256::digest(data).to_vec()
}

/// Relies on `sha2::Sha384`: the 48-byte digest of the input.
#[verifier::external_body]
fn sha384_digest(data: &[u8]) -> (r: Vec<u8>)
    ensures
        r@ == sha384_of(data@),
        r@.len() == 48,
{
    sha2::Sha384::digest(data).to_vec()
}

/// Relies on `sha2::Sha512`: the 64-byte digest of the input.
#[verifier::external_body]
pub(crate) fn sha512_digest(data: &[u8]) -> (r: Vec<u8>)
    ensures
        r@ == sha512_of(data@),
        r@.len() == 64,
{
    sha2::Sha512::digest(data).to_vec()
}

/// The SHA-256 digest of `data` as 64 lowercase hex digits.
pub fn sha256(data: &[u8]) -> (r: String)
    ensures
        r@ == hex_of(sha256_of(data@)),
        r@.len() == 64,
{
    let d = sha256_digest(data);
    proof {
        lemma_hex_of(d@);
    }
    hex_encode(d.as_slice())
}

/// The SHA-384 digest of `data` as 96 lowercase hex digits.
pub fn sha384(data: &[u8]) -> (r: String)
    ensures
        r@ == hex_of(sha384_of(data@)),
        r@.len() == 96,
{
    let d = sha384_digest(data);
    proof {
        lemma_hex_of(d@);
    }
    hex_encode(d.as_slice())
}

/// The SHA-512 digest of `data` as 128 lowercase hex digits.
pub fn sha512(data: &[u8]) -> (r: String)
    ensures
        r@ == hex_of(sha512_of(data@)),
        r@.len() == 128,
{
    let d = sha512_digest(data);
    proof {
        lemma_hex_of(d@);
    }
    hex_encode(d.as_slice())
}

} // verus!
