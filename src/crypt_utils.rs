//! Packets of bytes, credential and salt generation, and the stages that
//! transform a packet's payload: compression, digests and encryption.
use vstd::prelude::*;
use vstd::string::StringExecFns;
use vstd::utf8::encode_utf8;
use crate::bytes::{le_bytes, push_all, push_char};
use crate::crypt_utils::hash_utils::{hex_encode, hex_of, is_hex_char, lemma_hex_of, sha512_digest, sha512_of};
use rand::Rng;

pub mod aes_utils;
pub mod compression_utils;
pub mod hash_utils;
pub mod rsa_utils;

verus! {

/// What went wrong in a packet operation.
#[derive(Debug, Clone, Copy, PartialEq, Eq, Structural)]
pub enum CryptError {
    /// Compression was asked of a payload that is already compressed.
    AlreadyCompressed,
    /// Decompression was asked of a payload that is not compressed.
    NotCompressed,
    /// The operation does not apply to an encrypted payload.
    InvalidState,
    /// Encryption was asked of a payload that is already encrypted.
    AlreadyEncrypted,
    /// Decryption was asked of a payload that is not encrypted.
    NotEncrypted,
    /// An encrypted payload carries no nonce.
    MissingNonce,
    /// The stored nonce does not have the cipher's nonce length.
    InvalidNonce,
    /// The ciphertext, its tag, the key or the associated data do not match.
    AuthenticationFailure,
    /// A block of an asymmetric ciphertext does not decrypt, or the
    /// ciphertext is not a whole number of blocks.
    DecryptionFailure,
    /// The compressed stream is malformed.
    CorruptStream,
    /// The compressor or the cipher refused the payload.
    TransformFailure,
    /// A key's encoding does not decode.
    InvalidKey,
    /// The system's secure random source could not be read.
    RandomUnavailable,
    /// The payload is not valid UTF-8 text.
    InvalidText,
}

/// How a packet's payload is compressed.
#[derive(Debug, Clone, Copy, PartialEq, Eq, Structural)]
pub enum CompressionType {
    Uncompressed,
    Brotli,
}

/// A payload of bytes and the compression applied to it.
#[derive(Debug)]
pub struct BinaryPacket {
    pub data: Vec<u8>,
    pub compression_type: CompressionType,
}

/// The length-prefixed form of a text: its UTF-8 byte count as a
/// little-endian `u64`, then the bytes.
pub open spec fn framed_text(s: Seq<char>) -> Seq<u8> {
    le_bytes(encode_utf8(s).len() as u64) + encode_utf8(s)
}

/// Relies on `bincode::serialize` of a `str`: the byte count as a
/// little-endian `u64`, then the UTF-8 bytes; writing to memory never fails.
#[verifier::external_body]
fn frame_text(s: &str) -> (r: Vec<u8>)
    ensures
        r@ == framed_text(s@),
{
    bincode::serialize(s).unwrap_or_default()
}

impl BinaryPacket {
    /// An empty, uncompressed packet.
    pub fn new() -> (r: Self)
        ensures
            r.data@ == Seq::<u8>::empty(),
            r.compression_type == CompressionType::Uncompressed,
    {
        BinaryPacket { data: Vec::new(), compression_type: CompressionType::Uncompressed }
    }

    /// An uncompressed packet holding the length-prefixed form of `text`.
    pub fn from(text: &str) -> (r: Self)
        ensures
            r.data@ == framed_text(text@),
            r.compression_type == CompressionType::Uncompressed,
    {
        BinaryPacket { data: frame_text(text), compression_type: CompressionType::Uncompressed }
    }
}

/// The credential derived from a secret and a salt.
pub open spec fn apikey_of(secret: Seq<char>, salt: Seq<char>) -> Seq<char> {
    "tyb_key_"@ + hex_of(sha512_of(framed_text(secret) + framed_text(salt)))
}

/// The credential text for a digest: the tag `tyb_key_`, then the digest
/// as lowercase hex.
pub fn apikey_from_digest(digest: &[u8]) -> (r: String)
    ensures
        r@ == "tyb_key_"@ + hex_of(digest@),
        r@.len() == 8 + 2 * digest@.len(),
        forall|i: int| 8 <= i < r@.len() ==> is_hex_char(#[trigger] r@[i]),
{
    let hex = hex_encode(digest);
    proof {
        lemma_hex_of(digest@);
        reveal_strlit("tyb_key_");
    }
    let key = String::from_str("tyb_key_").concat(hex.as_str());
    proof {
        assert forall|i: int| 8 <= i < key@.len() implies is_hex_char(#[trigger] key@[i]) by {
            assert(key@[i] == hex@[i - 8]);
        }
    }
    key
}

/// Derives a credential: the widest digest of the secret and then the salt,
/// each length-prefixed, as hex text after the tag `tyb_key_`.
pub fn gen_apikey(pass_sha384: &str, salt: &str) -> (r: String)
    ensures
        r@ == apikey_of(pass_sha384@, salt@),
        r@.len() == 8 + 128,
        forall|i: int| 8 <= i < r@.len() ==> is_hex_char(#[trigger] r@[i]),
{
    let mut combined = frame_text(pass_sha384);
    let framed_salt = frame_text(salt);
    push_all(&mut combined, framed_salt.as_slice());
    let digest = sha512_digest(combined.as_slice());
    apikey_from_digest(digest.as_slice())
}

/// The characters a salt is drawn from: digits, then upper-case, then
/// lower-case letters.
pub open spec fn salt_alphabet() -> Seq<char> {
    seq![
        '0', '1', '2', '3', '4', '5', '6', '7', '8', '9', 'A', 'B', 'C', 'D', 'E', 'F', 'G', 'H',
        'I', 'J', 'K', 'L', 'M', 'N', 'O', 'P', 'Q', 'R', 'S', 'T', 'U', 'V', 'W', 'X', 'Y', 'Z',
        'a', 'b', 'c', 'd', 'e', 'f', 'g', 'h', 'i', 'j', 'k', 'l', 'm', 'n', 'o', 'p', 'q', 'r',
        's', 't', 'u', 'v', 'w', 'x', 'y', 'z',
    ]
}

/// Whether a character is an ASCII letter or digit.
pub open spec fn is_alnum(c: char) -> bool {
    ('0' <= c && c <= '9') || ('A' <= c && c <= 'Z') || ('a' <= c && c <= 'z')
}

/// The number of characters in a salt after its tag.
pub const SALT_LEN: usize = 64;

/// The salt character for a draw below 62.
fn alphabet_char(d: usize) -> (c: char)
    requires
        d < 62,
    ensures
        c == salt_alphabet()[d as int],
{
    if d < 10 {
        proof {
            assert(salt_alphabet()[d as int] == (48 + d) as char) by {
                assert(salt_alphabet()[0] == '0');
            }
        }
        ((48 + d) as u8) as char
    } else if d < 36 {
        ((55 + d) as u8) as char
    } else {
        ((61 + d) as u8) as char
    }
}

/// Builds a salt from draws below 62: the tag `tyb_salt_`, then the
/// alphabet character that each draw picks, in order.
pub fn salt_from_draws(draws: &[usize]) -> (r: String)
    requires
        forall|i: int| 0 <= i < draws@.len() ==> #[trigger] draws@[i] < 62,
    ensures
        r@ == "tyb_salt_"@ + draws@.map_values(|d: usize| salt_alphabet()[d as int]),
{
    let mut key = String::from_str("tyb_salt_");
    let mut i: usize = 0;
    while i < draws.len()
        invariant
            i <= draws@.len(),
            forall|j: int| 0 <= j < draws@.len() ==> #[trigger] draws@[j] < 62,
            key@ == "tyb_salt_"@ + draws@.subrange(0, i as int).map_values(
                |d: usize| salt_alphabet()[d as int],
            ),
        decreases draws@.len() - i,
    {
        let c = alphabet_char(draws[i]);
        push_char(&mut key, c);
        i = i + 1;
        assert(draws@.subrange(0, i as int).map_values(|d: usize| salt_alphabet()[d as int])
            =~= draws@.subrange(0, i - 1).map_values(|d: usize| salt_alphabet()[d as int]).push(c));
    }
    assert(draws@.subrange(0, draws@.len() as int) =~= draws@);
    key
}

/// Relies on `rand::thread_rng` and `Rng::gen_range`: a draw below `n`.
#[verifier::external_body]
fn random_below(n: usize) -> (r: usize)
    requires
        n > 0,
    ensures
        r < n,
{
    rand::thread_rng().gen_range(0..n)
}

/// A fresh salt: the tag `tyb_salt_` followed by 64 characters drawn
/// uniformly from the ASCII letters and digits.
pub fn gen_salt() -> (r: String)
    ensures
        r@.len() == 9 + 64,
        r@.subrange(0, 9) == "tyb_salt_"@,
        forall|i: int| 9 <= i < r@.len() ==> is_alnum(#[trigger] r@[i]),
{
    let mut draws: Vec<usize> = Vec::new();
    let mut i: usize = 0;
    while i < SALT_LEN
        invariant
            i <= SALT_LEN,
            draws@.len() == i,
            forall|j: int| 0 <= j < draws@.len() ==> #[trigger] draws@[j] < 62,
        decreases SALT_LEN - i,
    {
        draws.push(random_below(62));
        i = i + 1;
    }
    let r = salt_from_draws(draws.as_slice());
    proof {
        reveal_strlit("tyb_salt_");
        let m = draws@.map_values(|d: usize| salt_alphabet()[d as int]);
        assert(r@.subrange(0, 9) =~= "tyb_salt_"@);
        assert forall|i: int| 9 <= i < r@.len() implies is_alnum(#[trigger] r@[i]) by {
            assert(r@[i] == m[i - 9]);
            let d = draws@[i - 9] as int;
            assert(0 <= d < 62);
            assert(is_alnum(salt_alphabet()[d]));
        }
    }
    r
}

} // verus!
