//! Authenticated encryption of a message under AES-256-GCM, with a fresh
//! random 96-bit nonce per encryption and fixed associated data.
use vstd::prelude::*;
use vstd::string::StrSliceExecFns;
use vstd::utf8::{decode_utf8, encode_utf8, valid_utf8};
use vstd::slice::slice_to_vec;
use ring::aead::{Aad, LessSafeKey, Nonce, UnboundKey, AES_256_GCM};
use ring::rand::SecureRandom;
use crate::bytes::string_from_utf8;
use crate::crypt_utils::CryptError;
use crate::crypt_utils::hash_utils::{hex_of, is_hex_char, lemma_hex_of, sha256, sha256_of};

verus! {

/// The AES-256-GCM ciphertext of `plain` followed by its 16-byte tag.
pub uninterp spec fn aes_gcm_sealed(key: Seq<u8>, nonce: Seq<u8>, aad: Seq<u8>, plain: Seq<u8>) -> Seq<u8>;

/// The plaintext that AES-256-GCM recovers from a ciphertext with its tag,
/// or nothing when the tag does not verify.
pub uninterp spec fn aes_gcm_opened(key: Seq<u8>, nonce: Seq<u8>, aad: Seq<u8>, sealed: Seq<u8>) -> Option<Seq<u8>>;

/// The longest plaintext that AES-GCM seals: 2^36 - 32 bytes.
pub open spec fn max_seal_len() -> int {
    68_719_476_704
}

/// Relies on `ring::aead::LessSafeKey::seal_in_place_separate_tag` with
/// `AES_256_GCM`: the ciphertext is as long as the plaintext, and the
/// 16-byte tag is appended to it; it fails only on a plaintext longer than
/// 2^36 - 32 bytes.
#[verifier::external_body]
pub(crate) fn gcm_seal(key: &[u8; 32], nonce: &[u8], aad: &[u8], plain: &[u8]) -> (r: Option<Vec<u8>>)
    requires
        nonce@.len() == 12,
    ensures
        plain@.len() <= max_seal_len() ==> r is Some,
        r is Some ==> r->Some_0@ == aes_gcm_sealed(key@, nonce@, aad@, plain@),
        r is Some ==> r->Some_0@.len() == plain@.len() + 16,
{
    let key = LessSafeKey::new(UnboundKey::new(&AES_256_GCM, key).ok()?);
    let nonce = Nonce::try_assume_unique_for_key(nonce).ok()?;
    let mut in_out = plain.to_vec();
    let tag = key.seal_in_place_separate_tag(nonce, Aad::from(aad), &mut in_out).ok()?;
    in_out.extend_from_slice(tag.as_ref());
    Some(in_out)
}

/// Relies on `ring::aead::LessSafeKey::open_in_place` with `AES_256_GCM`:
/// it checks the trailing tag and returns the plaintext; an input shorter
/// than the 16-byte tag fails, and what was sealed under the same key, nonce
/// and associated data opens to its plaintext.
#[verifier::external_body]
pub(crate) fn gcm_open(key: &[u8; 32], nonce: &[u8], aad: &[u8], sealed: &[u8]) -> (r: Option<Vec<u8>>)
    requires
        nonce@.len() == 12,
    ensures
        r is Some ==> aes_gcm_opened(key@, nonce@, aad@, sealed@) == Some(r->Some_0@),
        r is None ==> aes_gcm_opened(key@, nonce@, aad@, sealed@) is None,
        sealed@.len() < 16 ==> r is None,
        forall|p: Seq<u8>| aes_gcm_sealed(key@, nonce@, aad@, p) == sealed@ ==> r is Some && r->Some_0@ == p,
{
    let key = LessSafeKey::new(UnboundKey::new(&AES_256_GCM, key).ok()?);
    let nonce = Nonce::try_assume_unique_for_key(nonce).ok()?;
    let mut in_out = sealed.to_vec();
    let plain = key.open_in_place(nonce, Aad::from(aad), &mut in_out).ok()?;
    Some(plain.to_vec())
}

/// Relies on `ring::rand::SystemRandom::fill`: `n` bytes from the system's
/// secure random source, or nothing when it cannot be read.
#[verifier::external_body]
pub(crate) fn random_bytes(n: usize) -> (r: Option<Vec<u8>>)
    ensures
        r is Some ==> r->Some_0@.len() == n,
{
    let mut v = vec![0u8; n];
    ring::rand::SystemRandom::new().fill(&mut v).ok()?;
    Some(v)
}

/// The associated data bound into every encryption of a message.
pub const PACKET_AAD: &'static str = "1523 Elizabeth Ave #130, Charlotte, NC 28204 (take a break from coding, eat some sushi!)";

/// The length of an AES-GCM nonce in bytes.
pub const NONCE_LEN: usize = 12;

/// A message: its payload, the associated data, and, once encrypted, the
/// nonce it was sealed with.
#[derive(Debug, Clone)]
pub struct AesMsg {
    pub data: Vec<u8>,
    pub aad: Vec<u8>,
    pub nonce: Option<Vec<u8>>,
    pub is_encrypted: bool,
}

impl AesMsg {
    /// A plaintext message holding `v`.
    pub fn from_bytes(v: Vec<u8>) -> (r: Self)
        ensures
            r.data@ == v@,
            r.aad@ == encode_utf8(PACKET_AAD@),
            r.nonce is None,
            !r.is_encrypted,
    {
        AesMsg { data: v, aad: slice_to_vec(PACKET_AAD.as_bytes()), nonce: None, is_encrypted: false }
    }

    /// A plaintext message holding the UTF-8 bytes of `s`.
    pub fn from_str(s: &str) -> (r: Self)
        ensures
            r.data@ == encode_utf8(s@),
            r.aad@ == encode_utf8(PACKET_AAD@),
            r.nonce is None,
            !r.is_encrypted,
    {
        Self::from_bytes(slice_to_vec(s.as_bytes()))
    }

    /// The payload as text; fails with `InvalidState` while encrypted and
    /// with `InvalidText` when the payload is not UTF-8.
    pub fn extract_str(&self) -> (r: Result<String, CryptError>)
        ensures
            self.is_encrypted ==> r == Err::<String, CryptError>(CryptError::InvalidState),
            !self.is_encrypted && valid_utf8(self.data@) ==> r is Ok && r->Ok_0@ == decode_utf8(
                self.data@,
            ),
            !self.is_encrypted && !valid_utf8(self.data@) ==> r == Err::<String, CryptError>(
                CryptError::InvalidText,
            ),
    {
        if self.is_encrypted {
            return Err(CryptError::InvalidState);
        }
        match string_from_utf8(slice_to_vec(self.data.as_slice())) {
            Some(s) => Ok(s),
            None => Err(CryptError::InvalidText),
        }
    }
}

/// The key that a credential text yields: the first 32 characters of the
/// hex SHA-256 digest of its bytes, each taken as one byte.
pub open spec fn apikey_key(apikey: Seq<char>) -> Seq<u8> {
    Seq::new(32, |i: int| hex_of(sha256_of(encode_utf8(apikey)))[i] as u8)
}

/// Whether a byte is the ASCII code of a lowercase hex digit.
pub open spec fn is_hex_byte(b: u8) -> bool {
    (48 <= b && b <= 57) || (97 <= b && b <= 102)
}

proof fn lemma_hex_char_byte(c: char)
    requires
        is_hex_char(c),
    ensures
        is_hex_byte(c as u8),
{
    let u = c as u32;
    assert(u < 256);
    assert((u as u8) as u32 == u) by (bit_vector)
        requires
            u < 256,
    ;
}

/// A 256-bit AES-GCM key.
pub struct AesEncryption {
    key: [u8; 32],
}

impl View for AesEncryption {
    type V = Seq<u8>;

    closed spec fn view(&self) -> Seq<u8> {
        self.key@
    }
}

/// The message `m` sealed under `key` with nonce `n`: the ciphertext with
/// its tag as payload, the nonce stored, the associated data kept.
pub open spec fn sealed_msg(key: Seq<u8>, before: AesMsg, after: AesMsg) -> bool {
    &&& after.nonce is Some
    &&& after.nonce->Some_0@.len() == 12
    &&& after.data@ == aes_gcm_sealed(key, after.nonce->Some_0@, before.aad@, before.data@)
    &&& after.is_encrypted
    &&& after.aad@ == before.aad@
}

/// Whether the message is encrypted and carries a nonce of the cipher's
/// length.
pub open spec fn has_nonce(m: AesMsg) -> bool {
    m.is_encrypted && m.nonce is Some && m.nonce->Some_0@.len() == 12
}

impl AesEncryption {
    /// A fresh key from the system's secure random source.
    pub fn new() -> (r: Result<Self, CryptError>)
        ensures
            r is Ok ==> r->Ok_0@.len() == 32,
            r is Err ==> r->Err_0 == CryptError::RandomUnavailable,
    {
        let bytes = match random_bytes(32) {
            Some(b) => b,
            None => {
                return Err(CryptError::RandomUnavailable);
            },
        };
        let mut key = [0u8; 32];
        let mut i: usize = 0;
        while i < 32
            invariant
                bytes@.len() == 32,
                key@.len() == 32,
                i <= 32,
            decreases 32 - i,
        {
            key[i] = bytes[i];
            i = i + 1;
        }
        Ok(AesEncryption { key: key })
    }

    /// The key's bytes.
    pub(crate) fn key_bytes(&self) -> (r: &[u8; 32])
        ensures
            r@ == self@,
    {
        &self.key
    }

    /// The key with the given bytes.
    pub fn from(key: &[u8; 32]) -> (r: Self)
        ensures
            r@ == key@,
    {
        AesEncryption { key: *key }
    }

    /// The key whose bytes are the first 32 characters of a hex text, each
    /// taken as one byte.
    pub fn from_hex_text(hex: &str) -> (r: Self)
        requires
            hex@.len() >= 32,
        ensures
            r@ == Seq::new(32, |i: int| hex@[i] as u8),
    {
        let mut key = [0u8; 32];
        let mut i: usize = 0;
        while i < 32
            invariant
                i <= 32,
                key@.len() == 32,
                hex@.len() >= 32,
                forall|j: int| 0 <= j < i ==> key@[j] == #[trigger] hex@[j] as u8,
            decreases 32 - i,
        {
            key[i] = hex.get_char(i) as u8;
            i = i + 1;
        }
        let r = AesEncryption { key: key };
        assert(r@ =~= Seq::new(32, |i: int| hex@[i] as u8));
        r
    }

    /// The key derived from a credential text; each of its bytes is a
    /// lowercase hex digit.
    pub fn from_tyb_apikey(apikey: &str) -> (r: Self)
        ensures
            r@ == apikey_key(apikey@),
            r@.len() == 32,
            forall|i: int| 0 <= i < 32 ==> is_hex_byte(#[trigger] r@[i]),
    {
        let digest = sha256(apikey.as_bytes());
        proof {
            lemma_hex_of(sha256_of(encode_utf8(apikey@)));
        }
        let r = Self::from_hex_text(digest.as_str());
        assert(r@ =~= apikey_key(apikey@));
        assert forall|i: int| 0 <= i < 32 implies is_hex_byte(#[trigger] r@[i]) by {
            let c = digest@[i];
            assert(is_hex_char(c));
            assert(r@[i] == c as u8);
            lemma_hex_char_byte(c);
        }
        r
    }

    /// Encrypts the message in place under a fresh random nonce; fails with
    /// `AlreadyEncrypted` on an encrypted message. On failure the message is
    /// left as it was.
    pub fn encrypt(&self, msg: &mut AesMsg) -> (r: Result<(), CryptError>)
        ensures
            old(msg).is_encrypted ==> r == Err::<(), CryptError>(CryptError::AlreadyEncrypted),
            r is Ok ==> !old(msg).is_encrypted && sealed_msg(self@, *old(msg), *final(msg)),
            r is Err ==> *final(msg) == *old(msg),
            r is Err && !old(msg).is_encrypted ==> r->Err_0 == CryptError::RandomUnavailable
                || r->Err_0 == CryptError::TransformFailure,
    {
        if msg.is_encrypted {
            return Err(CryptError::AlreadyEncrypted);
        }
        match random_bytes(NONCE_LEN) {
            Some(nonce) => self.encrypt_with_nonce(msg, nonce),
            None => Err(CryptError::RandomUnavailable),
        }
    }

    /// Encrypts the message in place under the given nonce, which must be
    /// 12 bytes and must never be used twice with this key; fails with
    /// `AlreadyEncrypted` on an encrypted message and with `InvalidNonce` on
    /// a nonce of another length. On failure the message is left as it was.
    pub fn encrypt_with_nonce(&self, msg: &mut AesMsg, nonce: Vec<u8>) -> (r: Result<(), CryptError>)
        ensures
            old(msg).is_encrypted ==> r == Err::<(), CryptError>(CryptError::AlreadyEncrypted),
            !old(msg).is_encrypted && nonce@.len() != 12 ==> r == Err::<(), CryptError>(
                CryptError::InvalidNonce,
            ),
            r is Ok ==> sealed_msg(self@, *old(msg), *final(msg)) && final(msg).nonce->Some_0@
                == nonce@,
            r is Err ==> *final(msg) == *old(msg),
            !old(msg).is_encrypted && nonce@.len() == 12 && old(msg).data@.len() <= max_seal_len()
                ==> r is Ok,
            r is Err && !old(msg).is_encrypted && nonce@.len() == 12 ==> r->Err_0
                == CryptError::TransformFailure,
    {
        if msg.is_encrypted {
            return Err(CryptError::AlreadyEncrypted);
        }
        if nonce.len() != NONCE_LEN {
            return Err(CryptError::InvalidNonce);
        }
        let sealed = match gcm_seal(&self.key, nonce.as_slice(), msg.aad.as_slice(), msg.data.as_slice()) {
            Some(c) => c,
            None => {
                return Err(CryptError::TransformFailure);
            },
        };
        msg.data = sealed;
        msg.nonce = Some(nonce);
        msg.is_encrypted = true;
        Ok(())
    }

    /// Decrypts the message in place with its stored nonce and clears the
    /// nonce; fails with `NotEncrypted`, `MissingNonce`, `InvalidNonce`, or
    /// `AuthenticationFailure` when the tag does not verify. On failure the
    /// message is left as it was. What this key sealed comes back exactly.
    pub fn decrypt(&self, msg: &mut AesMsg) -> (r: Result<(), CryptError>)
        ensures
            !old(msg).is_encrypted ==> r == Err::<(), CryptError>(CryptError::NotEncrypted),
            old(msg).is_encrypted && old(msg).nonce is None ==> r == Err::<(), CryptError>(
                CryptError::MissingNonce,
            ),
            old(msg).is_encrypted && old(msg).nonce is Some && old(msg).nonce->Some_0@.len() != 12
                ==> r == Err::<(), CryptError>(CryptError::InvalidNonce),
            has_nonce(*old(msg)) ==> match aes_gcm_opened(
                self@,
                old(msg).nonce->Some_0@,
                old(msg).aad@,
                old(msg).data@,
            ) {
                Some(p) => r is Ok && final(msg).data@ == p,
                None => r == Err::<(), CryptError>(CryptError::AuthenticationFailure),
            },
            forall|p: Seq<u8>|
                has_nonce(*old(msg)) && aes_gcm_sealed(self@, old(msg).nonce->Some_0@, old(msg).aad@, p)
                    == old(msg).data@ ==> r is Ok && final(msg).data@ == p,
            has_nonce(*old(msg)) && old(msg).data@.len() < 16 ==> r == Err::<(), CryptError>(
                CryptError::AuthenticationFailure,
            ),
            r is Ok ==> !final(msg).is_encrypted && final(msg).nonce is None && final(msg).aad
                == old(msg).aad,
            r is Err ==> *final(msg) == *old(msg),
    {
        if !msg.is_encrypted {
            return Err(CryptError::NotEncrypted);
        }
        let opened = match &msg.nonce {
            None => {
                return Err(CryptError::MissingNonce);
            },
            Some(n) => {
                if n.len() != NONCE_LEN {
                    return Err(CryptError::InvalidNonce);
                }
                gcm_open(&self.key, n.as_slice(), msg.aad.as_slice(), msg.data.as_slice())
            },
        };
        match opened {
            Some(p) => {
                msg.data = p;
                msg.nonce = None;
                msg.is_encrypted = false;
                Ok(())
            },
            None => Err(CryptError::AuthenticationFailure),
        }
    }
}

} // verus!
