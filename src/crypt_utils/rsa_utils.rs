//! Chunked PKCS#1 v1.5 encryption of a payload under a 2048-bit RSA
//! keypair: plaintext in blocks of at most 245 bytes, each sealed into
//! exactly 256 bytes.
use vstd::prelude::*;
use rsa::pkcs1::{DecodeRsaPrivateKey, DecodeRsaPublicKey, EncodeRsaPrivateKey, EncodeRsaPublicKey};
use rsa::{Pkcs1v15Encrypt, RsaPrivateKey, RsaPublicKey};
use crate::bytes::{copy_range, push_all};
use crate::crypt_utils::CryptError;

verus! {

/// The PKCS#1 DER encoding of the public half of the RSA private key whose
/// PKCS#1 DER encoding is given, or nothing when it does not decode.
pub uninterp spec fn rsa_public_of(private_der: Seq<u8>) -> Option<Seq<u8>>;

/// What PKCS#1 v1.5 decryption of one block yields under the RSA private
/// key whose PKCS#1 DER encoding is given, or nothing when the key does not
/// decode or the block is not a valid ciphertext.
pub uninterp spec fn rsa_opened(private_der: Seq<u8>, block: Seq<u8>) -> Option<Seq<u8>>;

/// Whether the RSA private key whose PKCS#1 DER encoding is given is one
/// that key generation made: its factors are primes, so encryption under
/// its public half is inverted by it.
pub uninterp spec fn rsa_sound(private_der: Seq<u8>) -> bool;

/// The size of the modulus in bits.
pub const KEY_BITS: usize = 2048;

/// The largest plaintext block: the modulus length less 11 bytes of padding.
pub const PLAIN_BLOCK: usize = 245;

/// The length of one encrypted block: the modulus length.
pub const CIPHER_BLOCK: usize = 256;

/// Relies on `rsa::RsaPrivateKey::new` (with `rand::thread_rng`) and
/// `EncodeRsaPrivateKey::to_pkcs1_der`: a fresh private key of the given
/// size, made of two generated primes, in DER, which decodes again.
#[verifier::external_body]
fn rsa_generate_private(bits: usize) -> (r: Option<Vec<u8>>)
    ensures
        r is Some ==> rsa_public_of(r->Some_0@) is Some,
        r is Some ==> rsa_sound(r->Some_0@),
{
    let key = RsaPrivateKey::new(&mut rand::thread_rng(), bits).ok()?;
    Some(key.to_pkcs1_der().ok()?.as_bytes().to_vec())
}

/// Relies on `DecodeRsaPrivateKey::from_pkcs1_der`,
/// `RsaPrivateKey::to_public_key` and `EncodeRsaPublicKey::to_pkcs1_der`:
/// the DER encoding of the key's public half, whenever the key decodes.
#[verifier::external_body]
fn rsa_public_der(private_der: &[u8]) -> (r: Option<Vec<u8>>)
    ensures
        r is Some ==> rsa_public_of(private_der@) == Some(r->Some_0@),
        rsa_public_of(private_der@) is Some ==> r is Some,
{
    let key = RsaPrivateKey::from_pkcs1_der(private_der).ok()?;
    Some(key.to_public_key().to_pkcs1_der().ok()?.as_bytes().to_vec())
}

/// Relies on `DecodeRsaPublicKey::from_pkcs1_der` and
/// `RsaPublicKey::encrypt` with `Pkcs1v15Encrypt` (random padding from
/// `rand::thread_rng`): whatever the padding drawn, a sound private key
/// whose public half this is decrypts the result to the block.
#[verifier::external_body]
fn rsa_encrypt_block(public_der: &[u8], block: &[u8]) -> (r: Option<Vec<u8>>)
    ensures
        forall|d: Seq<u8>|
            rsa_sound(d) && rsa_public_of(d) == Some(public_der@) && r is Some ==> rsa_opened(
                d,
                r->Some_0@,
            ) == Some(
                block@,
            ),
{
    let key = RsaPublicKey::from_pkcs1_der(public_der).ok()?;
    key.encrypt(&mut rand::thread_rng(), Pkcs1v15Encrypt, block).ok()
}

/// Relies on `DecodeRsaPrivateKey::from_pkcs1_der` and
/// `RsaPrivateKey::decrypt` with `Pkcs1v15Encrypt`, which draws no
/// randomness: the block's plaintext, or nothing when it does not check.
#[verifier::external_body]
fn rsa_decrypt_block(private_der: &[u8], block: &[u8]) -> (r: Option<Vec<u8>>)
    ensures
        r is Some ==> rsa_opened(private_der@, block@) == Some(r->Some_0@),
        r is None ==> rsa_opened(private_der@, block@) is None,
{
    let key = RsaPrivateKey::from_pkcs1_der(private_der).ok()?;
    key.decrypt(Pkcs1v15Encrypt, block).ok()
}

/// An RSA public key, held as its PKCS#1 DER encoding.
#[derive(Debug, Clone)]
pub struct AsymPublicKey {
    der: Vec<u8>,
}

/// An RSA private key, held in memory as its PKCS#1 DER encoding.
pub struct AsymPrivateKey {
    der: Vec<u8>,
}

impl View for AsymPublicKey {
    type V = Seq<u8>;

    closed spec fn view(&self) -> Seq<u8> {
        self.der@
    }
}

impl View for AsymPrivateKey {
    type V = Seq<u8>;

    closed spec fn view(&self) -> Seq<u8> {
        self.der@
    }
}

/// Whether `private` is a sound key and `public` is its public half.
pub open spec fn is_keypair(public: Seq<u8>, private: Seq<u8>) -> bool {
    rsa_sound(private) && rsa_public_of(private) == Some(public)
}

/// Whether `cipher` decrypts to `block` under every private key whose
/// public half is `public`.
pub open spec fn block_sealed(public: Seq<u8>, block: Seq<u8>, cipher: Seq<u8>) -> bool {
    forall|d: Seq<u8>| is_keypair(public, d) ==> rsa_opened(d, cipher) == Some(block)
}

/// The length of the first plaintext block of `n` remaining bytes.
pub open spec fn first_block_len(n: int) -> int {
    if n < 245 {
        n
    } else {
        245
    }
}

/// Whether `cipher` is `plain` encrypted block by block under `public`:
/// each block of at most 245 bytes, in order, sealed into 256 bytes.
pub open spec fn chunks_sealed(public: Seq<u8>, plain: Seq<u8>, cipher: Seq<u8>) -> bool
    decreases plain.len(),
{
    if plain.len() == 0 {
        cipher.len() == 0
    } else {
        let n = first_block_len(plain.len() as int);
        &&& cipher.len() >= 256
        &&& block_sealed(public, plain.subrange(0, n), cipher.subrange(0, 256))
        &&& chunks_sealed(public, plain.subrange(n, plain.len() as int), cipher.subrange(256, cipher.len() as int))
    }
}

/// The plaintext of a ciphertext decrypted in 256-byte blocks under
/// `private`, concatenated in order; nothing when a block fails or the
/// length is not a multiple of 256.
pub open spec fn chunks_opened(private: Seq<u8>, cipher: Seq<u8>) -> Option<Seq<u8>>
    decreases cipher.len(),
{
    if cipher.len() == 0 {
        Some(Seq::empty())
    } else if cipher.len() < 256 {
        None
    } else {
        match rsa_opened(private, cipher.subrange(0, 256)) {
            None => None,
            Some(b) => match chunks_opened(private, cipher.subrange(256, cipher.len() as int)) {
                None => None,
                Some(rest) => Some(b + rest),
            },
        }
    }
}

/// A ciphertext whose length is not a multiple of 256 never decrypts.
pub proof fn lemma_ragged_ciphertext_rejected(private: Seq<u8>, cipher: Seq<u8>)
    requires
        cipher.len() % 256 != 0,
    ensures
        chunks_opened(private, cipher) is None,
    decreases cipher.len(),
{
    if cipher.len() >= 256 {
        lemma_ragged_ciphertext_rejected(private, cipher.subrange(256, cipher.len() as int));
    }
}

/// What is encrypted under a public key decrypts, block by block, to the
/// same plaintext under its private key.
pub proof fn lemma_chunks_round_trip(public: Seq<u8>, private: Seq<u8>, plain: Seq<u8>, cipher: Seq<u8>)
    requires
        is_keypair(public, private),
        chunks_sealed(public, plain, cipher),
    ensures
        chunks_opened(private, cipher) == Some(plain),
    decreases plain.len(),
{
    if plain.len() == 0 {
        assert(plain =~= Seq::<u8>::empty());
    } else {
        let n = first_block_len(plain.len() as int);
        lemma_chunks_round_trip(
            public,
            private,
            plain.subrange(n, plain.len() as int),
            cipher.subrange(256, cipher.len() as int),
        );
        assert(plain.subrange(0, n) + plain.subrange(n, plain.len() as int) =~= plain);
    }
}

impl AsymPublicKey {
    /// The key with the given PKCS#1 DER encoding.
    pub fn from_der(der: Vec<u8>) -> (r: Self)
        ensures
            r@ == der@,
    {
        AsymPublicKey { der }
    }

    /// The key's PKCS#1 DER encoding, for transmission to a peer.
    pub fn to_der(&self) -> (r: Vec<u8>)
        ensures
            r@ == self@,
    {
        self.der.clone()
    }
}

impl AsymPrivateKey {
    /// A fresh 2048-bit private key.
    pub fn generate() -> (r: Result<Self, CryptError>)
        ensures
            r is Ok ==> rsa_public_of(r->Ok_0@) is Some && rsa_sound(r->Ok_0@),
            r is Err ==> r->Err_0 == CryptError::RandomUnavailable,
    {
        match rsa_generate_private(KEY_BITS) {
            Some(der) => Ok(AsymPrivateKey { der }),
            None => Err(CryptError::RandomUnavailable),
        }
    }

    /// The key with the given PKCS#1 DER encoding.
    pub fn from_der(der: Vec<u8>) -> (r: Self)
        ensures
            r@ == der@,
    {
        AsymPrivateKey { der }
    }

    /// The key's public half; fails with `InvalidKey` when the encoding
    /// does not decode.
    pub fn public_key(&self) -> (r: Result<AsymPublicKey, CryptError>)
        ensures
            r is Ok ==> rsa_public_of(self@) == Some(r->Ok_0@),
            rsa_public_of(self@) is Some ==> r is Ok,
            r is Err ==> r->Err_0 == CryptError::InvalidKey,
    {
        match rsa_public_der(self.der.as_slice()) {
            Some(der) => Ok(AsymPublicKey { der }),
            None => Err(CryptError::InvalidKey),
        }
    }
}

/// Encrypts `plain` in blocks of at most 245 bytes, each into 256 bytes,
/// concatenated in order; fails with `TransformFailure`, returning nothing
/// partial, when a block does not encrypt into 256 bytes.
pub fn encrypt_chunks(key: &AsymPublicKey, plain: &[u8]) -> (r: Result<Vec<u8>, CryptError>)
    ensures
        r is Ok ==> chunks_sealed(key@, plain@, r->Ok_0@),
        plain@.len() == 0 ==> r is Ok && r->Ok_0@.len() == 0,
        r is Err ==> r->Err_0 == CryptError::TransformFailure,
{
    let mut out: Vec<u8> = Vec::new();
    let mut i: usize = 0;
    let n = plain.len();
    proof {
        assert(plain@.subrange(0, n as int) =~= plain@);
        assert forall|c: Seq<u8>|
            chunks_sealed(key@, plain@.subrange(0, n as int), c) implies #[trigger] chunks_sealed(
                key@,
                plain@,
                out@ + c,
            ) by {
            assert(out@ + c =~= c);
        }
    }
    while i < n
        invariant
            n == plain@.len(),
            i <= n,
            forall|c: Seq<u8>|
                chunks_sealed(key@, plain@.subrange(i as int, n as int), c) ==> #[trigger] chunks_sealed(
                    key@,
                    plain@,
                    out@ + c,
                ),
        decreases n - i,
    {
        let len = if n - i < PLAIN_BLOCK {
            n - i
        } else {
            PLAIN_BLOCK
        };
        let block = copy_range(plain, i, i + len);
        let sealed = match rsa_encrypt_block(key.der.as_slice(), block.as_slice()) {
            Some(c) => c,
            None => {
                return Err(CryptError::TransformFailure);
            },
        };
        if sealed.len() != CIPHER_BLOCK {
            return Err(CryptError::TransformFailure);
        }
        let ghost rest = plain@.subrange(i as int, n as int);
        let ghost old_out = out@;
        proof {
            assert(rest.subrange(0, len as int) =~= block@);
            assert(rest.subrange(len as int, rest.len() as int) =~= plain@.subrange(i + len, n as int));
            assert forall|c: Seq<u8>|
                chunks_sealed(key@, plain@.subrange(i + len, n as int), c) implies #[trigger] chunks_sealed(
                    key@,
                    plain@,
                    old_out + sealed@ + c,
                ) by {
                let sc = sealed@ + c;
                assert(sc.subrange(0, 256) =~= sealed@);
                assert(sc.subrange(256, sc.len() as int) =~= c);
                assert(chunks_sealed(key@, rest, sc));
                assert(old_out + sc =~= old_out + sealed@ + c);
            }
        }
        push_all(&mut out, sealed.as_slice());
        i = i + len;
    }
    proof {
        assert(plain@.subrange(n as int, n as int) =~= Seq::<u8>::empty());
        assert(chunks_sealed(key@, plain@.subrange(n as int, n as int), Seq::<u8>::empty()));
        assert(out@ + Seq::<u8>::empty() =~= out@);
    }
    Ok(out)
}

/// Decrypts a ciphertext in 256-byte blocks, concatenating the plaintexts in
/// order; fails with `DecryptionFailure`, returning nothing partial, when
/// the length is not a multiple of 256 or a block does not decrypt.
pub fn decrypt_chunks(key: &AsymPrivateKey, cipher: &[u8]) -> (r: Result<Vec<u8>, CryptError>)
    ensures
        match chunks_opened(key@, cipher@) {
            Some(p) => r is Ok && r->Ok_0@ == p,
            None => r is Err && r->Err_0 == CryptError::DecryptionFailure,
        },
{
    let n = cipher.len();
    let mut out: Vec<u8> = Vec::new();
    let mut i: usize = 0;
    assert(cipher@.subrange(0, n as int) =~= cipher@);
    assert(out@ + Seq::<u8>::empty() =~= out@);
    while i < n
        invariant
            n == cipher@.len(),
            i <= n,
            chunks_opened(key@, cipher@) == match chunks_opened(key@, cipher@.subrange(i as int, n as int)) {
                Some(rest) => Some(out@ + rest),
                None => None,
            },
        decreases n - i,
    {
        let ghost rest = cipher@.subrange(i as int, n as int);
        if n - i < CIPHER_BLOCK {
            return Err(CryptError::DecryptionFailure);
        }
        let block = copy_range(cipher, i, i + CIPHER_BLOCK);
        assert(rest.subrange(0, 256) =~= block@);
        assert(rest.subrange(256, rest.len() as int) =~= cipher@.subrange(i + 256, n as int));
        let plain = match rsa_decrypt_block(key.der.as_slice(), block.as_slice()) {
            Some(p) => p,
            None => {
                return Err(CryptError::DecryptionFailure);
            },
        };
        let ghost old_out = out@;
        push_all(&mut out, plain.as_slice());
        proof {
            match chunks_opened(key@, cipher@.subrange(i + 256, n as int)) {
                Some(tail) => {
                    assert(old_out + (plain@ + tail) =~= out@ + tail);
                },
                None => {},
            }
        }
        i = i + CIPHER_BLOCK;
    }
    assert(cipher@.subrange(n as int, n as int) =~= Seq::<u8>::empty());
    assert(out@ + Seq::<u8>::empty() =~= out@);
    Ok(out)
}

} // verus!
