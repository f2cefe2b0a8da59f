//! A packet whose payload moves through compression and encryption, with
//! the legal order of operations enforced by a single state.
use vstd::prelude::*;
use vstd::utf8::encode_utf8;
use vstd::slice::slice_to_vec;
use crate::crypt_utils::CryptError;
use crate::crypt_utils::aes_utils::{
    aes_gcm_opened, aes_gcm_sealed, gcm_open, gcm_seal, max_seal_len, random_bytes, AesEncryption, NONCE_LEN,
    PACKET_AAD,
};
use crate::crypt_utils::rsa_utils::{
    chunks_opened, chunks_sealed, decrypt_chunks, encrypt_chunks, is_keypair,
    lemma_chunks_round_trip, AsymPrivateKey, AsymPublicKey,
};
use crate::crypt_utils::compression_utils::{
    brotli_decompressed, compress_bytes, compressed, decompress_bytes,
};

verus! {

/// Where a packet stands: plain, compressed, or encrypted (remembering
/// whether the encrypted payload was compressed).
#[derive(Debug, Clone, Copy, PartialEq, Eq, Structural)]
pub enum PacketState {
    Plain,
    Compressed,
    Encrypted { from_compressed: bool },
}

/// A payload with its state, the associated data bound into every
/// encryption, and the nonce of the current ciphertext.
#[derive(Debug)]
pub struct SecurePacket {
    payload: Vec<u8>,
    state: PacketState,
    aad: Vec<u8>,
    nonce: Option<Vec<u8>>,
}

impl SecurePacket {
    /// The payload bytes.
    pub closed spec fn spec_payload(&self) -> Seq<u8> {
        self.payload@
    }

    /// The state.
    pub closed spec fn spec_state(&self) -> PacketState {
        self.state
    }

    /// The associated data.
    pub closed spec fn spec_aad(&self) -> Seq<u8> {
        self.aad@
    }

    /// The nonce of the current ciphertext, if any.
    pub closed spec fn spec_nonce(&self) -> Option<Seq<u8>> {
        match self.nonce {
            Some(n) => Some(n@),
            None => None,
        }
    }

    /// The packet's invariant: a nonce, of 12 bytes, is present only while
    /// the payload is encrypted (and then only if the symmetric cipher was
    /// used).
    pub closed spec fn wf(&self) -> bool {
        match self.state {
            PacketState::Encrypted { .. } => self.nonce is Some ==> self.nonce->Some_0@.len() == 12,
            _ => self.nonce is None,
        }
    }
}

/// Whether a state holds compressed data, encrypted or not.
pub open spec fn is_compressed(s: PacketState) -> bool {
    s == PacketState::Compressed || s == (PacketState::Encrypted { from_compressed: true })
}

/// Whether two packets agree on everything.
pub open spec fn same_packet(a: SecurePacket, b: SecurePacket) -> bool {
    &&& a.spec_payload() == b.spec_payload()
    &&& a.spec_state() == b.spec_state()
    &&& a.spec_aad() == b.spec_aad()
    &&& a.spec_nonce() == b.spec_nonce()
}

/// What `compress` does to packet `a`, giving `b` and `r`.
pub open spec fn compress_post(a: SecurePacket, b: SecurePacket, r: Result<(), CryptError>) -> bool {
    if is_compressed(a.spec_state()) {
        r == Err::<(), CryptError>(CryptError::AlreadyCompressed) && same_packet(a, b)
    } else if a.spec_state() != PacketState::Plain {
        r == Err::<(), CryptError>(CryptError::InvalidState) && same_packet(a, b)
    } else {
        &&& r is Ok
        &&& b.spec_payload() == compressed(a.spec_payload())
        &&& b.spec_state() == PacketState::Compressed
        &&& b.spec_aad() == a.spec_aad()
        &&& b.spec_nonce() == a.spec_nonce()
    }
}

/// What `decompress` does to packet `a`, giving `b` and `r`.
pub open spec fn decompress_post(a: SecurePacket, b: SecurePacket, r: Result<(), CryptError>) -> bool {
    if !is_compressed(a.spec_state()) {
        r == Err::<(), CryptError>(CryptError::NotCompressed) && same_packet(a, b)
    } else if a.spec_state() != PacketState::Compressed {
        r == Err::<(), CryptError>(CryptError::InvalidState) && same_packet(a, b)
    } else {
        &&& match brotli_decompressed(a.spec_payload()) {
            Some(p) => r is Ok && b.spec_payload() == p && b.spec_state() == PacketState::Plain
                && b.spec_aad() == a.spec_aad() && b.spec_nonce() == a.spec_nonce(),
            None => r == Err::<(), CryptError>(CryptError::CorruptStream) && same_packet(a, b),
        }
        &&& forall|p: Seq<u8>|
            compressed(p) == a.spec_payload() ==> r is Ok && b.spec_payload() == p
    }
}

/// What `encrypt_symmetric` under key `k` does to packet `a`, giving `b`
/// and `r`.
pub open spec fn encrypt_post(k: Seq<u8>, a: SecurePacket, b: SecurePacket, r: Result<(), CryptError>) -> bool {
    if a.spec_state() is Encrypted {
        r == Err::<(), CryptError>(CryptError::AlreadyEncrypted) && same_packet(a, b)
    } else {
        match r {
            Ok(()) => {
                &&& b.spec_state() == (PacketState::Encrypted {
                    from_compressed: a.spec_state() == PacketState::Compressed,
                })
                &&& b.spec_nonce() is Some
                &&& b.spec_nonce()->Some_0.len() == 12
                &&& b.spec_payload() == aes_gcm_sealed(
                    k,
                    b.spec_nonce()->Some_0,
                    a.spec_aad(),
                    a.spec_payload(),
                )
                &&& b.spec_aad() == a.spec_aad()
            },
            Err(e) => (e == CryptError::RandomUnavailable || e == CryptError::TransformFailure)
                && same_packet(a, b),
        }
    }
}

/// The state a packet returns to when an encrypted state is decrypted.
pub open spec fn decrypted_state(s: PacketState) -> PacketState {
    if s == (PacketState::Encrypted { from_compressed: true }) {
        PacketState::Compressed
    } else {
        PacketState::Plain
    }
}

/// What `decrypt_symmetric` under key `k` does to packet `a`, giving `b`
/// and `r`.
pub open spec fn decrypt_post(k: Seq<u8>, a: SecurePacket, b: SecurePacket, r: Result<(), CryptError>) -> bool {
    if !(a.spec_state() is Encrypted) {
        r == Err::<(), CryptError>(CryptError::NotEncrypted) && same_packet(a, b)
    } else if a.spec_nonce() is None {
        r == Err::<(), CryptError>(CryptError::MissingNonce) && same_packet(a, b)
    } else {
        let n = a.spec_nonce()->Some_0;
        &&& match aes_gcm_opened(k, n, a.spec_aad(), a.spec_payload()) {
            Some(p) => r is Ok && b.spec_payload() == p && b.spec_state() == decrypted_state(
                a.spec_state(),
            ) && b.spec_nonce() is None && b.spec_aad() == a.spec_aad(),
            None => r == Err::<(), CryptError>(CryptError::AuthenticationFailure) && same_packet(
                a,
                b,
            ),
        }
        &&& forall|p: Seq<u8>|
            aes_gcm_sealed(k, n, a.spec_aad(), p) == a.spec_payload() ==> r is Ok && b.spec_payload()
                == p
        &&& n.len() == 12 && a.spec_payload().len() < 16 ==> r == Err::<(), CryptError>(
            CryptError::AuthenticationFailure,
        )
    }
}

/// What `encrypt_asymmetric` under public key `k` does to packet `a`,
/// giving `b` and `r`.
pub open spec fn asym_encrypt_post(k: Seq<u8>, a: SecurePacket, b: SecurePacket, r: Result<(), CryptError>) -> bool {
    if a.spec_state() is Encrypted {
        r == Err::<(), CryptError>(CryptError::AlreadyEncrypted) && same_packet(a, b)
    } else {
        &&& a.spec_payload().len() == 0 ==> r is Ok
        &&& match r {
            Ok(()) => {
                &&& b.spec_state() == (PacketState::Encrypted {
                    from_compressed: a.spec_state() == PacketState::Compressed,
                })
                &&& b.spec_nonce() is None
                &&& chunks_sealed(k, a.spec_payload(), b.spec_payload())
                &&& b.spec_aad() == a.spec_aad()
            },
            Err(e) => e == CryptError::TransformFailure && same_packet(a, b),
        }
    }
}

/// What `decrypt_asymmetric` under private key `k` does to packet `a`,
/// giving `b` and `r`.
pub open spec fn asym_decrypt_post(k: Seq<u8>, a: SecurePacket, b: SecurePacket, r: Result<(), CryptError>) -> bool {
    if !(a.spec_state() is Encrypted) {
        r == Err::<(), CryptError>(CryptError::NotEncrypted) && same_packet(a, b)
    } else {
        match chunks_opened(k, a.spec_payload()) {
            Some(p) => r is Ok && b.spec_payload() == p && b.spec_state() == decrypted_state(
                a.spec_state(),
            ) && b.spec_nonce() is None && b.spec_aad() == a.spec_aad(),
            None => r == Err::<(), CryptError>(CryptError::DecryptionFailure) && same_packet(a, b),
        }
    }
}

impl SecurePacket {
    /// A plain packet holding `bytes`, with the fixed associated data.
    pub fn from_plaintext(bytes: Vec<u8>) -> (r: Self)
        ensures
            r.wf(),
            r.spec_payload() == bytes@,
            r.spec_state() == PacketState::Plain,
            r.spec_aad() == encode_utf8(PACKET_AAD@),
            r.spec_nonce() is None,
    {
        SecurePacket {
            payload: bytes,
            state: PacketState::Plain,
            aad: slice_to_vec(PACKET_AAD.as_bytes()),
            nonce: None,
        }
    }

    /// The payload bytes.
    pub fn payload(&self) -> (r: &Vec<u8>)
        ensures
            r@ == self.spec_payload(),
    {
        &self.payload
    }

    /// The state.
    pub fn state(&self) -> (r: PacketState)
        ensures
            r == self.spec_state(),
    {
        self.state
    }

    /// The payload, given back to the caller.
    pub fn into_payload(self) -> (r: Vec<u8>)
        ensures
            r@ == self.spec_payload(),
    {
        self.payload
    }

    /// Compresses a plain payload; fails with `AlreadyCompressed` on
    /// compressed data and with `InvalidState` on an encrypted payload.
    pub fn compress(&mut self) -> (r: Result<(), CryptError>)
        requires
            old(self).wf(),
        ensures
            final(self).wf(),
            compress_post(*old(self), *final(self), r),
    {
        match self.state {
            PacketState::Compressed | PacketState::Encrypted { from_compressed: true } => {
                Err(CryptError::AlreadyCompressed)
            },
            PacketState::Encrypted { from_compressed: false } => Err(CryptError::InvalidState),
            PacketState::Plain => match compress_bytes(self.payload.as_slice()) {
                Some(v) => {
                    self.payload = v;
                    self.state = PacketState::Compressed;
                    Ok(())
                },
                None => Err(CryptError::TransformFailure),
            },
        }
    }

    /// Restores a compressed payload; fails with `NotCompressed` on data
    /// that is not compressed, with `InvalidState` while still encrypted, and
    /// with `CorruptStream` on a malformed stream.
    pub fn decompress(&mut self) -> (r: Result<(), CryptError>)
        requires
            old(self).wf(),
        ensures
            final(self).wf(),
            decompress_post(*old(self), *final(self), r),
    {
        match self.state {
            PacketState::Plain | PacketState::Encrypted { from_compressed: false } => {
                Err(CryptError::NotCompressed)
            },
            PacketState::Encrypted { from_compressed: true } => Err(CryptError::InvalidState),
            PacketState::Compressed => match decompress_bytes(self.payload.as_slice()) {
                Some(v) => {
                    self.payload = v;
                    self.state = PacketState::Plain;
                    Ok(())
                },
                None => Err(CryptError::CorruptStream),
            },
        }
    }

    /// Seals the payload under `key` with a fresh random nonce, appending
    /// the tag; fails with `AlreadyEncrypted` on an encrypted payload.
    pub fn encrypt_symmetric(&mut self, key: &AesEncryption) -> (r: Result<(), CryptError>)
        requires
            old(self).wf(),
        ensures
            final(self).wf(),
            encrypt_post(key@, *old(self), *final(self), r),
    {
        if matches!(self.state, PacketState::Encrypted { .. }) {
            return Err(CryptError::AlreadyEncrypted);
        }
        match random_bytes(NONCE_LEN) {
            Some(nonce) => self.encrypt_symmetric_with_nonce(key, nonce),
            None => Err(CryptError::RandomUnavailable),
        }
    }

    /// Seals the payload under `key` with the given nonce, which must be 12
    /// bytes and must never be used twice with this key; fails with
    /// `AlreadyEncrypted` on an encrypted payload and with `InvalidNonce` on
    /// a nonce of another length.
    pub fn encrypt_symmetric_with_nonce(&mut self, key: &AesEncryption, nonce: Vec<u8>) -> (r: Result<(), CryptError>)
        requires
            old(self).wf(),
        ensures
            final(self).wf(),
            old(self).spec_state() is Encrypted ==> r == Err::<(), CryptError>(
                CryptError::AlreadyEncrypted,
            ) && same_packet(*old(self), *final(self)),
            !(old(self).spec_state() is Encrypted) && nonce@.len() != 12 ==> r == Err::<(), CryptError>(
                CryptError::InvalidNonce,
            ) && same_packet(*old(self), *final(self)),
            !(old(self).spec_state() is Encrypted) && nonce@.len() == 12 ==> encrypt_post(
                key@,
                *old(self),
                *final(self),
                r,
            ),
            !(old(self).spec_state() is Encrypted) && nonce@.len() == 12
                && old(self).spec_payload().len() <= max_seal_len() ==> r is Ok,
            r is Ok ==> final(self).spec_nonce() == Some(nonce@),
    {
        if matches!(self.state, PacketState::Encrypted { .. }) {
            return Err(CryptError::AlreadyEncrypted);
        }
        if nonce.len() != NONCE_LEN {
            return Err(CryptError::InvalidNonce);
        }
        let sealed = match gcm_seal(
            key.key_bytes(),
            nonce.as_slice(),
            self.aad.as_slice(),
            self.payload.as_slice(),
        ) {
            Some(c) => c,
            None => {
                return Err(CryptError::TransformFailure);
            },
        };
        let from_compressed = self.state == PacketState::Compressed;
        self.payload = sealed;
        self.nonce = Some(nonce);
        self.state = PacketState::Encrypted { from_compressed };
        Ok(())
    }

    /// Opens the payload under `key` with the stored nonce, returning to the
    /// state held before encryption; fails with `NotEncrypted` on a payload
    /// that is not encrypted and with `AuthenticationFailure` when the tag
    /// does not verify.
    pub fn decrypt_symmetric(&mut self, key: &AesEncryption) -> (r: Result<(), CryptError>)
        requires
            old(self).wf(),
        ensures
            final(self).wf(),
            decrypt_post(key@, *old(self), *final(self), r),
    {
        let from_compressed = match self.state {
            PacketState::Encrypted { from_compressed } => from_compressed,
            _ => {
                return Err(CryptError::NotEncrypted);
            },
        };
        let opened = match &self.nonce {
            Some(n) => gcm_open(key.key_bytes(), n.as_slice(), self.aad.as_slice(), self.payload.as_slice()),
            None => {
                return Err(CryptError::MissingNonce);
            },
        };
        match opened {
            Some(p) => {
                self.payload = p;
                self.nonce = None;
                self.state = if from_compressed {
                    PacketState::Compressed
                } else {
                    PacketState::Plain
                };
                Ok(())
            },
            None => Err(CryptError::AuthenticationFailure),
        }
    }

    /// Encrypts the payload under an RSA public key, block by block; fails
    /// with `AlreadyEncrypted` on an encrypted payload and with
    /// `TransformFailure`, leaving the packet as it was, when a block fails.
    pub fn encrypt_asymmetric(&mut self, key: &AsymPublicKey) -> (r: Result<(), CryptError>)
        requires
            old(self).wf(),
        ensures
            final(self).wf(),
            asym_encrypt_post(key@, *old(self), *final(self), r),
    {
        if matches!(self.state, PacketState::Encrypted { .. }) {
            return Err(CryptError::AlreadyEncrypted);
        }
        let sealed = match encrypt_chunks(key, self.payload.as_slice()) {
            Ok(c) => c,
            Err(e) => {
                return Err(e);
            },
        };
        let from_compressed = self.state == PacketState::Compressed;
        self.payload = sealed;
        self.state = PacketState::Encrypted { from_compressed };
        Ok(())
    }

    /// Decrypts the payload under an RSA private key, block by block,
    /// returning to the state held before encryption; fails with
    /// `NotEncrypted` on a payload that is not encrypted and with
    /// `DecryptionFailure`, leaving the packet as it was, when the length is
    /// not a multiple of 256 or a block does not decrypt.
    pub fn decrypt_asymmetric(&mut self, key: &AsymPrivateKey) -> (r: Result<(), CryptError>)
        requires
            old(self).wf(),
        ensures
            final(self).wf(),
            asym_decrypt_post(key@, *old(self), *final(self), r),
    {
        let from_compressed = match self.state {
            PacketState::Encrypted { from_compressed } => from_compressed,
            _ => {
                return Err(CryptError::NotEncrypted);
            },
        };
        let plain = match decrypt_chunks(key, self.payload.as_slice()) {
            Ok(p) => p,
            Err(e) => {
                return Err(e);
            },
        };
        self.payload = plain;
        self.nonce = None;
        self.state = if from_compressed {
            PacketState::Compressed
        } else {
            PacketState::Plain
        };
        Ok(())
    }
}

/// Decrypting under the private key what was encrypted under its public
/// half gives back the payload and the state held before encryption.
pub proof fn lemma_asymmetric_round_trip(
    public: Seq<u8>,
    private: Seq<u8>,
    a: SecurePacket,
    b: SecurePacket,
    c: SecurePacket,
    r1: Result<(), CryptError>,
    r2: Result<(), CryptError>,
)
    requires
        is_keypair(public, private),
        !(a.spec_state() is Encrypted),
        asym_encrypt_post(public, a, b, r1),
        r1 is Ok,
        asym_decrypt_post(private, b, c, r2),
    ensures
        r2 is Ok,
        c.spec_payload() == a.spec_payload(),
        c.spec_state() == a.spec_state(),
{
    lemma_chunks_round_trip(public, private, a.spec_payload(), b.spec_payload());
}

/// Decompressing what compression produced gives back the starting
/// payload and the plain state.
pub proof fn lemma_compress_round_trip(
    a: SecurePacket,
    b: SecurePacket,
    c: SecurePacket,
    r1: Result<(), CryptError>,
    r2: Result<(), CryptError>,
)
    requires
        a.spec_state() == PacketState::Plain,
        compress_post(a, b, r1),
        r1 is Ok,
        decompress_post(b, c, r2),
    ensures
        r2 is Ok,
        c.spec_payload() == a.spec_payload(),
        c.spec_state() == PacketState::Plain,
{
}

/// Compressing compressed data fails with `AlreadyCompressed`, and
/// compressing an encrypted plain payload fails with `InvalidState`; the
/// packet is unchanged either way.
pub proof fn lemma_compress_refused(a: SecurePacket, b: SecurePacket, r: Result<(), CryptError>)
    requires
        a.spec_state() != PacketState::Plain,
        compress_post(a, b, r),
    ensures
        is_compressed(a.spec_state()) ==> r == Err::<(), CryptError>(CryptError::AlreadyCompressed),
        a.spec_state() == (PacketState::Encrypted { from_compressed: false }) ==> r == Err::<
            (),
            CryptError,
        >(CryptError::InvalidState),
        same_packet(a, b),
{
}

/// Decrypting under the key that encrypted gives back the payload and the
/// state held before encryption.
pub proof fn lemma_symmetric_round_trip(
    k: Seq<u8>,
    a: SecurePacket,
    b: SecurePacket,
    c: SecurePacket,
    r1: Result<(), CryptError>,
    r2: Result<(), CryptError>,
)
    requires
        !(a.spec_state() is Encrypted),
        encrypt_post(k, a, b, r1),
        r1 is Ok,
        decrypt_post(k, b, c, r2),
    ensures
        r2 is Ok,
        c.spec_payload() == a.spec_payload(),
        c.spec_state() == a.spec_state(),
{
}

} // verus!
