//! Brotli compression of a packet's payload, at maximal quality with a
//! large window.
use vstd::prelude::*;
use std::io::{Read, Write};
use crate::crypt_utils::{BinaryPacket, CompressionType, CryptError};

verus! {

/// The brotli stream that the compressor writes for a payload at the given
/// quality and window size (in bits), through a buffer of the given size.
pub uninterp spec fn brotli_compressed(data: Seq<u8>, quality: u32, lgwin: u32, buffer: usize) -> Seq<u8>;

/// The compression quality: the maximum.
pub const QUALITY: u32 = 11;

/// The window size in bits.
pub const LGWIN: u32 = 22;

/// The compressor's buffer size in bytes.
pub const COMPRESS_BUFFER: usize = 4096;

/// The decompressor's buffer size in bytes.
pub const DECOMPRESS_BUFFER: usize = 4096000;

/// The stream that compression writes for a payload with this library's
/// settings.
pub open spec fn compressed(data: Seq<u8>) -> Seq<u8> {
    brotli_compressed(data, QUALITY, LGWIN, COMPRESS_BUFFER)
}

/// What the brotli decompressor reads from a stream: the payload, or
/// nothing when the stream is malformed. The buffer size does not change
/// what is read.
pub uninterp spec fn brotli_decompressed(data: Seq<u8>) -> Option<Seq<u8>>;

/// Relies on `brotli::CompressorWriter` writing into memory and finished by
/// `into_inner`: the compressed stream. Writing into a `Vec` does not fail.
#[verifier::external_body]
fn brotli_compress(data: &[u8], quality: u32, lgwin: u32, buffer: usize) -> (r: Option<Vec<u8>>)
    ensures
        r is Some,
        r matches Some(v) ==> v@ == brotli_compressed(data@, quality, lgwin, buffer),
{
    let mut encoder = brotli::CompressorWriter::new(Vec::new(), buffer, quality, lgwin);
    match encoder.write_all(data) {
        Ok(()) => Some(encoder.into_inner()),
        Err(_) => None,
    }
}

/// Relies on `brotli::Decompressor`: it yields the payload of a well-formed
/// stream, and a stream that the compressor wrote decodes to its input.
#[verifier::external_body]
fn brotli_decompress(data: &[u8], buffer: usize) -> (r: Option<Vec<u8>>)
    ensures
        r matches Some(v) ==> brotli_decompressed(data@) == Some(v@),
        r is None ==> brotli_decompressed(data@) is None,
        forall|p: Seq<u8>, q: u32, w: u32, b: usize|
            brotli_compressed(p, q, w, b) == data@ ==> r is Some && r->Some_0@ == p,
{
    let mut out = Vec::new();
    let mut decompressor = brotli::Decompressor::new(data, buffer);
    match decompressor.read_to_end(&mut out) {
        Ok(_) => Some(out),
        Err(_) => None,
    }
}

/// Compresses a payload with this library's settings.
pub(crate) fn compress_bytes(data: &[u8]) -> (r: Option<Vec<u8>>)
    ensures
        r is Some,
        r matches Some(v) ==> v@ == compressed(data@),
{
    brotli_compress(data, QUALITY, LGWIN, COMPRESS_BUFFER)
}

/// Decompresses a brotli stream; a stream that compression wrote comes back
/// as its payload.
pub(crate) fn decompress_bytes(data: &[u8]) -> (r: Option<Vec<u8>>)
    ensures
        r matches Some(v) ==> brotli_decompressed(data@) == Some(v@),
        r is None ==> brotli_decompressed(data@) is None,
        forall|p: Seq<u8>| compressed(p) == data@ ==> r is Some && r->Some_0@ == p,
{
    brotli_decompress(data, DECOMPRESS_BUFFER)
}

/// Undoes the packet's brotli compression; fails with `NotCompressed`,
/// leaving the packet as it was, on an uncompressed packet.
pub fn decompress(packet: &mut BinaryPacket) -> (r: Result<(), CryptError>)
    ensures
        old(packet).compression_type == CompressionType::Uncompressed ==> r == Err::<(), CryptError>(
            CryptError::NotCompressed,
        ) && *final(packet) == *old(packet),
        old(packet).compression_type == CompressionType::Brotli ==> decompressed_as(
            *old(packet),
            *final(packet),
            r,
        ),
{
    match packet.compression_type {
        CompressionType::Brotli => decompress_brotli(packet),
        CompressionType::Uncompressed => Err(CryptError::NotCompressed),
    }
}

/// The outcome of decompressing a brotli packet `before` into `after`: the
/// decoded payload, or `CorruptStream` with the packet unchanged.
pub open spec fn decompressed_as(
    before: BinaryPacket,
    after: BinaryPacket,
    r: Result<(), CryptError>,
) -> bool {
    match brotli_decompressed(before.data@) {
        Some(p) => r is Ok && after.data@ == p && after.compression_type
            == CompressionType::Uncompressed,
        None => r == Err::<(), CryptError>(CryptError::CorruptStream) && after == before,
    }
}

/// Compresses the packet's payload with brotli; fails with
/// `AlreadyCompressed` on a compressed packet.
pub fn compress_brotli(packet: &mut BinaryPacket) -> (r: Result<(), CryptError>)
    ensures
        old(packet).compression_type != CompressionType::Uncompressed ==> r == Err::<(), CryptError>(
            CryptError::AlreadyCompressed,
        ) && *final(packet) == *old(packet),
        old(packet).compression_type == CompressionType::Uncompressed ==> r is Ok
            && final(packet).data@ == compressed(old(packet).data@) && final(packet).compression_type
            == CompressionType::Brotli,
{
    if packet.compression_type != CompressionType::Uncompressed {
        return Err(CryptError::AlreadyCompressed);
    }
    match compress_bytes(packet.data.as_slice()) {
        Some(v) => {
            packet.data = v;
            packet.compression_type = CompressionType::Brotli;
            Ok(())
        },
        None => Err(CryptError::TransformFailure),
    }
}

/// Restores the payload of a brotli packet; fails with `NotCompressed` on an
/// uncompressed packet and with `CorruptStream` on a malformed stream. A
/// payload that brotli compressed comes back exactly.
pub fn decompress_brotli(packet: &mut BinaryPacket) -> (r: Result<(), CryptError>)
    ensures
        old(packet).compression_type != CompressionType::Brotli ==> r == Err::<(), CryptError>(
            CryptError::NotCompressed,
        ) && *final(packet) == *old(packet),
        old(packet).compression_type == CompressionType::Brotli ==> decompressed_as(
            *old(packet),
            *final(packet),
            r,
        ),
        forall|p: Seq<u8>|
            old(packet).compression_type == CompressionType::Brotli && compressed(p)
                == old(packet).data@ ==> r is Ok && final(packet).data@ == p,
{
    if packet.compression_type != CompressionType::Brotli {
        return Err(CryptError::NotCompressed);
    }
    match decompress_bytes(packet.data.as_slice()) {
        Some(v) => {
            packet.data = v;
            packet.compression_type = CompressionType::Uncompressed;
            Ok(())
        },
        None => Err(CryptError::CorruptStream),
    }
}

} // verus!
