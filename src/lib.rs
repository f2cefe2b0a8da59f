//! Packaging of project files into a single transferable unit: a binary
//! bundle codec, a path filter, digests, compression and authenticated
//! encryption of packets.

pub mod bytes;
pub mod crypt_utils;
pub mod docker_utils;
pub mod file_utils;
pub mod netwk_utils;
pub mod proj_files;
pub mod proj_utils;
pub mod secure_packet;
