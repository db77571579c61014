use crate::error::GitObjectError;
use crate::hex::HASH_LEN;
use flate2::read::ZlibDecoder;
use flate2::write::ZlibEncoder;
use flate2::Compression;
use sha1::{Digest, Sha1};
use std::io::{Read, Write};
use vstd::prelude::*;

verus! {

#[verifier::external_type_specification]
#[verifier::external_body]
pub struct ExIoError(std::io::Error);

/// The SHA-1 digest of a byte string.
pub uninterp spec fn sha1_of(data: Seq<u8>) -> Seq<u8>;

/// What zlib decompression makes of a byte string: the bytes it encodes, or
/// `None` where it is no zlib stream that decodes.
pub uninterp spec fn inflated(data: Seq<u8>) -> Option<Seq<u8>>;

/// Relies on sha1's `Sha1::digest` (the `Digest` trait): the SHA-1 digest of
/// `data`, whose output size is 20 bytes.
#[verifier::external_body]
fn sha1_digest(data: &[u8]) -> (r: Vec<u8>)
    ensures
        r@ == sha1_of(data@),
        r@.len() == HASH_LEN,
{
    Sha1::digest(data).to_vec()
}

/// Relies on flate2's `write::ZlibEncoder` at the default level, writing into
/// a `Vec` (which never fails to take bytes): the finished zlib stream decodes
/// back to `data`.
#[verifier::external_body]
fn zlib_compress(data: &[u8]) -> (r: Vec<u8>)
    ensures
        inflated(r@) == Some(data@),
{
    let mut encoder = ZlibEncoder::new(Vec::new(), Compression::default());
    encoder.write_all(data).unwrap();
    encoder.finish().unwrap()
}

/// Relies on flate2's `read::ZlibDecoder` read to its end: it yields the
/// bytes that the zlib stream `data` encodes, or an error where it cannot.
#[verifier::external_body]
fn zlib_decompress(data: &[u8]) -> (r: Result<Vec<u8>, std::io::Error>)
    ensures
        match r {
            Ok(v) => inflated(data@) == Some(v@),
            Err(_) => inflated(data@) is None,
        },
{
    let mut out = Vec::new();
    ZlibDecoder::new(data).read_to_end(&mut out).map(|_| out)
}

/// The hash of a canonical object encoding: its SHA-1 digest, 20 bytes.
pub fn hash(content: &[u8]) -> (r: Vec<u8>)
    ensures
        r@ == sha1_of(content@),
        r@.len() == HASH_LEN,
{
    sha1_digest(content)
}

/// Compresses bytes for storage; the result decompresses back to `content`.
pub fn compress(content: &[u8]) -> (r: Vec<u8>)
    ensures
        inflated(r@) == Some(content@),
{
    zlib_compress(content)
}

/// Decompresses stored bytes; bytes that do not decode are a
/// `CorruptObjectError`.
pub fn decompress(data: &[u8]) -> (r: Result<Vec<u8>, GitObjectError>)
    ensures
        match r {
            Ok(v) => inflated(data@) == Some(v@),
            Err(e) => inflated(data@) is None && e is CorruptObjectError,
        },
{
    match zlib_decompress(data) {
        Ok(v) => Ok(v),
        Err(_) => Err(GitObjectError::CorruptObjectError(String::from_str("stored bytes do not decompress"))),
    }
}

} // verus!
