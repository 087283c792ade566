//! Compression of stored objects: zlib streams, written and read by the
//! `flate2` crate.

use flate2::read::ZlibDecoder;
use flate2::write::ZlibEncoder;
use flate2::Compression;
use std::io::{Read, Write};
use vstd::prelude::*;

verus! {

/// The zlib stream that `flate2` writes for `data` at its default level, if
/// it writes one.
pub uninterp spec fn zlib_compressed(data: Seq<u8>) -> Option<Seq<u8>>;

/// What `flate2` reads out of the zlib stream `data`, if it is one.
pub uninterp spec fn zlib_decompressed(data: Seq<u8>) -> Option<Seq<u8>>;

/// Compresses `data` with `flate2::write::ZlibEncoder` at
/// `Compression::default()`, into a vector.
///
/// Trusted: whether the call succeeds, and the stream that it gives, depend
/// on `data` alone (`zlib_compressed` names it); and a stream that it gives is
/// one that the decoder reads back as `data`: the encoder writes "the
/// compressed data" of what it is given, and the decoder "provides the
/// uncompressed data". That the call succeeds is not claimed.
#[verifier::external_body]
pub(crate) fn zlib_compress(data: &[u8]) -> (res: Option<Vec<u8>>)
    ensures
        match res {
            Some(stream) => zlib_compressed(data@) == Some(stream@) && zlib_decompressed(stream@)
                == Some(data@),
            None => zlib_compressed(data@) is None,
        },
{
    let mut encoder = ZlibEncoder::new(Vec::new(), Compression::default());
    match encoder.write_all(data) {
        Ok(()) => encoder.finish().ok(),
        Err(_) => None,
    }
}

/// Decompresses `data` with `flate2::read::ZlibDecoder`, read to its end.
///
/// Trusted: whether the call succeeds, and what it gives, depends on `data`
/// alone; `zlib_decompressed` names it.
#[verifier::external_body]
pub(crate) fn zlib_decompress(data: &[u8]) -> (res: Option<Vec<u8>>)
    ensures
        match res {
            Some(stream) => zlib_decompressed(data@) == Some(stream@),
            None => zlib_decompressed(data@) is None,
        },
{
    let mut stream = Vec::new();
    match ZlibDecoder::new(data).read_to_end(&mut stream) {
        Ok(_) => Some(stream),
        Err(_) => None,
    }
}

} // verus!
