//! Decompression of zlib-framed buffers.

use vstd::prelude::*;

use flate2::read::ZlibDecoder;
use std::io::Read;

verus! {

/// What inflating a zlib-framed buffer yields: `None` when the buffer is
/// malformed, otherwise the decompressed bytes. Inflation is a function of
/// the bytes alone.
pub uninterp spec fn zlib_inflated(b: Seq<u8>) -> Option<Seq<u8>>;

/// Decompress a zlib-framed buffer.
///
/// Relies on `flate2::read::ZlibDecoder` driven by `Read::read_to_end`: a
/// well-formed buffer inflates to its decompressed bytes, a malformed one
/// fails, and either outcome depends on the input alone.
#[verifier::external_body]
pub fn process_zlib(bytes: &Vec<u8>) -> (r: Result<Vec<u8>, String>)
    ensures
        match r {
            Ok(v) => zlib_inflated(bytes@) == Some(v@),
            Err(_) => zlib_inflated(bytes@) is None,
        },
{
    let mut dec = ZlibDecoder::new(bytes.as_slice());
    let mut dec_bytes = Vec::new();
    dec.read_to_end(&mut dec_bytes).map_err(|e| e.to_string())?;
    Ok(dec_bytes)
}

} // verus!
