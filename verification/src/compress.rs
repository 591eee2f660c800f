//! Buffered compression of response payloads.
//!
//! The codec parameters — gzip level 1, brotli quality 6 with a 4 MiB
//! window — are default policy for on-the-fly response compression, not
//! invariants of the design.

use vstd::prelude::*;

verus! {

/// Gzip compression level for response bodies. Beyond level 1, gzip gains
/// little size on typical responses.
pub const GZIP_LEVEL: u32 = 1;

/// Brotli quality for response bodies.
pub const BROTLI_QUALITY: u32 = 6;

/// Brotli window parameter: a window of 2^22 - 16 bytes (about 4 MiB).
pub const BROTLI_LGWIN: u32 = 22;

/// Internal buffer size of the brotli writer.
pub const BROTLI_BUFFER: usize = 4096;

/// The gzip member that flate2's encoder writes for these bytes at
/// `GZIP_LEVEL`: a function of the payload alone.
pub uninterp spec fn gzip_of(data: Seq<u8>) -> Seq<u8>;

/// The brotli stream that the brotli writer produces for these bytes at
/// `BROTLI_QUALITY` and `BROTLI_LGWIN`: a function of the payload alone.
pub uninterp spec fn brotli_of(data: Seq<u8>) -> Seq<u8>;

/// Relies on flate2::write::GzEncoder over a byte vector: writing the whole
/// payload and finishing yields the payload's gzip bytes, which depend on
/// the payload alone.
#[verifier::external_body]
pub(crate) fn gzip_compress(data: &[u8]) -> (r: Result<Vec<u8>, ()>)
    ensures
        r matches Ok(v) ==> v@ == gzip_of(data@),
{
    let mut w = flate2::write::GzEncoder::new(Vec::new(), flate2::Compression::new(GZIP_LEVEL));
    if std::io::Write::write_all(&mut w, data).is_err() {
        return Err(());
    }
    w.finish().map_err(|_| ())
}

/// Relies on brotli::CompressorWriter over a byte vector: writing the whole
/// payload and taking the writer back yields the payload's brotli bytes,
/// which depend on the payload alone.
#[verifier::external_body]
pub(crate) fn brotli_compress(data: &[u8]) -> (r: Result<Vec<u8>, ()>)
    ensures
        r matches Ok(v) ==> v@ == brotli_of(data@),
{
    let mut w = brotli::CompressorWriter::new(Vec::new(), BROTLI_BUFFER, BROTLI_QUALITY, BROTLI_LGWIN);
    if std::io::Write::write_all(&mut w, data).is_err() {
        return Err(());
    }
    Ok(w.into_inner())
}

} // verus!
