//! Gzip compression of vector-tile payloads.
//!
//! The archive store keeps vector tiles gzip-compressed so that the archive
//! file stays compatible with third-party readers; the transform is invisible
//! to callers of the store. The codec itself comes from flate2 and is trusted;
//! its results are named `gzip_of` and `gunzip_of`.

use vstd::prelude::*;

verus! {

/// The gzip encoding of `data`: a function of the input bytes alone.
pub uninterp spec fn gzip_of(data: Seq<u8>) -> Seq<u8>;

/// The payload recovered by gzip-decoding `data`.
pub uninterp spec fn gunzip_of(data: Seq<u8>) -> Seq<u8>;

/// Holds exactly when `data` is the gzip encoding of some payload.
pub open spec fn is_gzip_image(data: Seq<u8>) -> bool {
    exists|b: Seq<u8>| data == gzip_of(b)
}

/// Relies on flate2's `GzEncoder`: the stream it produces is a function of the
/// input bytes alone, and `GzDecoder` recovers exactly the input from it.
/// Reading through the encoder from an in-memory slice cannot fail.
#[verifier::external_body]
pub(crate) fn gzip_encode(data: &[u8]) -> (r: Vec<u8>)
    ensures
        r@ == gzip_of(data@),
        gunzip_of(r@) == data@,
{
    let mut gz = flate2::read::GzEncoder::new(data, flate2::Compression::fast());
    let mut out: Vec<u8> = Vec::new();
    std::io::Read::read_to_end(&mut gz, &mut out).expect("reading an in-memory gzip stream");
    out
}

/// Relies on flate2's `GzDecoder`: decoding a stream that `GzEncoder` produced
/// cannot fail and returns the encoder's exact input.
#[verifier::external_body]
pub(crate) fn gzip_decode(data: &[u8]) -> (r: Vec<u8>)
    requires
        is_gzip_image(data@),
    ensures
        r@ == gunzip_of(data@),
        forall|b: Seq<u8>| data@ == gzip_of(b) ==> r@ == b,
{
    let mut gz = flate2::read::GzDecoder::new(data);
    let mut out: Vec<u8> = Vec::new();
    std::io::Read::read_to_end(&mut gz, &mut out).expect("decoding a stream GzEncoder produced");
    out
}

} // verus!
