//! Compression of reports.

use std::io::{Read, Write};
use vstd::prelude::*;

verus! {

/// What `flate2::write::GzEncoder` makes of `bytes` at the default level.
pub uninterp spec fn gz_encoded(bytes: Seq<u8>) -> Seq<u8>;

/// What `flate2::read::GzDecoder` reads off `bytes`, and the text of the error in which
/// the reading ends, if it does.
pub uninterp spec fn gz_decoded(bytes: Seq<u8>) -> (Seq<u8>, Option<Seq<char>>);

/// Writes `bytes` through `flate2::write::GzEncoder`. A gzip stream begins with its two
/// magic bytes, and decoding it gives back what was encoded.
#[verifier::external_body]
pub(crate) fn gz_encode(bytes: &[u8]) -> (out: Vec<u8>)
    ensures
        out@ == gz_encoded(bytes@),
        out@.len() >= 2,
        out@[0] == 0x1f,
        out@[1] == 0x8b,
        gz_decoded(out@) == (bytes@, None::<Seq<char>>),
{
    let mut encoder = flate2::write::GzEncoder::new(Vec::new(), flate2::Compression::default());
    encoder.write_all(bytes).expect("a vector takes every byte");
    encoder.flush().expect("a vector takes every byte");
    encoder.finish().expect("a vector takes every byte")
}

/// Reads `bytes` through `flate2::read::GzDecoder` to the end, or to the first error.
#[verifier::external_body]
pub(crate) fn gz_decode(bytes: &[u8]) -> (r: (Vec<u8>, Option<String>))
    ensures
        r.0@ == gz_decoded(bytes@).0,
        r.1 is Some <==> gz_decoded(bytes@).1 is Some,
        r.1 matches Some(e) ==> gz_decoded(bytes@).1 == Some(e@),
{
    let mut out = Vec::new();
    let end = flate2::read::GzDecoder::new(bytes).read_to_end(&mut out);
    (out, end.err().map(|e| e.to_string()))
}

} // verus!
