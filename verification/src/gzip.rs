//! Whole-payload compression: the concatenated resource bytes as a single
//! gzip stream, through flate2.

use vstd::prelude::*;

verus! {

/// What flate2's gzip decoder yields for a byte sequence: the stream's
/// decoded content, or `None` where the bytes are not a readable gzip
/// stream. The outcome is a function of the bytes alone.
pub uninterp spec fn gunzip_of(data: Seq<u8>) -> Option<Seq<u8>>;

/// What flate2's gzip encoder at the default level emits for a byte
/// sequence. The encoder writes a fixed stream header (mtime 0, operating
/// system byte 255) and a deterministic deflate body, so the output too is
/// a function of the bytes alone.
pub uninterp spec fn gzip_of(data: Seq<u8>) -> Seq<u8>;

/// Relies on flate2's `write::GzEncoder` over a `Vec<u8>` sink at the
/// default level: its output is determined by the bytes written, is a gzip
/// stream that `read::GzDecoder` decodes back to exactly those bytes, and
/// writes into a `Vec` cannot fail.
#[verifier::external_body]
pub(crate) fn gzip_compress(data: &[u8]) -> (r: Vec<u8>)
    ensures
        r@ == gzip_of(data@),
        gunzip_of(r@) == Some(data@),
{
    let mut enc = flate2::write::GzEncoder::new(Vec::new(), flate2::Compression::default());
    std::io::Write::write_all(&mut enc, data).expect("writing into a Vec cannot fail");
    enc.finish().expect("finishing into a Vec cannot fail")
}

/// Relies on flate2's `read::GzDecoder`: reading it to the end yields the
/// gzip stream's content, and fails exactly where the bytes are not a
/// readable gzip stream; the outcome depends on the bytes alone.
#[verifier::external_body]
pub(crate) fn gzip_decompress(data: &[u8]) -> (r: Option<Vec<u8>>)
    ensures
        match r {
            Some(v) => gunzip_of(data@) == Some(v@),
            None => gunzip_of(data@) is None,
        },
{
    let mut dec = flate2::read::GzDecoder::new(data);
    let mut out: Vec<u8> = Vec::new();
    match std::io::Read::read_to_end(&mut dec, &mut out) {
        Ok(_) => Some(out),
        Err(_) => None,
    }
}

} // verus!
