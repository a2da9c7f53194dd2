//! The footer protocol: a fixed 24-byte trailer at the very end of every
//! output file, enabling O(1) discovery of the appended archive.
//!
//! Layout: 4 bytes little-endian `header_length`, 4 bytes little-endian
//! `archive_data_length`, then the fixed 16-byte marker.

use vstd::prelude::*;
use vstd::bytes::{spec_u32_from_le_bytes, spec_u32_to_le_bytes, u32_from_le_bytes, u32_to_le_bytes};
use vstd::slice::slice_subrange;

verus! {

/// The trailer's total size in bytes.
pub const FOOTER_SIZE: usize = 24;

/// The fixed marker, the ASCII bytes of `RSCARCHIVE_V1___`.
pub open spec fn spec_marker() -> Seq<u8> {
    seq![
        82u8,
        83u8,
        67u8,
        65u8,
        82u8,
        67u8,
        72u8,
        73u8,
        86u8,
        69u8,
        95u8,
        86u8,
        49u8,
        95u8,
        95u8,
        95u8,
    ]
}

/// The marker as bytes.
pub fn marker_bytes() -> (r: Vec<u8>)
    ensures
        r@ == spec_marker(),
        r@.len() == 16,
{
    let mut v: Vec<u8> = Vec::new();
    v.push(82u8);
    v.push(83u8);
    v.push(67u8);
    v.push(65u8);
    v.push(82u8);
    v.push(67u8);
    v.push(72u8);
    v.push(73u8);
    v.push(86u8);
    v.push(69u8);
    v.push(95u8);
    v.push(86u8);
    v.push(49u8);
    v.push(95u8);
    v.push(95u8);
    v.push(95u8);
    proof {
        assert(v@ =~= spec_marker());
    }
    v
}

/// The trailer for these two lengths.
pub open spec fn spec_footer(header_len: u32, archive_len: u32) -> Seq<u8> {
    spec_u32_to_le_bytes(header_len) + spec_u32_to_le_bytes(archive_len) + spec_marker()
}

/// Build the trailer.
pub fn footer_bytes(header_len: u32, archive_len: u32) -> (r: Vec<u8>)
    ensures
        r@ == spec_footer(header_len, archive_len),
        r@.len() == 24,
{
    let mut v = u32_to_le_bytes(header_len);
    let mut al = u32_to_le_bytes(archive_len);
    v.append(&mut al);
    let mut m = marker_bytes();
    v.append(&mut m);
    proof {
        assert(v@ =~= spec_footer(header_len, archive_len));
    }
    v
}

/// Read the trailer at the end of a whole file: the two lengths, or `None`
/// when the file is shorter than a trailer or its last 16 bytes are not the
/// marker.
pub open spec fn spec_parse_footer(f: Seq<u8>) -> Option<(u32, u32)> {
    if f.len() >= 24 && f.subrange(f.len() - 16, f.len() as int) == spec_marker() {
        Some(
            (
                spec_u32_from_le_bytes(f.subrange(f.len() - 24, f.len() - 20)),
                spec_u32_from_le_bytes(f.subrange(f.len() - 20, f.len() - 16)),
            ),
        )
    } else {
        None
    }
}

/// Read and verify the trailer at the end of `f`.
#[verifier::loop_isolation(false)]
pub fn parse_footer(f: &[u8]) -> (r: Option<(u32, u32)>)
    ensures
        r == spec_parse_footer(f@),
{
    let n = f.len();
    if n < FOOTER_SIZE {
        return None;
    }
    let m = marker_bytes();
    let mut i: usize = 0;
    while i < 16
        invariant
            0 <= i <= 16,
            forall|j: int| 0 <= j < i ==> f@[n - 16 + j] == spec_marker()[j],
        decreases 16 - i,
    {
        if f[n - 16 + i] != m[i] {
            proof {
                let tail = f@.subrange(n - 16, n as int);
                assert(tail[i as int] == f@[n - 16 + i]);
                assert(tail != spec_marker());
            }
            return None;
        }
        i += 1;
    }
    proof {
        assert(f@.subrange(n - 16, n as int) =~= spec_marker());
    }
    let hl = u32_from_le_bytes(slice_subrange(f, n - 24, n - 20));
    let al = u32_from_le_bytes(slice_subrange(f, n - 20, n - 16));
    Some((hl, al))
}

/// Footer recovery: whatever bytes stand before it, the trailer reads back
/// exactly the two lengths it was built from.
pub proof fn lemma_footer_recovery(prefix: Seq<u8>, header_len: u32, archive_len: u32)
    ensures
        spec_parse_footer(prefix + spec_footer(header_len, archive_len)) == Some(
            (header_len, archive_len),
        ),
{
    vstd::bytes::lemma_auto_spec_u32_to_from_le_bytes();
    assert(spec_u32_to_le_bytes(header_len).len() == 4);
    assert(spec_u32_to_le_bytes(archive_len).len() == 4);
    let f = prefix + spec_footer(header_len, archive_len);
    assert(f.len() == prefix.len() + 24);
    assert(f.subrange(f.len() - 16, f.len() as int) =~= spec_marker());
    assert(f.subrange(f.len() - 24, f.len() - 20) =~= spec_u32_to_le_bytes(header_len));
    assert(f.subrange(f.len() - 20, f.len() - 16) =~= spec_u32_to_le_bytes(archive_len));
}

/// Tamper detection at the footer: a file whose marker region differs from
/// the marker at any single position has no readable trailer at all.
pub proof fn lemma_marker_mismatch(f: Seq<u8>, i: int)
    requires
        f.len() >= 24,
        0 <= i < 16,
        f[f.len() - 16 + i] != spec_marker()[i],
    ensures
        spec_parse_footer(f) is None,
{
    let tail = f.subrange(f.len() - 16, f.len() as int);
    assert(tail[i] == f[f.len() - 16 + i]);
    assert(tail != spec_marker());
}

} // verus!
