//! What holds of the format as a whole: packing and extracting are inverse,
//! the trailer recovers the build-time lengths, and tampering with the
//! marker or truncating the file is detected.

use vstd::prelude::*;
use vstd::bytes::spec_u32_to_le_bytes;

use crate::codec::{lemma_header_round_trip, lemma_peel, spec_encode_header};
use crate::extract::{spec_extract, spec_slices, CorruptArchive, ExtractionView};
use crate::footer::{lemma_footer_recovery, lemma_marker_mismatch, spec_footer, spec_marker,
    spec_parse_footer};
use crate::pack::{spec_concat, spec_pack_ok, spec_packed_layout, spec_request_entries,
    spec_request_header, spec_sizes_fit, spec_stored_ok, BuildRequestView, ResourceInputView};

verus! {

/// Each resource's bytes, in order: what a faithful extraction must yield.
pub open spec fn spec_datas(rs: Seq<ResourceInputView>) -> Seq<Seq<u8>> {
    rs.map_values(|r: ResourceInputView| r.data)
}

/// Slicing a payload that is exactly the resources' concatenation, by their
/// exact sizes, gives back each resource's bytes.
proof fn lemma_slices_of_concat(rs: Seq<ResourceInputView>, payload: Seq<u8>, off: int)
    requires
        forall|i: int| 0 <= i < rs.len() ==> #[trigger] rs[i].data.len() <= u32::MAX,
        0 <= off <= payload.len(),
        payload.subrange(off, payload.len() as int) == spec_concat(rs),
    ensures
        spec_slices(spec_request_entries(rs), payload, off) == Some(spec_datas(rs)),
    decreases rs.len(),
{
    let es = spec_request_entries(rs);
    if rs.len() == 0 {
        assert(es.len() == 0);
        assert(spec_datas(rs) =~= Seq::<Seq<u8>>::empty());
    } else {
        let d0 = rs[0].data;
        let rest = rs.drop_first();
        assert(spec_concat(rs) == d0 + spec_concat(rest));
        assert(payload.len() - off == d0.len() + spec_concat(rest).len());
        assert(es[0].size == d0.len() as u32);
        assert(d0.len() <= u32::MAX);
        lemma_peel(payload, off, d0, spec_concat(rest));
        let off2 = off + d0.len() as int;
        assert(payload.subrange(off, off2) == d0);
        assert(payload.subrange(off2, payload.len() as int) == spec_concat(rest));
        assert(forall|i: int| 0 <= i < rest.len() ==> #[trigger] rest[i].data.len() <= u32::MAX)
            by {
            assert(forall|i: int| 0 <= i < rest.len() ==> rest[i] == rs[i + 1]);
        }
        lemma_slices_of_concat(rest, payload, off2);
        assert(es.drop_first() =~= spec_request_entries(rest));
        assert(seq![d0] + spec_datas(rest) =~= spec_datas(rs));
    }
}

/// Footer recovery: a packed file's trailer reads back exactly the header
/// length and archive data length used at build time.
pub proof fn lemma_packed_footer_recovery(rq: BuildRequestView, stored: Seq<u8>)
    requires
        spec_encode_header(spec_request_header(rq)).len() + stored.len() <= u32::MAX,
    ensures
        ({
            let hl = spec_encode_header(spec_request_header(rq)).len();
            spec_parse_footer(spec_packed_layout(rq, stored)) == Some(
                (hl as u32, (hl + stored.len()) as u32),
            )
        }),
{
    let hb = spec_encode_header(spec_request_header(rq));
    let hl = hb.len();
    let al = hl + stored.len();
    let prefix = rq.stub_bytes + hb + stored;
    assert(spec_packed_layout(rq, stored) =~= prefix + spec_footer(hl as u32, al as u32));
    lemma_footer_recovery(prefix, hl as u32, al as u32);
}

/// Round trip: any output the packer accepts extracts back to the request's
/// header and, resource by resource, to byte-identical contents — under
/// both the raw and the compressed storage.
#[verifier::rlimit(60)]
pub proof fn lemma_pack_extract_round_trip(rq: BuildRequestView, out: Seq<u8>, stored: Seq<u8>)
    requires
        spec_sizes_fit(rq),
        spec_stored_ok(rq, stored),
        spec_encode_header(spec_request_header(rq)).len() + stored.len() <= u32::MAX,
        out == spec_packed_layout(rq, stored),
    ensures
        spec_extract(out) == Ok::<ExtractionView, CorruptArchive>(
            ExtractionView {
                header: spec_request_header(rq),
                contents: spec_datas(rq.resources),
            },
        ),
{
    let h = spec_request_header(rq);
    let hb = spec_encode_header(h);
    let hl = hb.len() as int;
    let al = hl + stored.len();
    vstd::bytes::lemma_auto_spec_u32_to_from_le_bytes();
    assert(spec_u32_to_le_bytes(hl as u32).len() == 4);
    assert(spec_u32_to_le_bytes(al as u32).len() == 4);
    assert(spec_footer(hl as u32, al as u32).len() == 24);
    lemma_packed_footer_recovery(rq, stored);
    assert(spec_parse_footer(out) == Some((hl as u32, al as u32)));
    assert(out.len() == rq.stub_bytes.len() + al + 24);
    assert((hl as u32) <= (al as u32));
    let archive = out.subrange(out.len() - 24 - al, out.len() - 24);
    assert(archive =~= hb + stored);
    assert(archive.len() == hb.len() + stored.len());
    assert(archive.subrange(0, archive.len() as int) =~= archive);
    lemma_peel(archive, 0, hb, stored);
    assert(archive.subrange(0, hl) == hb);
    assert(archive.subrange(hl, al) == stored);
    lemma_header_round_trip(h);
    assert(crate::codec::spec_decode_header(archive.subrange(0, hl)) == Some(h));
    let payload = spec_concat(rq.resources);
    assert(payload.subrange(0, payload.len() as int) =~= payload);
    lemma_slices_of_concat(rq.resources, payload, 0);
    assert(spec_slices(h.resources, payload, 0) == Some(spec_datas(rq.resources)));
}

/// Round trip, as the packer states it: whatever output `pack` accepts for
/// a request whose lengths fit, extraction yields that request's header and
/// contents exactly.
pub proof fn lemma_pack_output_extracts(rq: BuildRequestView, out: Seq<u8>)
    requires
        spec_sizes_fit(rq),
        spec_pack_ok(rq, out),
    ensures
        spec_extract(out) == Ok::<ExtractionView, CorruptArchive>(
            ExtractionView {
                header: spec_request_header(rq),
                contents: spec_datas(rq.resources),
            },
        ),
{
    let stored = choose|stored: Seq<u8>|
        {
            &&& #[trigger] spec_stored_ok(rq, stored)
            &&& spec_encode_header(spec_request_header(rq)).len() + stored.len() <= u32::MAX
            &&& out == spec_packed_layout(rq, stored)
        };
    lemma_pack_extract_round_trip(rq, out, stored);
}

/// Marker tamper detection: a file image whose 16-byte marker region
/// differs from the marker at any one position fails extraction at the
/// footer, never silently proceeding.
pub proof fn lemma_marker_tamper_detected(f: Seq<u8>, i: int)
    requires
        f.len() >= 24,
        0 <= i < 16,
        f[f.len() - 16 + i] != spec_marker()[i],
    ensures
        spec_extract(f) == Err::<ExtractionView, CorruptArchive>(CorruptArchive::BadFooter),
{
    lemma_marker_mismatch(f, i);
}

/// Truncation detection, unconditionally, for cuts of one to fifteen
/// bytes: the marker cannot line up with a shifted copy of itself, so the
/// truncated file fails extraction at the footer whatever the payload
/// holds.
pub proof fn lemma_truncation_detected_small(out: Seq<u8>, hl: u32, al: u32, k: int)
    requires
        out.len() >= 24,
        out.subrange(out.len() - 24, out.len() as int) == spec_footer(hl, al),
        1 <= k <= 15,
    ensures
        spec_extract(out.take(out.len() - k)) == Err::<ExtractionView, CorruptArchive>(
            CorruptArchive::BadFooter,
        ),
{
    let g = out.take(out.len() - k);
    if g.len() < 24 {
        assert(spec_parse_footer(g) is None);
    } else {
        vstd::bytes::lemma_auto_spec_u32_to_from_le_bytes();
        assert(spec_u32_to_le_bytes(hl).len() == 4);
        assert(spec_u32_to_le_bytes(al).len() == 4);
        let m = spec_marker();
        assert(forall|j: int|
            0 <= j < 16 ==> out[out.len() - 16 + j] == #[trigger] m[j]) by {
            assert(forall|j: int|
                0 <= j < 16 ==> out.subrange(out.len() - 24, out.len() as int)[8 + j]
                    == #[trigger] m[j]);
        }
        let i = if k <= 12 {
            12int
        } else {
            k
        };
        assert(k <= i < 16);
        assert(g[g.len() - 16 + i] == out[out.len() - 16 + (i - k)]);
        assert(g[g.len() - 16 + i] == m[i - k]);
        assert(m[12] == 49);
        assert(m[0] == 82 && m[1] == 83 && m[2] == 67 && m[3] == 65 && m[4] == 82 && m[5] == 67
            && m[6] == 72 && m[7] == 73 && m[8] == 86 && m[9] == 69 && m[10] == 95 && m[11] == 86
            && m[13] == 95 && m[14] == 95 && m[15] == 95);
        assert(m[i - k] != m[i]);
        lemma_marker_mismatch(g, i);
    }
}

/// Truncation detection in general: any cut that leaves no well-formed
/// trailer — too short a file, a marker region that no longer matches, or a
/// declared archive length that runs past the cut — fails extraction
/// cleanly. (A payload crafted to end in its own well-formed trailer is the
/// one case the trailer protocol cannot tell from a shorter valid file.)
pub proof fn lemma_truncation_detected(g: Seq<u8>)
    requires
        g.len() < 24 || g.subrange(g.len() - 16, g.len() as int) != spec_marker() || (match
            spec_parse_footer(g) {
            Some((hl, al)) => al + 24 > g.len() || hl > al,
            None => true,
        }),
    ensures
        spec_extract(g) is Err,
{
}

} // verus!
