//! The canonical header encoding: a deterministic, self-describing binary
//! form that the packer writes and the extractor reads.
//!
//! Layout, in order: the extraction path, the main file name and the
//! execution style, each as a 32-bit little-endian byte length followed by
//! the string's UTF-8 bytes; one byte each for `run_as_admin` and
//! `is_compressed` (0 or 1, anything else is malformed); the entry count as
//! 32 bits little-endian; then each entry as a length-prefixed filename
//! followed by its 32-bit size.

use vstd::prelude::*;
use vstd::bytes::{spec_u32_from_le_bytes, spec_u32_to_le_bytes, u32_from_le_bytes, u32_to_le_bytes};
use vstd::slice::{slice_subrange, slice_to_vec};
use vstd::utf8::{decode_utf8, encode_utf8, valid_utf8};

use crate::header::{
    entries_view, header_wf, str_encodable, ArchiveHeader, ArchiveHeaderView, ResourceEntry,
    ResourceEntryView,
};

verus! {

/// A string field's encoding: 32-bit little-endian byte length, then the
/// UTF-8 bytes.
pub open spec fn spec_enc_str(s: Seq<char>) -> Seq<u8> {
    spec_u32_to_le_bytes(encode_utf8(s).len() as u32) + encode_utf8(s)
}

/// A resource entry's encoding: its filename, then its size as 32 bits
/// little-endian.
pub open spec fn spec_enc_entry(e: ResourceEntryView) -> Seq<u8> {
    spec_enc_str(e.filename) + spec_u32_to_le_bytes(e.size)
}

/// The entries' encodings, concatenated in order.
pub open spec fn spec_enc_entries(rs: Seq<ResourceEntryView>) -> Seq<u8>
    decreases rs.len(),
{
    if rs.len() == 0 {
        Seq::empty()
    } else {
        spec_enc_entry(rs[0]) + spec_enc_entries(rs.drop_first())
    }
}

/// How a boolean is stored.
pub open spec fn bool_byte(b: bool) -> u8 {
    if b {
        1u8
    } else {
        0u8
    }
}

/// The whole header's canonical encoding.
pub open spec fn spec_encode_header(h: ArchiveHeaderView) -> Seq<u8> {
    spec_enc_str(h.extraction_path) + spec_enc_str(h.main_file) + spec_enc_str(h.execution_style)
        + seq![bool_byte(h.run_as_admin), bool_byte(h.is_compressed)]
        + spec_u32_to_le_bytes(h.resources.len() as u32) + spec_enc_entries(h.resources)
}

/// Read a 32-bit little-endian value at `pos`; the position after it.
pub open spec fn spec_dec_u32(b: Seq<u8>, pos: int) -> Option<(u32, int)> {
    if 0 <= pos && pos + 4 <= b.len() {
        Some((spec_u32_from_le_bytes(b.subrange(pos, pos + 4)), pos + 4))
    } else {
        None
    }
}

/// Read a length-prefixed UTF-8 string at `pos`; the position after it.
pub open spec fn spec_dec_str(b: Seq<u8>, pos: int) -> Option<(Seq<char>, int)> {
    match spec_dec_u32(b, pos) {
        None => None,
        Some((n, p)) => {
            if p + n <= b.len() && valid_utf8(b.subrange(p, p + n)) {
                Some((decode_utf8(b.subrange(p, p + n)), p + n))
            } else {
                None
            }
        },
    }
}

/// Read a boolean byte at `pos`: 0 or 1, anything else is malformed.
pub open spec fn spec_dec_bool(b: Seq<u8>, pos: int) -> Option<(bool, int)> {
    if 0 <= pos < b.len() {
        if b[pos] == 0u8 {
            Some((false, pos + 1))
        } else if b[pos] == 1u8 {
            Some((true, pos + 1))
        } else {
            None
        }
    } else {
        None
    }
}

/// Read `count` entries in order, starting at `pos`.
pub open spec fn spec_dec_entries(b: Seq<u8>, pos: int, count: nat) -> Option<
    (Seq<ResourceEntryView>, int),
>
    decreases count,
{
    if count == 0 {
        Some((Seq::empty(), pos))
    } else {
        match spec_dec_str(b, pos) {
            None => None,
            Some((name, p1)) => match spec_dec_u32(b, p1) {
                None => None,
                Some((sz, p2)) => match spec_dec_entries(b, p2, (count - 1) as nat) {
                    None => None,
                    Some((rest, p3)) => Some(
                        (seq![ResourceEntryView { filename: name, size: sz }] + rest, p3),
                    ),
                },
            },
        }
    }
}

/// Decode a whole header from exactly these bytes; trailing bytes, a bad
/// boolean byte, a short field or invalid UTF-8 are all malformed.
pub open spec fn spec_decode_header(b: Seq<u8>) -> Option<ArchiveHeaderView> {
    match spec_dec_str(b, 0) {
        None => None,
        Some((ep, p1)) => match spec_dec_str(b, p1) {
            None => None,
            Some((mf, p2)) => match spec_dec_str(b, p2) {
                None => None,
                Some((es, p3)) => match spec_dec_bool(b, p3) {
                    None => None,
                    Some((adm, p4)) => match spec_dec_bool(b, p4) {
                        None => None,
                        Some((cmp, p5)) => match spec_dec_u32(b, p5) {
                            None => None,
                            Some((cnt, p6)) => match spec_dec_entries(b, p6, cnt as nat) {
                                None => None,
                                Some((rs, p7)) => if p7 == b.len() {
                                    Some(
                                        ArchiveHeaderView {
                                            extraction_path: ep,
                                            main_file: mf,
                                            resources: rs,
                                            execution_style: es,
                                            run_as_admin: adm,
                                            is_compressed: cmp,
                                        },
                                    )
                                } else {
                                    None
                                },
                            },
                        },
                    },
                },
            },
        },
    }
}

/// Relies on `String::from_utf8`: it succeeds exactly on valid UTF-8 and
/// yields the characters those bytes encode.
#[verifier::external_body]
fn string_from_utf8(v: Vec<u8>) -> (r: Option<String>)
    ensures
        match r {
            Some(s) => valid_utf8(v@) && s@ == decode_utf8(v@),
            None => !valid_utf8(v@),
        },
{
    match String::from_utf8(v) {
        Ok(s) => Some(s),
        Err(_) => None,
    }
}

/// Encode one string field, or report that its byte length does not fit the
/// 32-bit prefix.
fn enc_str_bytes(s: &String) -> (r: Option<Vec<u8>>)
    ensures
        match r {
            Some(v) => str_encodable(s@) && v@ == spec_enc_str(s@),
            None => !str_encodable(s@),
        },
{
    let bs: &[u8] = s.as_str().as_bytes();
    if bs.len() as u64 > u32::MAX as u64 {
        return None;
    }
    let mut v = u32_to_le_bytes(bs.len() as u32);
    v.extend_from_slice(bs);
    proof {
        assert(v@ =~= spec_enc_str(s@));
    }
    Some(v)
}

/// Appending one entry extends the entries' encoding by that entry's bytes.
pub proof fn lemma_enc_entries_push(rs: Seq<ResourceEntryView>, e: ResourceEntryView)
    ensures
        spec_enc_entries(rs.push(e)) == spec_enc_entries(rs) + spec_enc_entry(e),
    decreases rs.len(),
{
    if rs.len() == 0 {
        assert(rs.push(e)[0] == e);
        assert(rs.push(e).drop_first() =~= Seq::<ResourceEntryView>::empty());
        assert(spec_enc_entries(Seq::<ResourceEntryView>::empty()) =~= Seq::<u8>::empty());
        assert(spec_enc_entries(rs.push(e)) =~= spec_enc_entry(e) + Seq::<u8>::empty());
        assert(spec_enc_entries(rs) =~= Seq::<u8>::empty());
        assert(spec_enc_entries(rs.push(e)) =~= spec_enc_entries(rs) + spec_enc_entry(e));
    } else {
        assert(rs.push(e).drop_first() =~= rs.drop_first().push(e));
        lemma_enc_entries_push(rs.drop_first(), e);
        assert(rs.push(e)[0] == rs[0]);
        assert(spec_enc_entries(rs.push(e)) =~= spec_enc_entry(rs[0]) + spec_enc_entries(
            rs.drop_first().push(e),
        ));
        assert(spec_enc_entries(rs) =~= spec_enc_entry(rs[0]) + spec_enc_entries(rs.drop_first()));
        assert(spec_enc_entry(rs[0]) + (spec_enc_entries(rs.drop_first()) + spec_enc_entry(e))
            =~= (spec_enc_entry(rs[0]) + spec_enc_entries(rs.drop_first())) + spec_enc_entry(e));
    }
}

/// Serialize a header to its canonical encoding; `None` exactly when the
/// header is not representable (a string or the entry count overflows the
/// 32-bit prefixes).
#[verifier::loop_isolation(false)]
pub fn header_to_bytes(h: &ArchiveHeader) -> (r: Option<Vec<u8>>)
    ensures
        match r {
            Some(v) => header_wf(h@) && v@ == spec_encode_header(h@),
            None => !header_wf(h@),
        },
{
    let ep = match enc_str_bytes(&h.extraction_path) {
        Some(v) => v,
        None => {
            return None;
        },
    };
    let mf = match enc_str_bytes(&h.main_file) {
        Some(v) => v,
        None => {
            return None;
        },
    };
    let es = match enc_str_bytes(&h.execution_style) {
        Some(v) => v,
        None => {
            return None;
        },
    };
    let n = h.resources.len();
    if n as u64 > u32::MAX as u64 {
        return None;
    }
    let mut out = ep;
    let mut mf = mf;
    let mut es = es;
    out.append(&mut mf);
    out.append(&mut es);
    out.push(if h.run_as_admin {
        1u8
    } else {
        0u8
    });
    out.push(if h.is_compressed {
        1u8
    } else {
        0u8
    });
    let mut cnt = u32_to_le_bytes(n as u32);
    out.append(&mut cnt);
    let ghost prefix: Seq<u8> = out@;
    proof {
        assert(prefix =~= spec_enc_str(h@.extraction_path) + spec_enc_str(h@.main_file)
            + spec_enc_str(h@.execution_style)
            + seq![bool_byte(h@.run_as_admin), bool_byte(h@.is_compressed)]
            + spec_u32_to_le_bytes(h@.resources.len() as u32));
    }
    let mut i: usize = 0;
    while i < n
        invariant
            0 <= i <= n,
            out@ == prefix + spec_enc_entries(h@.resources.take(i as int)),
            forall|j: int|
                0 <= j < i ==> str_encodable(#[trigger] h@.resources[j].filename),
        decreases n - i,
    {
        let fb = match enc_str_bytes(&h.resources[i].filename) {
            Some(v) => v,
            None => {
                proof {
                    assert(!str_encodable(h@.resources[i as int].filename));
                }
                return None;
            },
        };
        let mut fb = fb;
        out.append(&mut fb);
        let mut sz = u32_to_le_bytes(h.resources[i].size);
        out.append(&mut sz);
        proof {
            let rs = h@.resources;
            let iv = i as int;
            assert(rs.take(iv + 1) =~= rs.take(iv).push(rs[iv]));
            lemma_enc_entries_push(rs.take(iv), rs[iv]);
            assert(out@ =~= prefix + spec_enc_entries(rs.take(iv + 1)));
        }
        i += 1;
    }
    proof {
        assert(h@.resources.take(n as int) =~= h@.resources);
        assert(out@ =~= spec_encode_header(h@));
    }
    Some(out)
}

fn dec_u32(b: &[u8], pos: usize) -> (r: Option<(u32, usize)>)
    ensures
        match r {
            Some((x, p)) => spec_dec_u32(b@, pos as int) == Some((x, p as int)) && p <= b@.len(),
            None => spec_dec_u32(b@, pos as int) is None,
        },
{
    if pos <= b.len() && b.len() - pos >= 4 {
        let x = u32_from_le_bytes(slice_subrange(b, pos, pos + 4));
        Some((x, pos + 4))
    } else {
        None
    }
}

fn dec_str(b: &[u8], pos: usize) -> (r: Option<(String, usize)>)
    ensures
        match r {
            Some((s, p)) => spec_dec_str(b@, pos as int) == Some((s@, p as int)) && p <= b@.len(),
            None => spec_dec_str(b@, pos as int) is None,
        },
{
    match dec_u32(b, pos) {
        None => None,
        Some((n, p)) => {
            if b.len() - p >= n as usize {
                let sub = slice_subrange(b, p, p + n as usize);
                match string_from_utf8(slice_to_vec(sub)) {
                    Some(s) => Some((s, p + n as usize)),
                    None => None,
                }
            } else {
                None
            }
        },
    }
}

fn dec_bool(b: &[u8], pos: usize) -> (r: Option<(bool, usize)>)
    ensures
        match r {
            Some((x, p)) => spec_dec_bool(b@, pos as int) == Some((x, p as int)) && p <= b@.len(),
            None => spec_dec_bool(b@, pos as int) is None,
        },
{
    if pos < b.len() {
        let x = b[pos];
        if x == 0 {
            Some((false, pos + 1))
        } else if x == 1 {
            Some((true, pos + 1))
        } else {
            None
        }
    } else {
        None
    }
}

#[verifier::loop_isolation(false)]
fn dec_entries(b: &[u8], pos: usize, count: u32) -> (r: Option<(Vec<ResourceEntry>, usize)>)
    ensures
        match r {
            Some((v, p)) => spec_dec_entries(b@, pos as int, count as nat) == Some(
                (entries_view(v@), p as int),
            ),
            None => spec_dec_entries(b@, pos as int, count as nat) is None,
        },
{
    let mut parsed: Vec<ResourceEntry> = Vec::new();
    let mut p = pos;
    let mut k: u32 = 0;
    proof {
        assert(entries_view(parsed@) =~= Seq::<ResourceEntryView>::empty());
        match spec_dec_entries(b@, pos as int, count as nat) {
            Some((rest, pf)) => {
                assert(entries_view(parsed@) + rest =~= rest);
            },
            None => {},
        }
    }
    while k < count
        invariant
            0 <= k <= count,
            match spec_dec_entries(b@, p as int, (count - k) as nat) {
                None => spec_dec_entries(b@, pos as int, count as nat) is None,
                Some((rest, pf)) => spec_dec_entries(b@, pos as int, count as nat) == Some(
                    (entries_view(parsed@) + rest, pf),
                ),
            },
        decreases count - k,
    {
        let ghost m = (count - k) as nat;
        let (name_s, p1) = match dec_str(b, p) {
            Some(t) => t,
            None => {
                proof {
                    assert(spec_dec_entries(b@, p as int, m) is None);
                }
                return None;
            },
        };
        let (sz, p2) = match dec_u32(b, p1) {
            Some(t) => t,
            None => {
                proof {
                    assert(spec_dec_entries(b@, p as int, m) is None);
                }
                return None;
            },
        };
        let ghost old_parsed = parsed@;
        parsed.push(ResourceEntry { filename: name_s, size: sz });
        proof {
            let ev = ResourceEntryView { filename: name_s@, size: sz };
            assert(entries_view(parsed@) =~= entries_view(old_parsed).push(ev));
            match spec_dec_entries(b@, p2 as int, (m - 1) as nat) {
                None => {
                    assert(spec_dec_entries(b@, p as int, m) is None);
                },
                Some((rest2, pf2)) => {
                    assert(spec_dec_entries(b@, p as int, m) == Some((seq![ev] + rest2, pf2)));
                    assert(entries_view(old_parsed) + (seq![ev] + rest2) =~= entries_view(parsed@)
                        + rest2);
                },
            }
        }
        p = p2;
        k = k + 1;
    }
    proof {
        assert(spec_dec_entries(b@, p as int, 0) == Some(
            (Seq::<ResourceEntryView>::empty(), p as int),
        ));
        assert(entries_view(parsed@) + Seq::<ResourceEntryView>::empty() =~= entries_view(
            parsed@,
        ));
    }
    Some((parsed, p))
}

/// Splitting a concatenation out of the middle of a byte sequence.
pub(crate) proof fn lemma_peel(b: Seq<u8>, pos: int, x: Seq<u8>, y: Seq<u8>)
    requires
        0 <= pos,
        pos + x.len() + y.len() <= b.len(),
        b.subrange(pos, pos + x.len() + y.len()) == x + y,
    ensures
        b.subrange(pos, pos + x.len()) == x,
        b.subrange(pos + x.len(), pos + x.len() + y.len()) == y,
{
    let w = b.subrange(pos, pos + x.len() + y.len());
    assert forall|i: int| 0 <= i < x.len() implies b.subrange(pos, pos + x.len())[i] == x[i] by {
        assert(w[i] == (x + y)[i]);
    }
    assert(b.subrange(pos, pos + x.len()) =~= x);
    assert forall|i: int| 0 <= i < y.len() implies b.subrange(
        pos + x.len(),
        pos + x.len() + y.len(),
    )[i] == y[i] by {
        assert(w[x.len() + i] == (x + y)[x.len() + i]);
    }
    assert(b.subrange(pos + x.len(), pos + x.len() + y.len()) =~= y);
}

/// A stored 32-bit value reads back as itself.
proof fn lemma_dec_u32_at(b: Seq<u8>, pos: int, x: u32)
    requires
        0 <= pos,
        pos + 4 <= b.len(),
        b.subrange(pos, pos + 4) == spec_u32_to_le_bytes(x),
    ensures
        spec_dec_u32(b, pos) == Some((x, pos + 4)),
{
    vstd::bytes::lemma_auto_spec_u32_to_from_le_bytes();
    assert(spec_u32_to_le_bytes(x).len() == 4);
    assert(spec_u32_from_le_bytes(b.subrange(pos, pos + 4)) == x);
}

/// An encoded string field reads back as the same characters.
proof fn lemma_dec_str_at(b: Seq<u8>, pos: int, s: Seq<char>)
    requires
        0 <= pos,
        str_encodable(s),
        pos + spec_enc_str(s).len() <= b.len(),
        b.subrange(pos, pos + spec_enc_str(s).len()) == spec_enc_str(s),
    ensures
        spec_enc_str(s).len() == 4 + encode_utf8(s).len(),
        spec_dec_str(b, pos) == Some((s, pos + spec_enc_str(s).len())),
{
    broadcast use vstd::utf8::encode_utf8_valid_utf8, vstd::utf8::encode_utf8_decode_utf8;

    vstd::bytes::lemma_auto_spec_u32_to_from_le_bytes();
    let eb = encode_utf8(s);
    let n = eb.len();
    let le = spec_u32_to_le_bytes(n as u32);
    assert(le.len() == 4);
    lemma_peel(b, pos, le, eb);
    lemma_dec_u32_at(b, pos, n as u32);
    assert((n as u32) as int == n as int);
    assert(b.subrange(pos + 4, pos + 4 + n) == eb);
    assert(valid_utf8(eb));
    assert(decode_utf8(eb) == s);
}

/// An encoded entry sequence reads back as the same entries.
proof fn lemma_dec_entries_at(b: Seq<u8>, pos: int, rs: Seq<ResourceEntryView>)
    requires
        0 <= pos,
        forall|i: int| 0 <= i < rs.len() ==> str_encodable(#[trigger] rs[i].filename),
        pos + spec_enc_entries(rs).len() <= b.len(),
        b.subrange(pos, pos + spec_enc_entries(rs).len()) == spec_enc_entries(rs),
    ensures
        spec_dec_entries(b, pos, rs.len()) == Some((rs, pos + spec_enc_entries(rs).len())),
    decreases rs.len(),
{
    if rs.len() == 0 {
        assert(rs =~= Seq::<ResourceEntryView>::empty());
    } else {
        let e = rs[0];
        let ef = spec_enc_str(e.filename);
        let esz = spec_u32_to_le_bytes(e.size);
        let rest = spec_enc_entries(rs.drop_first());
        vstd::bytes::lemma_auto_spec_u32_to_from_le_bytes();
        assert(spec_enc_entries(rs) == spec_enc_entry(e) + rest);
        assert((ef + esz) + rest =~= ef + (esz + rest));
        assert(spec_enc_entries(rs).len() == ef.len() + esz.len() + rest.len());
        lemma_peel(b, pos, ef, esz + rest);
        lemma_dec_str_at(b, pos, e.filename);
        let p1 = pos + ef.len() as int;
        lemma_peel(b, p1, esz, rest);
        lemma_dec_u32_at(b, p1, e.size);
        let p2 = p1 + 4;
        lemma_dec_entries_at(b, p2, rs.drop_first());
        assert(seq![e] + rs.drop_first() =~= rs);
        assert(ResourceEntryView { filename: e.filename, size: e.size } == e);
    }
}

/// Round trip: decoding a well-formed header's canonical encoding gives
/// back exactly that header.
#[verifier::rlimit(60)]
pub proof fn lemma_header_round_trip(h: ArchiveHeaderView)
    requires
        header_wf(h),
    ensures
        spec_decode_header(spec_encode_header(h)) == Some(h),
{
    let b = spec_encode_header(h);
    let a1 = spec_enc_str(h.extraction_path);
    let a2 = spec_enc_str(h.main_file);
    let a3 = spec_enc_str(h.execution_style);
    let a4 = seq![bool_byte(h.run_as_admin), bool_byte(h.is_compressed)];
    let a5 = spec_u32_to_le_bytes(h.resources.len() as u32);
    let a6 = spec_enc_entries(h.resources);
    vstd::bytes::lemma_auto_spec_u32_to_from_le_bytes();
    assert(b =~= a1 + (a2 + (a3 + (a4 + (a5 + a6)))));
    assert(b.subrange(0, b.len() as int) =~= b);
    lemma_peel(b, 0, a1, a2 + (a3 + (a4 + (a5 + a6))));
    lemma_dec_str_at(b, 0, h.extraction_path);
    let p1 = a1.len() as int;
    lemma_peel(b, p1, a2, a3 + (a4 + (a5 + a6)));
    lemma_dec_str_at(b, p1, h.main_file);
    let p2 = p1 + a2.len();
    lemma_peel(b, p2, a3, a4 + (a5 + a6));
    lemma_dec_str_at(b, p2, h.execution_style);
    let p3 = p2 + a3.len();
    lemma_peel(b, p3, a4, a5 + a6);
    assert(b.subrange(p3, p3 + 2)[0] == bool_byte(h.run_as_admin));
    assert(b.subrange(p3, p3 + 2)[1] == bool_byte(h.is_compressed));
    assert(b[p3] == bool_byte(h.run_as_admin));
    assert(b[p3 + 1] == bool_byte(h.is_compressed));
    assert(spec_dec_bool(b, p3) == Some((h.run_as_admin, p3 + 1)));
    assert(spec_dec_bool(b, p3 + 1) == Some((h.is_compressed, p3 + 2)));
    let p5 = p3 + 2;
    lemma_peel(b, p5, a5, a6);
    lemma_dec_u32_at(b, p5, h.resources.len() as u32);
    let p6 = p5 + 4;
    assert((h.resources.len() as u32) as nat == h.resources.len());
    lemma_dec_entries_at(b, p6, h.resources);
    assert(p6 + a6.len() == b.len());
    assert(spec_decode_header(b) == Some(h));
}

/// Parse a header from exactly these bytes; `None` exactly when the bytes
/// are not a canonical header encoding.
pub fn header_from_bytes(b: &[u8]) -> (r: Option<ArchiveHeader>)
    ensures
        match r {
            Some(h) => spec_decode_header(b@) == Some(h@),
            None => spec_decode_header(b@) is None,
        },
{
    let (ep, p1) = match dec_str(b, 0) {
        Some(t) => t,
        None => {
            return None;
        },
    };
    let (mf, p2) = match dec_str(b, p1) {
        Some(t) => t,
        None => {
            return None;
        },
    };
    let (es, p3) = match dec_str(b, p2) {
        Some(t) => t,
        None => {
            return None;
        },
    };
    let (adm, p4) = match dec_bool(b, p3) {
        Some(t) => t,
        None => {
            return None;
        },
    };
    let (cmp, p5) = match dec_bool(b, p4) {
        Some(t) => t,
        None => {
            return None;
        },
    };
    let (cnt, p6) = match dec_u32(b, p5) {
        Some(t) => t,
        None => {
            return None;
        },
    };
    let (rs, p7) = match dec_entries(b, p6, cnt) {
        Some(t) => t,
        None => {
            return None;
        },
    };
    if p7 == b.len() {
        let h = ArchiveHeader {
            extraction_path: ep,
            main_file: mf,
            resources: rs,
            execution_style: es,
            run_as_admin: adm,
            is_compressed: cmp,
        };
        Some(h)
    } else {
        None
    }
}

} // verus!
