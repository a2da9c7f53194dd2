//! The extractor: locate the trailer at the end of a file image, recover
//! the archive data, decode the header, decompress the payload if flagged,
//! and slice it into the resources by their declared sizes, in order, with
//! a running offset. The ordered-offset walk is the only integrity check:
//! there is no per-file checksum.

use vstd::prelude::*;
use vstd::slice::{slice_subrange, slice_to_vec};

use crate::codec::{header_from_bytes, spec_decode_header};
use crate::footer::{parse_footer, spec_parse_footer};
use crate::gzip::{gunzip_of, gzip_decompress};
use crate::header::{ArchiveHeader, ArchiveHeaderView, ResourceEntryView};

verus! {

/// Why extraction failed; every case is a form of corrupt archive.
#[derive(Clone, Copy, Debug, PartialEq, Eq)]
pub enum CorruptArchive {
    /// The file is shorter than a trailer, or the marker does not match:
    /// no archive is appended, or it is of another format.
    BadFooter,
    /// The declared lengths do not fit inside the actual file.
    BadLengths,
    /// The header bytes are not a canonical header encoding.
    BadHeader,
    /// The payload is flagged compressed but is not a readable gzip stream.
    BadPayload,
    /// An entry's slice runs past the end of the payload.
    SliceOverrun,
}

/// What a successful extraction yields: the header, and one byte string
/// per resource entry, in entry order.
pub struct ExtractionView {
    pub header: ArchiveHeaderView,
    pub contents: Seq<Seq<u8>>,
}

/// Slice the payload by the declared sizes, in order, from `off`; `None`
/// as soon as a slice would run past the payload's end.
pub open spec fn spec_slices(rs: Seq<ResourceEntryView>, payload: Seq<u8>, off: int) -> Option<
    Seq<Seq<u8>>,
>
    decreases rs.len(),
{
    if rs.len() == 0 {
        Some(Seq::empty())
    } else if 0 <= off && off + rs[0].size <= payload.len() {
        match spec_slices(rs.drop_first(), payload, off + rs[0].size) {
            None => None,
            Some(rest) => Some(seq![payload.subrange(off, off + rs[0].size)] + rest),
        }
    } else {
        None
    }
}

/// The whole extraction pipeline on a file image, each failure named.
pub open spec fn spec_extract(f: Seq<u8>) -> Result<ExtractionView, CorruptArchive> {
    match spec_parse_footer(f) {
        None => Err(CorruptArchive::BadFooter),
        Some((hl, al)) => if !(hl <= al && al + 24 <= f.len()) {
            Err(CorruptArchive::BadLengths)
        } else {
            let archive = f.subrange(f.len() - 24 - al, f.len() - 24);
            let hb = archive.subrange(0, hl as int);
            let stored = archive.subrange(hl as int, al as int);
            match spec_decode_header(hb) {
                None => Err(CorruptArchive::BadHeader),
                Some(h) => {
                    let payload = if h.is_compressed {
                        gunzip_of(stored)
                    } else {
                        Some(stored)
                    };
                    match payload {
                        None => Err(CorruptArchive::BadPayload),
                        Some(p) => match spec_slices(h.resources, p, 0) {
                            None => Err(CorruptArchive::SliceOverrun),
                            Some(cs) => Ok(ExtractionView { header: h, contents: cs }),
                        },
                    }
                },
            }
        },
    }
}

/// What extraction materializes: the decoded header and each resource's
/// exact bytes, in entry order.
#[derive(Debug)]
pub struct Extraction {
    pub header: ArchiveHeader,
    pub contents: Vec<Vec<u8>>,
}

/// The models of a sequence of byte vectors.
pub open spec fn vecs_view(vs: Seq<Vec<u8>>) -> Seq<Seq<u8>> {
    vs.map_values(|v: Vec<u8>| v@)
}

impl View for Extraction {
    type V = ExtractionView;

    open spec fn view(&self) -> ExtractionView {
        ExtractionView { header: self.header@, contents: vecs_view(self.contents@) }
    }
}

/// Extract from a whole file image: exactly the spec pipeline, stage by
/// stage, with each failure reported as the stage that found it.
#[verifier::loop_isolation(false)]
pub fn extract(file: &[u8]) -> (r: Result<Extraction, CorruptArchive>)
    ensures
        match r {
            Ok(ex) => spec_extract(file@) == Ok::<ExtractionView, CorruptArchive>(ex@),
            Err(e) => spec_extract(file@) == Err::<ExtractionView, CorruptArchive>(e),
        },
{
    let n = file.len();
    let (hl, al) = match parse_footer(file) {
        Some(t) => t,
        None => {
            return Err(CorruptArchive::BadFooter);
        },
    };
    if !(hl <= al && (al as u64) + 24 <= n as u64) {
        return Err(CorruptArchive::BadLengths);
    }
    let a_start = n - 24 - al as usize;
    let archive = slice_subrange(file, a_start, n - 24);
    let hb = slice_subrange(archive, 0, hl as usize);
    let stored = slice_subrange(archive, hl as usize, al as usize);
    let header = match header_from_bytes(hb) {
        Some(h) => h,
        None => {
            return Err(CorruptArchive::BadHeader);
        },
    };
    let payload: Vec<u8> = if header.is_compressed {
        match gzip_decompress(stored) {
            Some(v) => v,
            None => {
                return Err(CorruptArchive::BadPayload);
            },
        }
    } else {
        slice_to_vec(stored)
    };
    let m = header.resources.len();
    let mut contents: Vec<Vec<u8>> = Vec::new();
    let mut off: usize = 0;
    let mut k: usize = 0;
    proof {
        assert(header@.resources.skip(0) =~= header@.resources);
        assert(vecs_view(contents@) =~= Seq::<Seq<u8>>::empty());
        match spec_slices(header@.resources, payload@, 0) {
            Some(rest) => {
                assert(vecs_view(contents@) + rest =~= rest);
            },
            None => {},
        }
    }
    while k < m
        invariant
            0 <= k <= m,
            m == header.resources@.len(),
            off <= payload@.len(),
            match spec_slices(header@.resources.skip(k as int), payload@, off as int) {
                None => spec_slices(header@.resources, payload@, 0) is None,
                Some(rest) => spec_slices(header@.resources, payload@, 0) == Some(
                    vecs_view(contents@) + rest,
                ),
            },
        decreases m - k,
    {
        let ghost rs_k = header@.resources.skip(k as int);
        proof {
            assert(rs_k.len() > 0);
            assert(rs_k[0] == header@.resources[k as int]);
            assert(rs_k.drop_first() =~= header@.resources.skip(k as int + 1));
        }
        let sz = header.resources[k].size as usize;
        if payload.len() - off < sz {
            proof {
                assert(spec_slices(rs_k, payload@, off as int) is None);
            }
            return Err(CorruptArchive::SliceOverrun);
        }
        let piece = slice_to_vec(slice_subrange(payload.as_slice(), off, off + sz));
        let ghost old_contents = contents@;
        contents.push(piece);
        proof {
            let pv = payload@.subrange(off as int, off as int + sz);
            assert(vecs_view(contents@) =~= vecs_view(old_contents).push(pv));
            match spec_slices(header@.resources.skip(k as int + 1), payload@, off as int + sz) {
                None => {
                    assert(spec_slices(rs_k, payload@, off as int) is None);
                },
                Some(rest2) => {
                    assert(spec_slices(rs_k, payload@, off as int) == Some(seq![pv] + rest2));
                    assert(vecs_view(old_contents) + (seq![pv] + rest2) =~= vecs_view(contents@)
                        + rest2);
                },
            }
        }
        off = off + sz;
        k = k + 1;
    }
    proof {
        assert(header@.resources.skip(m as int) =~= Seq::<ResourceEntryView>::empty());
        assert(spec_slices(Seq::<ResourceEntryView>::empty(), payload@, off as int) == Some(
            Seq::<Seq<u8>>::empty(),
        ));
        assert(vecs_view(contents@) + Seq::<Seq<u8>>::empty() =~= vecs_view(contents@));
    }
    Ok(Extraction { header, contents })
}

} // verus!
