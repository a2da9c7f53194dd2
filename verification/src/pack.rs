//! The packer: validate a build request, serialize the header, concatenate
//! the resource bytes in order, optionally compress the whole payload as a
//! single stream, emit the trailer, and append everything to the stub
//! binary. All validation and assembly happen in memory before any byte is
//! handed back, so a failure never yields a partial output.

use vstd::prelude::*;

use crate::codec::{header_to_bytes, spec_encode_header};
use crate::footer::{footer_bytes, spec_footer};
use crate::gzip::{gunzip_of, gzip_compress, gzip_of};
use crate::header::{
    entries_view, has_filename, header_wf, sum_sizes, ArchiveHeader, ArchiveHeaderView,
    ResourceEntry, ResourceEntryView,
};
use crate::strutil::str_eq;

verus! {

/// One resource handed to the packer: its name and its full content.
pub struct ResourceInput {
    pub filename: String,
    pub data: Vec<u8>,
}

/// The mathematical model of a `ResourceInput`.
pub struct ResourceInputView {
    pub filename: Seq<char>,
    pub data: Seq<u8>,
}

impl View for ResourceInput {
    type V = ResourceInputView;

    open spec fn view(&self) -> ResourceInputView {
        ResourceInputView { filename: self.filename@, data: self.data@ }
    }
}

/// The immutable build request the packer consumes once.
pub struct BuildRequest {
    pub resources: Vec<ResourceInput>,
    pub main_file: String,
    pub extraction_path: String,
    pub execution_style: String,
    pub run_as_admin: bool,
    pub compress: bool,
    pub stub_bytes: Vec<u8>,
}

/// The mathematical model of a `BuildRequest`.
pub struct BuildRequestView {
    pub resources: Seq<ResourceInputView>,
    pub main_file: Seq<char>,
    pub extraction_path: Seq<char>,
    pub execution_style: Seq<char>,
    pub run_as_admin: bool,
    pub compress: bool,
    pub stub_bytes: Seq<u8>,
}

/// The models of a sequence of resource inputs, in order.
pub open spec fn inputs_view(rs: Seq<ResourceInput>) -> Seq<ResourceInputView> {
    rs.map_values(|r: ResourceInput| r@)
}

impl View for BuildRequest {
    type V = BuildRequestView;

    open spec fn view(&self) -> BuildRequestView {
        BuildRequestView {
            resources: inputs_view(self.resources@),
            main_file: self.main_file@,
            extraction_path: self.extraction_path@,
            execution_style: self.execution_style@,
            run_as_admin: self.run_as_admin,
            compress: self.compress,
            stub_bytes: self.stub_bytes@,
        }
    }
}

/// The entry directory a request builds: each resource's name with its
/// exact byte count, in list order.
pub open spec fn spec_request_entries(rs: Seq<ResourceInputView>) -> Seq<ResourceEntryView> {
    rs.map_values(
        |r: ResourceInputView| ResourceEntryView { filename: r.filename, size: r.data.len() as u32 },
    )
}

/// The header a request builds.
pub open spec fn spec_request_header(rq: BuildRequestView) -> ArchiveHeaderView {
    ArchiveHeaderView {
        extraction_path: rq.extraction_path,
        main_file: rq.main_file,
        resources: spec_request_entries(rq.resources),
        execution_style: rq.execution_style,
        run_as_admin: rq.run_as_admin,
        is_compressed: rq.compress,
    }
}

/// The raw payload: all resource bytes concatenated in order, with no
/// padding or gaps.
pub open spec fn spec_concat(rs: Seq<ResourceInputView>) -> Seq<u8>
    decreases rs.len(),
{
    if rs.len() == 0 {
        Seq::empty()
    } else {
        rs[0].data + spec_concat(rs.drop_first())
    }
}

/// Validity of a request: the main file names at least one resource.
pub open spec fn spec_main_found(rq: BuildRequestView) -> bool {
    has_filename(spec_request_entries(rq.resources), rq.main_file)
}

/// Machine limits the format imposes: every resource size, and the header
/// encoding's length, must fit the 32-bit fields.
pub open spec fn spec_sizes_fit(rq: BuildRequestView) -> bool {
    &&& forall|i: int|
        0 <= i < rq.resources.len() ==> #[trigger] rq.resources[i].data.len() <= u32::MAX
    &&& header_wf(spec_request_header(rq))
    &&& spec_encode_header(spec_request_header(rq)).len() <= u32::MAX
}

/// For an uncompressed request, the whole archive data must fit the 32-bit
/// length field as well.
pub open spec fn spec_raw_fits(rq: BuildRequestView) -> bool {
    &&& spec_sizes_fit(rq)
    &&& spec_encode_header(spec_request_header(rq)).len() + spec_concat(rq.resources).len()
        <= u32::MAX
}

/// The stored payload stands for the raw payload: compressed, it is a gzip
/// stream decoding to it; uncompressed, it is the raw payload itself.
pub open spec fn spec_stored_ok(rq: BuildRequestView, stored: Seq<u8>) -> bool {
    if rq.compress {
        gunzip_of(stored) == Some(spec_concat(rq.resources))
    } else {
        stored == spec_concat(rq.resources)
    }
}

/// The exact output bytes for a given stored payload:
/// `stub ++ header ++ payload ++ footer`.
pub open spec fn spec_packed_layout(rq: BuildRequestView, stored: Seq<u8>) -> Seq<u8> {
    let hb = spec_encode_header(spec_request_header(rq));
    rq.stub_bytes + hb + stored + spec_footer(
        hb.len() as u32,
        (hb.len() + stored.len()) as u32,
    )
}

/// A successful output: for some stored payload standing for the raw one,
/// the file has exactly the packed layout.
pub open spec fn spec_pack_ok(rq: BuildRequestView, out: Seq<u8>) -> bool {
    exists|stored: Seq<u8>|
        {
            &&& #[trigger] spec_stored_ok(rq, stored)
            &&& spec_encode_header(spec_request_header(rq)).len() + stored.len() <= u32::MAX
            &&& out == spec_packed_layout(rq, stored)
        }
}

/// Why packing failed. Read and write failures live with the caller doing
/// the I/O; the packer itself fails only on its inputs.
#[derive(Clone, Copy, Debug, PartialEq, Eq)]
pub enum PackError {
    /// The main file names no resource: validation fails before assembly.
    MainFileMissing,
    /// A length does not fit the format's 32-bit fields.
    TooLarge,
}

/// Whether the result is this exact error.
pub open spec fn spec_is_err(r: Result<Vec<u8>, PackError>, e: PackError) -> bool {
    match r {
        Ok(_) => false,
        Err(x) => x == e,
    }
}

/// Appending one resource extends the raw payload by that resource's bytes.
pub proof fn lemma_concat_push(rs: Seq<ResourceInputView>, x: ResourceInputView)
    ensures
        spec_concat(rs.push(x)) == spec_concat(rs) + x.data,
    decreases rs.len(),
{
    if rs.len() == 0 {
        assert(rs.push(x)[0] == x);
        assert(rs.push(x).drop_first() =~= Seq::<ResourceInputView>::empty());
        assert(spec_concat(Seq::<ResourceInputView>::empty()) =~= Seq::<u8>::empty());
        assert(spec_concat(rs.push(x)) =~= x.data + Seq::<u8>::empty());
        assert(spec_concat(rs) =~= Seq::<u8>::empty());
        assert(spec_concat(rs.push(x)) =~= spec_concat(rs) + x.data);
    } else {
        assert(rs.push(x).drop_first() =~= rs.drop_first().push(x));
        lemma_concat_push(rs.drop_first(), x);
        assert(rs.push(x)[0] == rs[0]);
        assert(spec_concat(rs.push(x)) =~= rs[0].data + spec_concat(rs.drop_first().push(x)));
        assert(spec_concat(rs) =~= rs[0].data + spec_concat(rs.drop_first()));
        assert(rs[0].data + (spec_concat(rs.drop_first()) + x.data) =~= (rs[0].data + spec_concat(
            rs.drop_first(),
        )) + x.data);
    }
}

/// Size invariant: the declared sizes of a request's entries sum to exactly
/// the raw payload's length.
pub proof fn lemma_sum_sizes_eq_concat_len(rs: Seq<ResourceInputView>)
    requires
        forall|i: int| 0 <= i < rs.len() ==> #[trigger] rs[i].data.len() <= u32::MAX,
    ensures
        sum_sizes(spec_request_entries(rs)) == spec_concat(rs).len(),
    decreases rs.len(),
{
    if rs.len() == 0 {
    } else {
        assert(spec_request_entries(rs).drop_first() =~= spec_request_entries(rs.drop_first()));
        assert(forall|i: int|
            0 <= i < rs.drop_first().len() ==> #[trigger] rs.drop_first()[i].data.len()
                <= u32::MAX) by {
            assert(forall|i: int|
                0 <= i < rs.drop_first().len() ==> rs.drop_first()[i] == rs[i + 1]);
        }
        lemma_sum_sizes_eq_concat_len(rs.drop_first());
        assert(spec_request_entries(rs)[0].size == rs[0].data.len() as u32);
        assert(rs[0].data.len() <= u32::MAX);
    }
}

/// Pack the request into the output file's bytes.
///
/// Fails with `MainFileMissing` exactly when validation fails, before any
/// assembly; with `TooLarge` only when a length overflows the format's
/// 32-bit fields. On success the output is exactly
/// `stub ++ header ++ payload ++ footer`, with the payload stored raw or
/// as the gzip encoder's stream of it; either way, success is owed
/// whenever the request is valid and the stored lengths fit.
#[verifier::loop_isolation(false)]
pub fn pack(rq: &BuildRequest) -> (r: Result<Vec<u8>, PackError>)
    ensures
        spec_is_err(r, PackError::MainFileMissing) <==> !spec_main_found(rq@),
        match r {
            Ok(out) => spec_main_found(rq@) && spec_sizes_fit(rq@) && spec_pack_ok(rq@, out@),
            Err(e) => e == PackError::MainFileMissing || e == PackError::TooLarge,
        },
        !rq.compress ==> ((r is Ok) <==> (spec_main_found(rq@) && spec_raw_fits(rq@))),
        !rq.compress ==> (match r {
            Ok(out) => out@ == spec_packed_layout(rq@, spec_concat(rq@.resources)),
            Err(_) => true,
        }),
        rq.compress ==> ((r is Ok) <==> (spec_main_found(rq@) && spec_sizes_fit(rq@)
            && spec_encode_header(spec_request_header(rq@)).len() + gzip_of(
            spec_concat(rq@.resources),
        ).len() <= u32::MAX)),
        rq.compress ==> (match r {
            Ok(out) => out@ == spec_packed_layout(rq@, gzip_of(spec_concat(rq@.resources))),
            Err(_) => true,
        }),
{
    let n = rq.resources.len();
    let mut found = false;
    let mut i: usize = 0;
    while i < n
        invariant
            0 <= i <= n,
            found == exists|j: int|
                0 <= j < i && #[trigger] rq@.resources[j].filename == rq@.main_file,
        decreases n - i,
    {
        if str_eq(rq.resources[i].filename.as_str(), rq.main_file.as_str()) {
            found = true;
            proof {
                assert(rq@.resources[i as int].filename == rq@.main_file);
            }
        }
        i += 1;
    }
    proof {
        assert(found == spec_main_found(rq@)) by {
            if found {
                let j = choose|j: int|
                    0 <= j < n && #[trigger] rq@.resources[j].filename == rq@.main_file;
                assert(spec_request_entries(rq@.resources)[j].filename == rq@.main_file);
            }
            if spec_main_found(rq@) {
                let j = choose|j: int|
                    0 <= j < rq@.resources.len() && #[trigger] spec_request_entries(
                        rq@.resources,
                    )[j].filename == rq@.main_file;
                assert(rq@.resources[j].filename == rq@.main_file);
            }
        }
    }
    if !found {
        return Err(PackError::MainFileMissing);
    }
    let mut entries: Vec<ResourceEntry> = Vec::new();
    let mut payload: Vec<u8> = Vec::new();
    let mut i: usize = 0;
    while i < n
        invariant
            0 <= i <= n,
            forall|j: int| 0 <= j < i ==> #[trigger] rq@.resources[j].data.len() <= u32::MAX,
            entries_view(entries@) == spec_request_entries(rq@.resources.take(i as int)),
            payload@ == spec_concat(rq@.resources.take(i as int)),
        decreases n - i,
    {
        let d_len = rq.resources[i].data.len();
        proof {
            assert(rq@.resources[i as int] == rq.resources@[i as int]@);
        }
        if d_len as u64 > u32::MAX as u64 {
            proof {
                assert(rq@.resources[i as int].data.len() > u32::MAX);
                assert(!spec_sizes_fit(rq@));
            }
            return Err(PackError::TooLarge);
        }
        let name = rq.resources[i].filename.as_str().to_owned();
        let ghost old_entries = entries@;
        entries.push(ResourceEntry { filename: name, size: d_len as u32 });
        payload.extend_from_slice(rq.resources[i].data.as_slice());
        proof {
            let rs = rq@.resources;
            let iv = i as int;
            let ev = ResourceEntryView { filename: rs[iv].filename, size: rs[iv].data.len() as u32 };
            assert(rs.take(iv + 1) =~= rs.take(iv).push(rs[iv]));
            lemma_concat_push(rs.take(iv), rs[iv]);
            assert(payload@ =~= spec_concat(rs.take(iv + 1)));
            assert(entries_view(entries@) =~= entries_view(old_entries).push(ev));
            assert(spec_request_entries(rs.take(iv).push(rs[iv])) =~= spec_request_entries(
                rs.take(iv),
            ).push(ev));
            assert(entries_view(entries@) =~= spec_request_entries(rs.take(iv + 1)));
        }
        i += 1;
    }
    proof {
        assert(rq@.resources.take(n as int) =~= rq@.resources);
    }
    let header = ArchiveHeader {
        extraction_path: rq.extraction_path.as_str().to_owned(),
        main_file: rq.main_file.as_str().to_owned(),
        resources: entries,
        execution_style: rq.execution_style.as_str().to_owned(),
        run_as_admin: rq.run_as_admin,
        is_compressed: rq.compress,
    };
    proof {
        assert(header@ == spec_request_header(rq@));
    }
    let hb = match header_to_bytes(&header) {
        Some(v) => v,
        None => {
            return Err(PackError::TooLarge);
        },
    };
    if hb.len() as u64 > u32::MAX as u64 {
        return Err(PackError::TooLarge);
    }
    let hl = hb.len() as u32;
    let stored: Vec<u8> = if rq.compress {
        gzip_compress(payload.as_slice())
    } else {
        payload
    };
    if stored.len() as u64 > u32::MAX as u64 - hl as u64 {
        return Err(PackError::TooLarge);
    }
    let al = hl + stored.len() as u32;
    let mut out: Vec<u8> = Vec::new();
    out.extend_from_slice(rq.stub_bytes.as_slice());
    out.extend_from_slice(hb.as_slice());
    out.extend_from_slice(stored.as_slice());
    let mut ft = footer_bytes(hl, al);
    out.append(&mut ft);
    proof {
        assert(out@ =~= spec_packed_layout(rq@, stored@));
        assert(spec_stored_ok(rq@, stored@));
        assert(spec_pack_ok(rq@, out@));
    }
    Ok(out)
}

} // verus!
