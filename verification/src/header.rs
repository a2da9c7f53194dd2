//! The typed metadata describing an archive's contents and launch intent.

use vstd::prelude::*;
use vstd::utf8::encode_utf8;

verus! {

/// One packaged file: its name (used as the relative output path component)
/// and the exact byte count of its contiguous slice within the decompressed
/// payload.
#[derive(Debug)]
pub struct ResourceEntry {
    pub filename: String,
    pub size: u32,
}

/// The mathematical model of a `ResourceEntry`.
pub struct ResourceEntryView {
    pub filename: Seq<char>,
    pub size: u32,
}

impl View for ResourceEntry {
    type V = ResourceEntryView;

    open spec fn view(&self) -> ResourceEntryView {
        ResourceEntryView { filename: self.filename@, size: self.size }
    }
}

/// The archive header: where to extract, what to launch and how, the ordered
/// resource directory, and whether the payload is stored compressed.
#[derive(Debug)]
pub struct ArchiveHeader {
    pub extraction_path: String,
    pub main_file: String,
    pub resources: Vec<ResourceEntry>,
    pub execution_style: String,
    pub run_as_admin: bool,
    pub is_compressed: bool,
}

/// The mathematical model of an `ArchiveHeader`.
pub struct ArchiveHeaderView {
    pub extraction_path: Seq<char>,
    pub main_file: Seq<char>,
    pub resources: Seq<ResourceEntryView>,
    pub execution_style: Seq<char>,
    pub run_as_admin: bool,
    pub is_compressed: bool,
}

/// The models of a sequence of resource entries, in order.
pub open spec fn entries_view(rs: Seq<ResourceEntry>) -> Seq<ResourceEntryView> {
    rs.map_values(|e: ResourceEntry| e@)
}

impl View for ArchiveHeader {
    type V = ArchiveHeaderView;

    open spec fn view(&self) -> ArchiveHeaderView {
        ArchiveHeaderView {
            extraction_path: self.extraction_path@,
            main_file: self.main_file@,
            resources: entries_view(self.resources@),
            execution_style: self.execution_style@,
            run_as_admin: self.run_as_admin,
            is_compressed: self.is_compressed,
        }
    }
}

/// Whether some entry carries exactly this filename.
pub open spec fn has_filename(rs: Seq<ResourceEntryView>, name: Seq<char>) -> bool {
    exists|i: int| 0 <= i < rs.len() && rs[i].filename == name
}

/// The string's UTF-8 encoding is short enough for a 32-bit length prefix.
pub open spec fn str_encodable(s: Seq<char>) -> bool {
    encode_utf8(s).len() <= u32::MAX
}

/// A header that the canonical encoding can represent: every string fits a
/// 32-bit length prefix and the entry count fits 32 bits.
pub open spec fn header_wf(h: ArchiveHeaderView) -> bool {
    &&& str_encodable(h.extraction_path)
    &&& str_encodable(h.main_file)
    &&& str_encodable(h.execution_style)
    &&& h.resources.len() <= u32::MAX
    &&& forall|i: int|
        0 <= i < h.resources.len() ==> str_encodable(#[trigger] h.resources[i].filename)
}

/// The total declared size of the entries: what the decompressed payload's
/// length must be.
pub open spec fn sum_sizes(rs: Seq<ResourceEntryView>) -> int
    decreases rs.len(),
{
    if rs.len() == 0 {
        0
    } else {
        rs[0].size + sum_sizes(rs.drop_first())
    }
}

} // verus!
