//! A self-extracting resource archive: a container appended to a bootstrap
//! executable, discovered in O(1) through a fixed 24-byte trailer.
//!
//! The packer validates a build request, serializes the header to a
//! canonical binary encoding, concatenates the resource bytes, optionally
//! compresses the whole payload as one gzip stream, and appends
//! `header ++ payload ++ footer` to the stub. The extractor reads the
//! trailer from the end of a file image, recovers header and payload, and
//! slices the payload back into the resources. The launcher decisions —
//! visibility mapping, elevation gating, script dispatch — are pure
//! functions over the header; the caller performs the OS calls they ask
//! for.

pub mod codec;
pub mod extract;
pub mod footer;
pub mod gzip;
pub mod header;
pub mod launch;
pub mod laws;
pub mod pack;
pub mod strutil;
