//! The bundle artifact: asset records keyed by HTTP-style path, and the
//! errors the bundling pipeline can stop with.

use vstd::prelude::*;

verus! {

/// The payload of one bundled asset: either the output of the gzip
/// transform, or the file's bytes exactly as they were read.
#[derive(Debug, Clone)]
pub enum ViteFileData {
    CompressedData(Vec<u8>),
    UncompressedData(Vec<u8>),
}

impl ViteFileData {
    /// The stored bytes, whichever way they are stored.
    pub open spec fn bytes(self) -> Seq<u8> {
        match self {
            ViteFileData::CompressedData(b) => b@,
            ViteFileData::UncompressedData(b) => b@,
        }
    }

    /// Whether the gzip transform was applied to the stored bytes.
    pub open spec fn is_compressed(self) -> bool {
        self is CompressedData
    }
}

/// One servable asset: an absolute HTTP-style path, its payload, and the
/// content type derived from its file name.
#[derive(Debug, Clone)]
pub struct ViteData {
    pub path: String,
    pub data: ViteFileData,
    pub mime_type: String,
}

/// The immutable output of the bundling pipeline: the HTML shell at the bare
/// root path first, then one record per resolved file, all paths distinct.
pub struct AssetTable {
    pub records: Vec<ViteData>,
}

impl AssetTable {
    /// The record paths, in table order.
    pub open spec fn paths(self) -> Seq<Seq<char>> {
        self.records@.map_values(|r: ViteData| r.path@)
    }

    /// Well-formedness: the root record comes first and no path repeats.
    pub open spec fn wf(self) -> bool {
        &&& self.records.len() >= 1
        &&& self.records[0].path@ == "/"@
        &&& forall|i: int, j: int|
            0 <= i < j < self.records.len() ==> self.records[i].path@ != self.records[j].path@
    }
}

/// Why the bundling pipeline stopped; every variant is fatal to the build.
#[derive(Debug)]
pub enum BundleError {
    /// The manifest text is not valid JSON or does not have the expected shape.
    ManifestParseError,
    /// The requested entry module is absent or not marked as an entry.
    UnresolvedEntryError(String),
    /// An imported module key is not present in the manifest.
    DanglingImportError(String),
    /// A resolved file's bytes could not be read from the build output.
    AssetReadError(String),
    /// The HTML template lacks a required injection marker.
    TemplateMarkerError,
    /// Two records would share one path.
    DuplicateAssetPathError(String),
}

} // verus!
