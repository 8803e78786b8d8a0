//! The bundle's guarantees, stated once over the table predicate so that a
//! reader finds them in one place.

use vstd::prelude::*;

use crate::bundle::built_records;
use crate::bundle::compressed_for;
use crate::bundle::gzip_of;
use crate::bundle::table_paths;
use crate::media::is_media_mime;
use crate::media::mime_of;
use crate::table::AssetTable;

verus! {

/// The root record's path is always the bare root path, whatever the
/// on-disk template file was called.
pub proof fn law_root_path(
    t: AssetTable,
    files: Seq<Seq<char>>,
    contents: Seq<Seq<u8>>,
    shell: Seq<u8>,
)
    requires
        built_records(t, files, contents, shell),
    ensures
        t.records[0].path@ == "/"@,
{
}

/// The compression policy: a record for a raster-image or video content
/// type is stored uncompressed, every other record is stored compressed,
/// and the shell record is always compressed.
pub proof fn law_compression_policy(
    t: AssetTable,
    files: Seq<Seq<char>>,
    contents: Seq<Seq<u8>>,
    shell: Seq<u8>,
    i: int,
)
    requires
        built_records(t, files, contents, shell),
        1 <= i < t.records.len(),
    ensures
        t.records[i].data.is_compressed() <==> !is_media_mime(mime_of(files[i - 1])),
        t.records[0].data.is_compressed(),
{
}

/// The round trip behind serving compressed bytes as they stand: a
/// compressed record holds exactly the gzip transform of the file's
/// original bytes, so undoing the transform restores the original.
pub proof fn law_compressed_round_trip(
    t: AssetTable,
    files: Seq<Seq<char>>,
    contents: Seq<Seq<u8>>,
    shell: Seq<u8>,
    i: int,
)
    requires
        built_records(t, files, contents, shell),
        1 <= i < t.records.len(),
        compressed_for(files[i - 1]),
    ensures
        t.records[i].data.is_compressed(),
        t.records[i].data.bytes() == gzip_of(contents[i - 1]),
{
}

/// Reproducible builds: two tables built over the same file names, file
/// bytes and shell agree record by record — in order, path, content type,
/// compression flag and payload. Together with the resolver's contract
/// (its output equals `resolved_file_list`, a function of the manifest and
/// entry alone) and the parser's (its output is exactly what the document
/// decodes to), the whole pipeline is a function of the input bytes.
pub proof fn law_reproducible_table(
    t1: AssetTable,
    t2: AssetTable,
    files: Seq<Seq<char>>,
    contents: Seq<Seq<u8>>,
    shell: Seq<u8>,
)
    requires
        built_records(t1, files, contents, shell),
        built_records(t2, files, contents, shell),
    ensures
        t1.records.len() == t2.records.len(),
        forall|i: int|
            0 <= i < t1.records.len() ==> {
                &&& (#[trigger] t1.records[i]).path@ == t2.records[i].path@
                &&& t1.records[i].mime_type@ == t2.records[i].mime_type@
                &&& t1.records[i].data.is_compressed() == t2.records[i].data.is_compressed()
                &&& t1.records[i].data.bytes() == t2.records[i].data.bytes()
            },
{
    assert forall|i: int| 0 <= i < t1.records.len() implies {
        &&& (#[trigger] t1.records[i]).path@ == t2.records[i].path@
        &&& t1.records[i].mime_type@ == t2.records[i].mime_type@
        &&& t1.records[i].data.is_compressed() == t2.records[i].data.is_compressed()
        &&& t1.records[i].data.bytes() == t2.records[i].data.bytes()
    } by {
        if i >= 1 {
            assert(t1.records[i].path@ == "/"@ + files[i - 1]);
            assert(t2.records[i].path@ == "/"@ + files[i - 1]);
        }
    }
}

/// A path outside the table's path set matches no record, so a production
/// request for it is a miss.
pub proof fn law_prod_miss(
    t: AssetTable,
    files: Seq<Seq<char>>,
    contents: Seq<Seq<u8>>,
    shell: Seq<u8>,
    p: Seq<char>,
)
    requires
        built_records(t, files, contents, shell),
        !table_paths(files).contains(p),
    ensures
        forall|i: int| 0 <= i < t.records.len() ==> t.records[i].path@ != p,
{
    assert forall|i: int| 0 <= i < t.records.len() implies t.records[i].path@ != p by {
        assert(table_paths(files)[i] == t.records[i].path@);
        if t.records[i].path@ == p {
            assert(table_paths(files).contains(p));
        }
    }
}

} // verus!
