//! The content compressor and table assembly: reads the resolved files'
//! bytes (handed in by the caller), synthesizes the shell, applies the
//! compression policy, and emits the immutable asset table.

use vstd::prelude::*;
use vstd::slice::slice_to_vec;
use vstd::string::StrSliceExecFns;
use vstd::string::StringExecFns;

use crate::html;
use crate::media::check_media_mime;
use crate::media::guess_mime;
use crate::media::is_media_mime;
use crate::media::mime_of;
use crate::table::AssetTable;
use crate::table::BundleError;
use crate::table::ViteData;
use crate::table::ViteFileData;

verus! {

/// The gzip stream that flate2's best-level encoder produces for the bytes.
pub uninterp spec fn gzip_of(data: Seq<u8>) -> Seq<u8>;

/// Relies on flate2's write::GzEncoder at Compression::best, writing into an
/// in-memory buffer: such writes cannot fail, and the stream depends on the
/// input bytes alone (flate2 fixes the header's timestamp to zero and its
/// operating-system byte to 255 for reproducible output).
#[verifier::external_body]
pub(crate) fn gzip_compress(data: &Vec<u8>) -> (r: Vec<u8>)
    ensures
        r@ == gzip_of(data@),
{
    let mut enc = flate2::write::GzEncoder::new(Vec::new(), flate2::Compression::best());
    std::io::Write::write_all(&mut enc, data.as_slice()).expect("in-memory write cannot fail");
    enc.finish().expect("in-memory write cannot fail")
}

/// The bytes under an optional content (empty when missing).
pub open spec fn content_bytes(c: Option<Vec<u8>>) -> Seq<u8> {
    match c {
        Option::Some(b) => b@,
        Option::None => Seq::<u8>::empty(),
    }
}

/// The first index at or after `i` whose content is missing, if any.
pub open spec fn first_missing_from(contents: Seq<Option<Vec<u8>>>, i: int) -> Option<int>
    decreases contents.len() - i,
{
    if i < 0 || i >= contents.len() {
        None
    } else if contents[i] is None {
        Some(i)
    } else {
        first_missing_from(contents, i + 1)
    }
}

/// The first index whose content is missing, if any.
pub open spec fn first_missing(contents: Seq<Option<Vec<u8>>>) -> Option<int> {
    first_missing_from(contents, 0)
}

/// The path of record `i` of a table over `files`: the root path first,
/// then each file name behind one leading separator.
pub open spec fn table_path(files: Seq<Seq<char>>, i: int) -> Seq<char> {
    if i == 0 {
        "/"@
    } else {
        "/"@ + files[i - 1]
    }
}

/// All record paths of a table over `files`, in table order.
pub open spec fn table_paths(files: Seq<Seq<char>>) -> Seq<Seq<char>> {
    Seq::new(files.len(), |i: int| table_path(files, i))
}

/// The compression policy: everything but raster images and video is
/// compressed.
pub open spec fn compressed_for(name: Seq<char>) -> bool {
    !is_media_mime(mime_of(name))
}

/// What a successfully built table holds, record by record: the synthesized
/// shell, compressed, at the bare root path; then one record per file (the
/// template last in `files` is replaced by the root record), its path the
/// name behind one separator, its content type derived from the name, and
/// its payload compressed exactly when the type is not an already-compressed
/// medium.
pub open spec fn built_records(
    t: AssetTable,
    files: Seq<Seq<char>>,
    contents: Seq<Seq<u8>>,
    shell: Seq<u8>,
) -> bool {
    &&& t.records.len() == files.len()
    &&& t.records[0].path@ == "/"@
    &&& t.records[0].mime_type@ == "text/html"@
    &&& t.records[0].data.is_compressed()
    &&& t.records[0].data.bytes() == gzip_of(shell)
    &&& forall|i: int|
        1 <= i < t.records.len() ==> {
            &&& (#[trigger] t.records[i]).path@ == "/"@ + files[i - 1]
            &&& t.records[i].mime_type@ == mime_of(files[i - 1])
            &&& t.records[i].data.is_compressed() == compressed_for(files[i - 1])
            &&& t.records[i].data.bytes() == (if compressed_for(files[i - 1]) {
                gzip_of(contents[i - 1])
            } else {
                contents[i - 1]
            })
        }
}

/// Assembles the asset table for the resolved `files`, whose bytes stand in
/// `contents` (one slot per file, in order; a missing slot is a failed
/// read). The last file is the HTML template; the shell synthesized from it
/// serves as the root record in its place. Fails with the read error (naming
/// the first unreadable file), then the marker error, then the duplicate
/// error (naming a repeated path), in that order of precedence, and
/// otherwise returns the table.
pub fn build_table(
    files: &Vec<String>,
    contents: &Vec<Option<Vec<u8>>>,
    entry_file: &String,
    entry_css: &Vec<String>,
) -> (r: Result<AssetTable, BundleError>)
    requires
        files@.len() == contents@.len(),
        files@.len() >= 1,
    ensures
        r matches Err(BundleError::AssetReadError(p)) ==> (first_missing(contents@) matches Some(
            i,
        ) && p@ == files.deep_view()[i]),
        (first_missing(contents@) is Some) <==> (r matches Err(BundleError::AssetReadError(_))),
        first_missing(contents@) is None ==> (r matches Err(BundleError::TemplateMarkerError)
            <==> html::prod_shell(
            content_bytes(contents@[contents@.len() - 1]),
            entry_file@,
            entry_css.deep_view(),
        ) is None),
        (first_missing(contents@) is None && html::prod_shell(
            content_bytes(contents@[contents@.len() - 1]),
            entry_file@,
            entry_css.deep_view(),
        ) is Some) ==> {
            &&& (r is Ok <==> table_paths(files.deep_view()).no_duplicates())
            &&& (r matches Err(BundleError::DuplicateAssetPathError(p)) ==> exists|a: int, b: int|
                0 <= a < b < table_paths(files.deep_view()).len() && table_paths(
                    files.deep_view(),
                )[a] == table_paths(files.deep_view())[b] && p@ == table_paths(
                    files.deep_view(),
                )[a])
        },
        r matches Ok(t) ==> {
            &&& t.wf()
            &&& (html::prod_shell(
                content_bytes(contents@[contents@.len() - 1]),
                entry_file@,
                entry_css.deep_view(),
            ) matches Some(sh) && built_records(
                t,
                files.deep_view(),
                Seq::new(contents@.len(), |i: int| content_bytes(contents@[i])),
                sh,
            ))
        },
        r is Err ==> (r matches Err(BundleError::AssetReadError(_)) || r matches Err(
            BundleError::TemplateMarkerError,
        ) || r matches Err(BundleError::DuplicateAssetPathError(_))),
{
    let n: usize = files.len();
    let ghost fviews = files.deep_view();
    let ghost cbytes = Seq::new(contents@.len(), |i: int| content_bytes(contents@[i]));

    // check that every file's bytes are present
    let mut datas: Vec<&Vec<u8>> = Vec::new();
    let mut i: usize = 0;
    while i < n
        invariant
            n == files@.len(),
            files@.len() == contents@.len(),
            i <= n,
            datas@.len() == i,
            forall|j: int| 0 <= j < i ==> contents@[j] is Some,
            forall|j: int|
                0 <= j < i ==> (#[trigger] datas@[j])@ == content_bytes(contents@[j]),
            first_missing(contents@) == first_missing_from(contents@, i as int),
        decreases n - i,
    {
        match &contents[i] {
            None => {
                proof {
                    assert(first_missing(contents@) == Some(i as int));
                    assert(files.deep_view()[i as int] == files@[i as int]@);
                }
                return Err(BundleError::AssetReadError(files[i].clone()));
            },
            Some(b) => {
                datas.push(b);
            },
        }
        i = i + 1;
    }
    proof {
        assert(first_missing(contents@) is None);
    }

    // synthesize and compress the shell
    let template: &Vec<u8> = datas[n - 1];
    proof {
        assert(template@ == content_bytes(contents@[contents@.len() - 1]));
    }
    let shell = match html::synth_prod_shell(template, entry_file, entry_css) {
        Err(e) => {
            return Err(e);
        },
        Ok(sh) => sh,
    };
    let root_bytes = gzip_compress(&shell);

    // the record paths: the bare root, then one separator before each name
    let mut paths: Vec<String> = Vec::new();
    paths.push(String::from_str("/"));
    let mut i2: usize = 0;
    while i2 < n - 1
        invariant
            n == files@.len() >= 1,
            fviews == files.deep_view(),
            i2 <= n - 1,
            paths@.len() == i2 + 1,
            forall|j: int| 0 <= j <= i2 ==> paths.deep_view()[j] == table_path(fviews, j),
        decreases n - 1 - i2,
    {
        let mut p = String::from_str("/");
        p.append(files[i2].as_str());
        paths.push(p);
        proof {
            assert(paths.deep_view()[i2 + 1] == "/"@ + fviews[i2 as int]);
        }
        i2 = i2 + 1;
    }
    proof {
        assert(paths.deep_view() =~= table_paths(fviews));
    }

    // no path may repeat
    let mut a: usize = 0;
    while a < n
        invariant
            n == files@.len(),
            files@.len() == contents@.len(),
            fviews == files.deep_view(),
            first_missing(contents@) is None,
            html::prod_shell(
                content_bytes(contents@[contents@.len() - 1]),
                entry_file@,
                entry_css.deep_view(),
            ) is Some,
            paths@.len() == n,
            paths.deep_view() == table_paths(fviews),
            a <= n,
            forall|x: int, y: int|
                0 <= x < a && x < y < n ==> paths.deep_view()[x] != paths.deep_view()[y],
        decreases n - a,
    {
        let mut b: usize = a + 1;
        while b < n
            invariant
                n == files@.len(),
                files@.len() == contents@.len(),
                fviews == files.deep_view(),
                first_missing(contents@) is None,
                html::prod_shell(
                    content_bytes(contents@[contents@.len() - 1]),
                    entry_file@,
                    entry_css.deep_view(),
                ) is Some,
                paths@.len() == n,
                paths.deep_view() == table_paths(fviews),
                a < n,
                b <= n,
                a + 1 <= b,
                forall|y: int| a < y < b ==> paths.deep_view()[a as int] != paths.deep_view()[y],
            decreases n - b,
        {
            if paths[a].eq(&paths[b]) {
                proof {
                    assert(paths.deep_view()[a as int] == paths.deep_view()[b as int]);
                    assert(!table_paths(fviews).no_duplicates());
                }
                return Err(BundleError::DuplicateAssetPathError(paths[a].clone()));
            }
            b = b + 1;
        }
        a = a + 1;
    }
    proof {
        assert(table_paths(fviews).no_duplicates());
    }

    // assemble the records: the shell first, then one record per file
    let mut records: Vec<ViteData> = Vec::new();
    let root_mime = String::from_str("text/html");
    let root_path = paths[0].clone();
    let ghost shell_bytes = shell@;
    let ghost root_data = root_bytes@;
    records.push(
        ViteData {
            path: root_path,
            data: ViteFileData::CompressedData(root_bytes),
            mime_type: root_mime,
        },
    );
    proof {
        assert(paths.deep_view()[0] == table_path(fviews, 0));
        assert(records@[0].path@ == "/"@);
        assert(records@[0].mime_type@ == "text/html"@);
        assert(records@[0].data.bytes() == root_data);
        assert(records@[0].data.bytes() == gzip_of(shell_bytes));
    }
    let mut i3: usize = 1;
    while i3 < n
        invariant
            n == files@.len(),
            files@.len() == contents@.len(),
            fviews == files.deep_view(),
            cbytes == Seq::new(contents@.len(), |i: int| content_bytes(contents@[i])),
            paths@.len() == n,
            paths.deep_view() == table_paths(fviews),
            datas@.len() == n,
            forall|j: int| 0 <= j < n ==> (#[trigger] datas@[j])@ == content_bytes(contents@[j]),
            1 <= i3 <= n,
            records@.len() == i3,
            records@[0].path@ == "/"@,
            records@[0].mime_type@ == "text/html"@,
            records@[0].data.is_compressed(),
            records@[0].data.bytes() == gzip_of(shell_bytes),
            forall|j: int|
                1 <= j < i3 ==> {
                    &&& (#[trigger] records@[j]).path@ == table_path(fviews, j)
                    &&& records@[j].mime_type@ == mime_of(fviews[j - 1])
                    &&& records@[j].data.is_compressed() == compressed_for(fviews[j - 1])
                    &&& records@[j].data.bytes() == (if compressed_for(fviews[j - 1]) {
                        gzip_of(cbytes[j - 1])
                    } else {
                        cbytes[j - 1]
                    })
                },
        decreases n - i3,
    {
        let mime = guess_mime(files[i3 - 1].as_str());
        let media = check_media_mime(&mime);
        let data = if media {
            ViteFileData::UncompressedData(slice_to_vec(datas[i3 - 1].as_slice()))
        } else {
            ViteFileData::CompressedData(gzip_compress(datas[i3 - 1]))
        };
        let p = paths[i3].clone();
        proof {
            assert(p@ == table_paths(fviews)[i3 as int]);
            assert(fviews[i3 - 1] == files@[i3 - 1]@);
        }
        records.push(ViteData { path: p, data, mime_type: mime });
        i3 = i3 + 1;
    }
    let t = AssetTable { records };
    proof {
        assert(t.records.len() == fviews.len());
        assert forall|x: int, y: int| 0 <= x < y < t.records.len() implies t.records[x].path@
            != t.records[y].path@ by {
            assert(t.records[x].path@ == table_paths(fviews)[x]);
            assert(t.records[y].path@ == table_paths(fviews)[y]);
        }
        assert(t.wf());
        assert(built_records(t, fviews, cbytes, shell_bytes));
    }
    Ok(t)
}

} // verus!
