//! The runtime router: answering a request path from the asset table in
//! production, and mapping a development proxy's outcome to a response.

use vstd::prelude::*;
use vstd::slice::slice_to_vec;
use vstd::string::StrSliceExecFns;
use vstd::string::StringExecFns;
use vstd::string::StringSliceAdditionalSpecFns;
use vstd::utf8::encode_utf8;

use crate::table::AssetTable;
use crate::table::ViteData;
use crate::table::ViteFileData;

verus! {

/// One HTTP-style answer: a status, the content-type header value, whether
/// a gzip content-encoding header is set, and the body bytes.
pub struct HttpResponse {
    pub status: u16,
    pub content_type: String,
    pub gzip_encoded: bool,
    pub body: Vec<u8>,
}

/// What a development proxy call came back with: the upstream body on
/// success, the upstream's own failure status, or a transport-level failure
/// (connection refused, timeout).
pub enum ProxyOutcome {
    UpstreamBody(String),
    UpstreamFailure(u16),
    TransportFailure,
}

/// The fixed status that a transport-level proxy failure maps to.
pub open spec fn bad_gateway() -> u16 {
    502
}

/// The index of the record whose path equals the request path, if any.
pub fn find_record(table: &AssetTable, path: &String) -> (r: Option<usize>)
    ensures
        r matches Some(i) ==> i < table.records.len() && table.records[i as int].path@ == path@,
        r is None <==> (forall|i: int|
            0 <= i < table.records.len() ==> table.records[i].path@ != path@),
{
    let mut i: usize = 0;
    while i < table.records.len()
        invariant
            i <= table.records.len(),
            forall|j: int| 0 <= j < i ==> table.records[j].path@ != path@,
        decreases table.records.len() - i,
    {
        if table.records[i].path.eq(path) {
            return Some(i);
        }
        i = i + 1;
    }
    None
}

fn copy_bytes(data: &ViteFileData) -> (r: Vec<u8>)
    ensures
        r@ == data.bytes(),
{
    match data {
        ViteFileData::CompressedData(d) => slice_to_vec(d.as_slice()),
        ViteFileData::UncompressedData(d) => slice_to_vec(d.as_slice()),
    }
}

/// Production mode: an exact-path lookup against the table. A hit is a 200
/// with the stored bytes served as they stand, the stored content type, and
/// the gzip content-encoding exactly when the record was compressed; a miss
/// is no response at all.
pub fn respond_prod(table: &AssetTable, path: &String) -> (r: Option<HttpResponse>)
    ensures
        r is None <==> (forall|i: int|
            0 <= i < table.records.len() ==> table.records[i].path@ != path@),
        r matches Some(resp) ==> exists|i: int|
            0 <= i < table.records.len() && (#[trigger] table.records[i]).path@ == path@
                && resp.status == 200 && resp.content_type@ == table.records[i].mime_type@
                && resp.gzip_encoded == table.records[i].data.is_compressed() && resp.body@
                == table.records[i].data.bytes(),
{
    match find_record(table, path) {
        None => None,
        Some(i) => {
            let rec = &table.records[i];
            let resp = HttpResponse {
                status: 200,
                content_type: rec.mime_type.clone(),
                gzip_encoded: matches!(rec.data, ViteFileData::CompressedData(_)),
                body: copy_bytes(&rec.data),
            };
            proof {
                assert(table.records[i as int].path@ == path@);
            }
            Some(resp)
        },
    }
}

/// Development mode, root path: the dev shell is served as live, uncompressed
/// HTML on every request.
pub fn respond_dev_root(shell: &Vec<u8>) -> (r: HttpResponse)
    ensures
        r.status == 200,
        r.content_type@ == "text/html"@,
        !r.gzip_encoded,
        r.body@ == shell@,
{
    HttpResponse {
        status: 200,
        content_type: String::from_str("text/html"),
        gzip_encoded: false,
        body: slice_to_vec(shell.as_slice()),
    }
}

/// Development mode, every other path: the proxy outcome mapped to a
/// response. The upstream body is returned verbatim as text with a 200, a
/// non-success upstream status is passed through unchanged with an empty
/// body, and a transport failure becomes the fixed bad-gateway status.
pub fn respond_dev_proxy(outcome: ProxyOutcome) -> (r: HttpResponse)
    ensures
        outcome matches ProxyOutcome::UpstreamBody(b) ==> r.status == 200 && r.body@
            == encode_utf8(b@) && !r.gzip_encoded && r.content_type@
            == "text/plain; charset=utf-8"@,
        outcome matches ProxyOutcome::UpstreamFailure(c) ==> r.status == c && r.body@
            == Seq::<u8>::empty() && !r.gzip_encoded,
        outcome is TransportFailure ==> r.status == bad_gateway() && r.body@ == Seq::<u8>::empty()
            && !r.gzip_encoded,
{
    match outcome {
        ProxyOutcome::UpstreamBody(b) => HttpResponse {
            status: 200,
            content_type: String::from_str("text/plain; charset=utf-8"),
            gzip_encoded: false,
            body: b.as_str().as_bytes_vec(),
        },
        ProxyOutcome::UpstreamFailure(c) => HttpResponse {
            status: c,
            content_type: String::from_str("text/plain; charset=utf-8"),
            gzip_encoded: false,
            body: Vec::new(),
        },
        ProxyOutcome::TransportFailure => HttpResponse {
            status: 502,
            content_type: String::from_str("text/plain; charset=utf-8"),
            gzip_encoded: false,
            body: Vec::new(),
        },
    }
}

} // verus!
