use std::io::Read;

use vite_embed::bundle::build_table;
use vite_embed::html::synth_dev_shell;
use vite_embed::router::{respond_dev_proxy, respond_dev_root, respond_prod, ProxyOutcome};
use vite_embed::table::{AssetTable, ViteFileData};

const TEMPLATE: &str = "<html><head>\n<!--vite-embed script injection-->\n<!--vite-embed stylesheet injection-->\n</head><body></body></html>";

fn gunzip(data: &[u8]) -> Vec<u8> {
    let mut out = Vec::new();
    flate2::read::GzDecoder::new(data)
        .read_to_end(&mut out)
        .expect("valid gzip stream");
    out
}

fn small_table() -> AssetTable {
    let files: Vec<String> = vec!["app.js".to_string(), "pic.png".to_string(), "index.html".to_string()];
    let contents: Vec<Option<Vec<u8>>> = vec![
        Some(b"let x = 1;".to_vec()),
        Some(b"rawpixels".to_vec()),
        Some(TEMPLATE.as_bytes().to_vec()),
    ];
    build_table(&files, &contents, &"app.js".to_string(), &Vec::new()).unwrap()
}

#[test]
fn prod_hit_serves_stored_bytes_as_they_stand() {
    let t = small_table();
    let resp = respond_prod(&t, &"/app.js".to_string()).unwrap();
    assert_eq!(resp.status, 200);
    assert!(resp.gzip_encoded);
    assert!(resp.content_type.as_str().contains("javascript"));
    match &t.records[1].data {
        ViteFileData::CompressedData(d) => assert_eq!(&resp.body, d),
        ViteFileData::UncompressedData(_) => panic!("script records must be compressed"),
    }
    assert_eq!(gunzip(&resp.body), b"let x = 1;");
}

#[test]
fn prod_hit_on_uncompressed_record_has_no_encoding() {
    let t = small_table();
    let resp = respond_prod(&t, &"/pic.png".to_string()).unwrap();
    assert_eq!(resp.status, 200);
    assert!(!resp.gzip_encoded);
    assert_eq!(resp.body, b"rawpixels");
}

#[test]
fn prod_root_serves_the_compressed_shell() {
    let t = small_table();
    let resp = respond_prod(&t, &"/".to_string()).unwrap();
    assert_eq!(resp.content_type.as_str(), "text/html");
    assert!(resp.gzip_encoded);
    let html = String::from_utf8(gunzip(&resp.body)).unwrap();
    assert!(html.contains("<script type=\"module\" src=\"/app.js\"></script>"));
}

#[test]
fn prod_miss_yields_no_response() {
    let t = small_table();
    assert!(respond_prod(&t, &"/missing.js".to_string()).is_none());
    assert!(respond_prod(&t, &"/app.js/".to_string()).is_none());
}

#[test]
fn dev_root_serves_live_uncompressed_html() {
    let shell = synth_dev_shell(
        &TEMPLATE.as_bytes().to_vec(),
        &"src/main.tsx".to_string(),
    )
    .unwrap();
    let resp = respond_dev_root(&shell);
    assert_eq!(resp.status, 200);
    assert_eq!(resp.content_type.as_str(), "text/html");
    assert!(!resp.gzip_encoded);
    assert_eq!(resp.body, shell);
}

#[test]
fn dev_shell_points_at_the_dev_origin_only() {
    let shell = synth_dev_shell(
        &TEMPLATE.as_bytes().to_vec(),
        &"src/main.tsx".to_string(),
    )
    .unwrap();
    let html = String::from_utf8(shell).unwrap();
    assert_eq!(html.matches("<script type=\"module\"").count(), 2);
    assert_eq!(html.matches("http://localhost:5173").count(), 2);
    assert!(html.contains("http://localhost:5173/@vite/client"));
    assert!(html.contains("http://localhost:5173/src/main.tsx"));
    assert!(!html.contains("abc123"));
}

#[test]
fn proxy_body_is_returned_verbatim() {
    let resp = respond_dev_proxy(ProxyOutcome::UpstreamBody("hello dev".to_string()));
    assert_eq!(resp.status, 200);
    assert!(!resp.gzip_encoded);
    assert_eq!(resp.body, b"hello dev");
}

#[test]
fn proxy_upstream_failure_passes_the_status_through() {
    let resp = respond_dev_proxy(ProxyOutcome::UpstreamFailure(404));
    assert_eq!(resp.status, 404);
    assert!(resp.body.is_empty());
}

#[test]
fn proxy_transport_failure_maps_to_bad_gateway() {
    let resp = respond_dev_proxy(ProxyOutcome::TransportFailure);
    assert_eq!(resp.status, 502);
    assert!(resp.body.is_empty());
}

#[test]
fn unreachable_dev_origin_yields_bad_gateway_not_a_crash() {
    // nothing listens on the discard port of the loopback interface
    let outcome = match ureq::get("http://127.0.0.1:9/some/path").call() {
        Ok(mut resp) => match resp.body_mut().read_to_string() {
            Ok(body) => ProxyOutcome::UpstreamBody(body),
            Err(_) => ProxyOutcome::TransportFailure,
        },
        Err(ureq::Error::StatusCode(c)) => ProxyOutcome::UpstreamFailure(c),
        Err(_) => ProxyOutcome::TransportFailure,
    };
    let resp = respond_dev_proxy(outcome);
    assert_eq!(resp.status, 502);
}
