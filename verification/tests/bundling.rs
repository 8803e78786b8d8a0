use std::io::Read;

use vite_embed::bundle::build_table;
use vite_embed::manifest::parse_manifest;
use vite_embed::resolve::resolve;
use vite_embed::table::{AssetTable, BundleError, ViteFileData};

const TEMPLATE: &str = "<html><head>\n<!--vite-embed script injection-->\n<!--vite-embed stylesheet injection-->\n</head><body></body></html>";

fn gunzip(data: &[u8]) -> Vec<u8> {
    let mut out = Vec::new();
    flate2::read::GzDecoder::new(data)
        .read_to_end(&mut out)
        .expect("valid gzip stream");
    out
}

fn strings(items: &[&str]) -> Vec<String> {
    items.iter().map(|s| s.to_string()).collect()
}

fn somes(items: &[&[u8]]) -> Vec<Option<Vec<u8>>> {
    items.iter().map(|b| Some(b.to_vec())).collect()
}

fn build_scenario() -> AssetTable {
    let text = r#"{
        "src/main.tsx": {
            "file": "assets/main-abc123.js",
            "isEntry": true,
            "css": ["assets/main-abc.css"],
            "dynamicImports": ["src/lazy.tsx"]
        },
        "src/lazy.tsx": {
            "file": "assets/lazy-def456.js"
        }
    }"#;
    let m = parse_manifest(text).unwrap();
    let r = resolve(&m, &"src/main.tsx".to_string()).unwrap();
    let contents = somes(&[
        b"console.log('main');",
        b"body { color: red }",
        b"console.log('lazy');",
        b"\x00\x01icon-bytes",
        TEMPLATE.as_bytes(),
    ]);
    build_table(&r.files, &contents, &r.entry_file, &r.entry_css).unwrap()
}

#[test]
fn scenario_table_shape_and_shell() {
    let t = build_scenario();
    let p: Vec<&str> = t.records.iter().map(|r| r.path.as_str()).collect();
    assert_eq!(
        p,
        vec![
            "/",
            "/assets/main-abc123.js",
            "/assets/main-abc.css",
            "/assets/lazy-def456.js",
            "/favicon.ico",
        ]
    );
    let root = &t.records[0];
    assert_eq!(root.mime_type.as_str(), "text/html");
    let shell = match &root.data {
        ViteFileData::CompressedData(d) => String::from_utf8(gunzip(d)).unwrap(),
        ViteFileData::UncompressedData(_) => panic!("the shell must be compressed"),
    };
    let script_tag = "<script type=\"module\" src=\"/assets/main-abc123.js\"></script>";
    let link_tag = "<link rel=\"stylesheet\" href=\"/assets/main-abc.css\">";
    assert_eq!(shell.matches(script_tag).count(), 1);
    assert_eq!(shell.matches(link_tag).count(), 1);
    assert!(!shell.contains("<!--vite-embed"));
}

#[test]
fn compression_policy_by_content_type() {
    let t = build_scenario();
    // scripts and stylesheets are text-like: compressed
    assert!(matches!(t.records[1].data, ViteFileData::CompressedData(_)));
    assert!(matches!(t.records[2].data, ViteFileData::CompressedData(_)));
    assert!(t.records[1].mime_type.as_str().contains("javascript"));
    assert_eq!(t.records[2].mime_type.as_str(), "text/css");
    // the favicon is a raster image: stored as-is
    assert!(matches!(t.records[4].data, ViteFileData::UncompressedData(_)));
    assert!(t.records[4].mime_type.as_str().starts_with("image/"));
}

#[test]
fn compressed_record_round_trips_to_original_bytes() {
    let t = build_scenario();
    match &t.records[1].data {
        ViteFileData::CompressedData(d) => {
            assert_ne!(d.as_slice(), b"console.log('main');");
            assert_eq!(gunzip(d), b"console.log('main');");
        }
        ViteFileData::UncompressedData(_) => panic!("script records must be compressed"),
    }
}

#[test]
fn uncompressed_record_keeps_bytes_verbatim() {
    let t = build_scenario();
    match &t.records[4].data {
        ViteFileData::UncompressedData(d) => assert_eq!(d.as_slice(), b"\x00\x01icon-bytes"),
        ViteFileData::CompressedData(_) => panic!("image records must not be compressed"),
    }
}

#[test]
fn png_extension_gets_its_exact_content_type() {
    let files = strings(&["logo.png", "index.html"]);
    let contents = somes(&[b"fake-png", TEMPLATE.as_bytes()]);
    let t = build_table(&files, &contents, &"logo.png".to_string(), &Vec::new()).unwrap();
    assert_eq!(t.records[1].mime_type.as_str(), "image/png");
    assert!(matches!(t.records[1].data, ViteFileData::UncompressedData(_)));
}

#[test]
fn root_path_is_bare_whatever_the_template_name() {
    let files = strings(&["a.js", "some-template.html"]);
    let contents = somes(&[b"alert(1)", TEMPLATE.as_bytes()]);
    let t = build_table(&files, &contents, &"a.js".to_string(), &Vec::new()).unwrap();
    assert_eq!(t.records[0].path.as_str(), "/");
    assert_eq!(t.records.len(), 2);
    assert_eq!(t.records[1].path.as_str(), "/a.js");
}

#[test]
fn missing_bytes_fail_with_the_file_name() {
    let files = strings(&["a.js", "index.html"]);
    let contents = vec![None, Some(TEMPLATE.as_bytes().to_vec())];
    match build_table(&files, &contents, &"a.js".to_string(), &Vec::new()) {
        Err(BundleError::AssetReadError(p)) => assert_eq!(p.as_str(), "a.js"),
        _ => panic!("expected a read failure"),
    }
}

#[test]
fn template_without_script_marker_fails() {
    let files = strings(&["a.js", "index.html"]);
    let contents = somes(&[b"x", b"<html><!--vite-embed stylesheet injection--></html>"]);
    assert!(matches!(
        build_table(&files, &contents, &"a.js".to_string(), &Vec::new()),
        Err(BundleError::TemplateMarkerError)
    ));
}

#[test]
fn template_without_stylesheet_marker_fails() {
    let files = strings(&["a.js", "index.html"]);
    let contents = somes(&[b"x", b"<html><!--vite-embed script injection--></html>"]);
    assert!(matches!(
        build_table(&files, &contents, &"a.js".to_string(), &Vec::new()),
        Err(BundleError::TemplateMarkerError)
    ));
}

#[test]
fn colliding_paths_fail_with_the_path() {
    let files = strings(&["favicon.ico", "favicon.ico", "index.html"]);
    let contents = somes(&[b"i1", b"i2", TEMPLATE.as_bytes()]);
    match build_table(&files, &contents, &"a.js".to_string(), &Vec::new()) {
        Err(BundleError::DuplicateAssetPathError(p)) => assert_eq!(p.as_str(), "/favicon.ico"),
        _ => panic!("expected a duplicate-path failure"),
    }
}
