use vite_embed::manifest::{find_entry, find_key, parse_manifest, Manifest, ManifestEntry};
use vite_embed::table::BundleError;

fn entry(key: &str, file: &str, is_entry: bool) -> ManifestEntry {
    ManifestEntry {
        key: key.to_string(),
        file: file.to_string(),
        is_entry,
        css: Vec::new(),
        assets: Vec::new(),
        imports: Vec::new(),
    }
}

#[test]
fn parse_two_modules() {
    let text = r#"{
        "src/main.tsx": {
            "file": "assets/main-abc123.js",
            "isEntry": true,
            "css": ["assets/main-abc.css"],
            "dynamicImports": ["src/lazy.tsx"]
        },
        "src/lazy.tsx": {
            "file": "assets/lazy-def456.js"
        }
    }"#;
    let m = parse_manifest(text).unwrap();
    assert_eq!(m.entries.len(), 2);
    let main = m
        .entries
        .iter()
        .find(|e| e.key.as_str() == "src/main.tsx")
        .unwrap();
    assert_eq!(main.file.as_str(), "assets/main-abc123.js");
    assert!(main.is_entry);
    assert_eq!(main.css.len(), 1);
    assert_eq!(main.css[0].as_str(), "assets/main-abc.css");
    assert_eq!(main.assets.len(), 0);
    assert_eq!(main.imports.len(), 1);
    assert_eq!(main.imports[0].as_str(), "src/lazy.tsx");
    let lazy = m
        .entries
        .iter()
        .find(|e| e.key.as_str() == "src/lazy.tsx")
        .unwrap();
    assert_eq!(lazy.file.as_str(), "assets/lazy-def456.js");
    assert!(!lazy.is_entry);
    assert_eq!(lazy.css.len(), 0);
}

#[test]
fn parse_rejects_invalid_json() {
    let r = parse_manifest("{ not json");
    assert!(matches!(r, Err(BundleError::ManifestParseError)));
}

#[test]
fn parse_rejects_non_object_document() {
    let r = parse_manifest("[1, 2, 3]");
    assert!(matches!(r, Err(BundleError::ManifestParseError)));
}

#[test]
fn parse_rejects_missing_file_field() {
    let r = parse_manifest(r#"{ "src/main.tsx": { "isEntry": true } }"#);
    assert!(matches!(r, Err(BundleError::ManifestParseError)));
}

#[test]
fn parse_rejects_malformed_css_array() {
    let r = parse_manifest(r#"{ "a": { "file": "a.js", "css": [1] } }"#);
    assert!(matches!(r, Err(BundleError::ManifestParseError)));
}

#[test]
fn parse_rejects_non_boolean_entry_flag() {
    let r = parse_manifest(r#"{ "a": { "file": "a.js", "isEntry": "yes" } }"#);
    assert!(matches!(r, Err(BundleError::ManifestParseError)));
}

#[test]
fn parse_defaults_absent_lists_to_empty() {
    let m = parse_manifest(r#"{ "a": { "file": "a.js" } }"#).unwrap();
    assert_eq!(m.entries.len(), 1);
    assert!(!m.entries[0].is_entry);
    assert!(m.entries[0].css.is_empty());
    assert!(m.entries[0].assets.is_empty());
    assert!(m.entries[0].imports.is_empty());
}

#[test]
fn find_key_hits_and_misses() {
    let m = Manifest {
        entries: vec![entry("a", "a.js", false), entry("b", "b.js", true)],
    };
    assert_eq!(find_key(&m, &"b".to_string()), Some(1));
    assert_eq!(find_key(&m, &"c".to_string()), None);
}

#[test]
fn find_entry_needs_exactly_one() {
    let none = Manifest {
        entries: vec![entry("a", "a.js", false)],
    };
    assert_eq!(find_entry(&none), None);
    let one = Manifest {
        entries: vec![entry("a", "a.js", false), entry("b", "b.js", true)],
    };
    assert_eq!(find_entry(&one), Some(1));
    let two = Manifest {
        entries: vec![entry("a", "a.js", true), entry("b", "b.js", true)],
    };
    assert_eq!(find_entry(&two), None);
}
