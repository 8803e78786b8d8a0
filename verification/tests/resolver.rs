use vite_embed::manifest::{parse_manifest, Manifest, ManifestEntry};
use vite_embed::resolve::resolve;
use vite_embed::table::BundleError;

fn module(key: &str, file: &str, is_entry: bool, imports: &[&str]) -> ManifestEntry {
    ManifestEntry {
        key: key.to_string(),
        file: file.to_string(),
        is_entry,
        css: Vec::new(),
        assets: Vec::new(),
        imports: imports.iter().map(|s| s.to_string()).collect(),
    }
}

fn paths(files: &[String]) -> Vec<&str> {
    files.iter().map(|s| s.as_str()).collect()
}

#[test]
fn scenario_entry_with_lazy_import() {
    let text = r#"{
        "src/main.tsx": {
            "file": "assets/main-abc123.js",
            "isEntry": true,
            "css": ["assets/main-abc.css"],
            "dynamicImports": ["src/lazy.tsx"]
        },
        "src/lazy.tsx": {
            "file": "assets/lazy-def456.js"
        }
    }"#;
    let m = parse_manifest(text).unwrap();
    let r = resolve(&m, &"src/main.tsx".to_string()).unwrap();
    assert_eq!(r.entry_file.as_str(), "assets/main-abc123.js");
    assert_eq!(paths(&r.entry_css), vec!["assets/main-abc.css"]);
    assert_eq!(
        paths(&r.files),
        vec![
            "assets/main-abc123.js",
            "assets/main-abc.css",
            "assets/lazy-def456.js",
            "favicon.ico",
            "index.html",
        ]
    );
}

#[test]
fn diamond_imports_emit_each_file_once() {
    let m = Manifest {
        entries: vec![
            module("a", "a.js", true, &["b", "c"]),
            module("b", "b.js", false, &["d"]),
            module("c", "c.js", false, &["d"]),
            module("d", "d.js", false, &[]),
        ],
    };
    let r = resolve(&m, &"a".to_string()).unwrap();
    assert_eq!(
        paths(&r.files),
        vec!["a.js", "b.js", "c.js", "d.js", "favicon.ico", "index.html"]
    );
}

#[test]
fn shared_stylesheet_is_emitted_once() {
    let mut b = module("b", "b.js", false, &[]);
    b.css = vec!["shared.css".to_string()];
    let mut a = module("a", "a.js", true, &["b"]);
    a.css = vec!["shared.css".to_string()];
    let m = Manifest {
        entries: vec![a, b],
    };
    let r = resolve(&m, &"a".to_string()).unwrap();
    assert_eq!(
        paths(&r.files),
        vec!["a.js", "shared.css", "b.js", "favicon.ico", "index.html"]
    );
}

#[test]
fn transitive_assets_are_collected() {
    let mut lazy = module("lazy", "lazy.js", false, &[]);
    lazy.css = vec!["lazy.css".to_string()];
    lazy.assets = vec!["bg.png".to_string()];
    let m = Manifest {
        entries: vec![module("main", "main.js", true, &["lazy"]), lazy],
    };
    let r = resolve(&m, &"main".to_string()).unwrap();
    assert_eq!(
        paths(&r.files),
        vec!["main.js", "lazy.js", "lazy.css", "bg.png", "favicon.ico", "index.html"]
    );
}

#[test]
fn missing_entry_key_is_unresolved() {
    let m = Manifest {
        entries: vec![module("a", "a.js", true, &[])],
    };
    match resolve(&m, &"zz".to_string()) {
        Err(BundleError::UnresolvedEntryError(k)) => assert_eq!(k.as_str(), "zz"),
        other => panic!("expected an unresolved entry, got {:?}", other.map(|_| ())),
    }
}

#[test]
fn unmarked_entry_key_is_unresolved() {
    let m = Manifest {
        entries: vec![module("a", "a.js", false, &[])],
    };
    assert!(matches!(
        resolve(&m, &"a".to_string()),
        Err(BundleError::UnresolvedEntryError(_))
    ));
}

#[test]
fn dangling_import_names_the_key() {
    let m = Manifest {
        entries: vec![module("a", "a.js", true, &["ghost"])],
    };
    match resolve(&m, &"a".to_string()) {
        Err(BundleError::DanglingImportError(k)) => assert_eq!(k.as_str(), "ghost"),
        other => panic!("expected a dangling import, got {:?}", other.map(|_| ())),
    }
}
