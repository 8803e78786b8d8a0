//! The manifest model: a typed mapping from module key to chunk metadata,
//! read out of the bundler's JSON manifest.

use vstd::prelude::*;

use crate::json;
use crate::table::BundleError;

verus! {

/// One module's build record: its output file, whether it is an application
/// entry point, and its stylesheets, static assets and imported module keys,
/// each in manifest order.
pub struct ManifestEntry {
    pub key: String,
    pub file: String,
    pub is_entry: bool,
    pub css: Vec<String>,
    pub assets: Vec<String>,
    pub imports: Vec<String>,
}

/// The manifest: a mapping from module key to entry, with distinct keys.
pub struct Manifest {
    pub entries: Vec<ManifestEntry>,
}

impl Manifest {
    /// The module keys, in manifest order.
    pub open spec fn keys(self) -> Seq<Seq<char>> {
        self.entries@.map_values(|e: ManifestEntry| e.key@)
    }

    /// Well-formedness: no module key repeats.
    pub open spec fn wf(self) -> bool {
        forall|i: int, j: int|
            0 <= i < j < self.entries.len() ==> self.entries[i].key@ != self.entries[j].key@
    }

    /// Whether some entry has the key.
    pub open spec fn has_key(self, k: Seq<char>) -> bool {
        exists|i: int| 0 <= i < self.entries.len() && self.entries[i].key@ == k
    }

    /// The index of the entry with the key (unique in a well-formed manifest).
    pub open spec fn entry_index(self, k: Seq<char>) -> int {
        choose|i: int| 0 <= i < self.entries.len() && self.entries[i].key@ == k
    }

    /// The entry with the key.
    pub open spec fn entry_for(self, k: Seq<char>) -> ManifestEntry {
        self.entries[self.entry_index(k)]
    }
}

/// The document's member keyed `key` decodes to the expected shape: a
/// string "file", a boolean "isEntry" when present, and string arrays
/// "css", "assets" and "dynamicImports" when present.
pub open spec fn member_shape_ok(s: Seq<char>, key: Seq<char>) -> bool {
    &&& json::member_file(s, key) is Some
    &&& json::member_entry_flag(s, key) is Some
    &&& json::member_string_list(s, key, "css"@) is Some
    &&& json::member_string_list(s, key, "assets"@) is Some
    &&& json::member_string_list(s, key, "dynamicImports"@) is Some
}

/// The text decodes to a manifest: a JSON object whose every member has the
/// expected shape.
pub open spec fn manifest_shape_ok(s: Seq<char>) -> bool {
    &&& json::is_json_object(s)
    &&& forall|i: int|
        0 <= i < json::document_keys(s).len() ==> member_shape_ok(
            s,
            #[trigger] json::document_keys(s)[i],
        )
}

/// The entry holds exactly what the document's member keyed `key` decodes
/// to: its key, its "file" string, whether "isEntry" is the boolean true,
/// and its three string lists (empty where absent).
pub open spec fn entry_matches_document(e: ManifestEntry, s: Seq<char>, key: Seq<char>) -> bool {
    &&& e.key@ == key
    &&& json::member_file(s, key) == Some(e.file@)
    &&& e.is_entry == (json::member_entry_flag(s, key) == Some(Some(true)))
    &&& json::member_string_list(s, key, "css"@) == Some(e.css.deep_view())
    &&& json::member_string_list(s, key, "assets"@) == Some(e.assets.deep_view())
    &&& json::member_string_list(s, key, "dynamicImports"@) == Some(e.imports.deep_view())
}

/// Whether exactly one entry is marked as an application entry point.
pub open spec fn has_unique_entry(m: Manifest) -> bool {
    exists|i: int|
        0 <= i < m.entries.len() && m.entries[i].is_entry && (forall|j: int|
            0 <= j < m.entries.len() && j != i ==> !m.entries[j].is_entry)
}

/// The index of the entry with the given key, scanning in manifest order.
pub fn find_key(m: &Manifest, key: &String) -> (r: Option<usize>)
    ensures
        r matches Some(i) ==> i < m.entries.len() && m.entries[i as int].key@ == key@,
        r is None ==> !m.has_key(key@),
{
    let mut i: usize = 0;
    while i < m.entries.len()
        invariant
            i <= m.entries.len(),
            forall|j: int| 0 <= j < i ==> m.entries[j].key@ != key@,
        decreases m.entries.len() - i,
    {
        if m.entries[i].key.eq(key) {
            return Some(i);
        }
        i = i + 1;
    }
    None
}

/// The index of the unique entry-point record, when there is exactly one.
pub fn find_entry(m: &Manifest) -> (r: Option<usize>)
    ensures
        r matches Some(i) ==> i < m.entries.len() && m.entries[i as int].is_entry && (forall|
            j: int,
        |
            0 <= j < m.entries.len() && j != i ==> !m.entries[j].is_entry),
        r is None ==> !has_unique_entry(*m),
{
    let mut idx: usize = 0;
    let mut found: Option<usize> = None;
    let mut dup: bool = false;
    while idx < m.entries.len()
        invariant
            idx <= m.entries.len(),
            !dup && found is None ==> forall|j: int| 0 <= j < idx ==> !m.entries[j].is_entry,
            !dup ==> (found matches Some(f) ==> f < idx && m.entries[f as int].is_entry && (forall|
                j: int,
            |
                0 <= j < idx && j != f ==> !m.entries[j].is_entry)),
            dup ==> exists|a: int, b: int|
                0 <= a < b < idx && m.entries[a].is_entry && m.entries[b].is_entry,
        decreases m.entries.len() - idx,
    {
        if m.entries[idx].is_entry {
            match found {
                None => { found = Some(idx) },
                Some(_) => { dup = true },
            }
        }
        idx = idx + 1;
    }
    if dup {
        proof {
            let (a, b) = choose|a: int, b: int|
                0 <= a < b < m.entries.len() && m.entries[a].is_entry && m.entries[b].is_entry;
            assert forall|i: int|
                0 <= i < m.entries.len() && m.entries[i].is_entry implies !(forall|j: int|
                0 <= j < m.entries.len() && j != i ==> !m.entries[j].is_entry) by {
                if i != a {
                    assert(m.entries[a].is_entry);
                } else {
                    assert(m.entries[b].is_entry);
                }
            }
        }
        return None;
    }
    found
}

/// Reads a manifest out of JSON text: one entry per member of the
/// document's top-level object, in document order. Succeeds exactly when
/// the text decodes to a manifest of the expected shape, and then returns
/// precisely what the document decodes to; otherwise fails with the parse
/// error.
pub fn parse_manifest(text: &str) -> (r: Result<Manifest, BundleError>)
    ensures
        r is Ok <==> manifest_shape_ok(text@),
        r matches Ok(m) ==> {
            &&& m.wf()
            &&& m.entries@.len() == json::document_keys(text@).len()
            &&& forall|i: int|
                0 <= i < m.entries@.len() ==> entry_matches_document(
                    #[trigger] m.entries@[i],
                    text@,
                    json::document_keys(text@)[i],
                )
        },
        r is Err ==> r matches Err(BundleError::ManifestParseError),
{
    let keys = match json::read_document_keys(text) {
        None => {
            return Err(BundleError::ManifestParseError);
        },
        Some(ks) => ks,
    };
    let mut entries: Vec<ManifestEntry> = Vec::new();
    let mut i: usize = 0;
    while i < keys.len()
        invariant
            json::is_json_object(text@),
            keys.deep_view() == json::document_keys(text@),
            keys@.len() == json::document_keys(text@).len(),
            json::document_keys(text@).no_duplicates(),
            i <= keys@.len(),
            entries@.len() == i,
            forall|j: int|
                0 <= j < i ==> entry_matches_document(
                    #[trigger] entries@[j],
                    text@,
                    json::document_keys(text@)[j],
                ),
            forall|j: int|
                0 <= j < i ==> member_shape_ok(text@, #[trigger] json::document_keys(text@)[j]),
        decreases keys@.len() - i,
    {
        let key = &keys[i];
        proof {
            assert(key@ == json::document_keys(text@)[i as int]);
        }
        let file = match json::read_member_file(text, key.as_str()) {
            None => {
                proof {
                    assert(!member_shape_ok(text@, json::document_keys(text@)[i as int]));
                }
                return Err(BundleError::ManifestParseError);
            },
            Some(f) => f,
        };
        let is_entry: bool = match json::read_member_entry_flag(text, key.as_str()) {
            None => {
                proof {
                    assert(!member_shape_ok(text@, json::document_keys(text@)[i as int]));
                }
                return Err(BundleError::ManifestParseError);
            },
            Some(flag) => match flag {
                Some(b) => b,
                None => false,
            },
        };
        let css = match json::read_member_string_list(text, key.as_str(), "css") {
            None => {
                proof {
                    assert(!member_shape_ok(text@, json::document_keys(text@)[i as int]));
                }
                return Err(BundleError::ManifestParseError);
            },
            Some(l) => l,
        };
        let assets = match json::read_member_string_list(text, key.as_str(), "assets") {
            None => {
                proof {
                    assert(!member_shape_ok(text@, json::document_keys(text@)[i as int]));
                }
                return Err(BundleError::ManifestParseError);
            },
            Some(l) => l,
        };
        let imports = match json::read_member_string_list(text, key.as_str(), "dynamicImports") {
            None => {
                proof {
                    assert(!member_shape_ok(text@, json::document_keys(text@)[i as int]));
                }
                return Err(BundleError::ManifestParseError);
            },
            Some(l) => l,
        };
        let e = ManifestEntry { key: key.clone(), file, is_entry, css, assets, imports };
        entries.push(e);
        i = i + 1;
    }
    let m = Manifest { entries };
    proof {
        let dk = json::document_keys(text@);
        assert forall|a: int, b: int| 0 <= a < b < m.entries.len() implies m.entries[a].key@
            != m.entries[b].key@ by {
            assert(entry_matches_document(m.entries@[a], text@, dk[a]));
            assert(entry_matches_document(m.entries@[b], text@, dk[b]));
        }
    }
    Ok(m)
}

} // verus!
