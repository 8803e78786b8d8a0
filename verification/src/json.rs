//! The trusted boundary to serde_json, over plain values: what the manifest
//! document decodes to is named as functions of the text alone, and each
//! accessor re-reads the document and hands one named piece out. Verified
//! code interprets the manifest's shape on top of these.

use vstd::prelude::*;

verus! {

/// Whether serde_json accepts the text as a JSON document whose top level
/// is an object.
pub uninterp spec fn is_json_object(s: Seq<char>) -> bool;

/// The member keys of the document's top-level object, in serde_json's map
/// order.
pub uninterp spec fn document_keys(s: Seq<char>) -> Seq<Seq<char>>;

/// The "file" member of the document's entry keyed `key`: its text when
/// that entry is an object holding a string there, nothing otherwise.
pub uninterp spec fn member_file(s: Seq<char>, key: Seq<char>) -> Option<Seq<char>>;

/// The "isEntry" member of the document's entry keyed `key`: nothing when
/// it is present but not a boolean; otherwise its value, or none inside
/// when it is absent.
pub uninterp spec fn member_entry_flag(s: Seq<char>, key: Seq<char>) -> Option<Option<bool>>;

/// The `field` member of the document's entry keyed `key`, read as a list
/// of strings: the empty list when the field is absent, the texts in array
/// order when it is an array of strings, nothing when it is present but
/// malformed.
pub uninterp spec fn member_string_list(s: Seq<char>, key: Seq<char>, field: Seq<char>) -> Option<
    Seq<Seq<char>>,
>;

/// Relies on serde_json::from_str::<Value>, Value::as_object and Map::keys:
/// it succeeds exactly on a JSON document with an object at the top, and
/// hands out that object's member keys, which serde_json's map (a BTreeMap)
/// holds once each; the outcome depends on the text alone.
#[verifier::external_body]
pub(crate) fn read_document_keys(s: &str) -> (r: Option<Vec<String>>)
    ensures
        r is Some <==> is_json_object(s@),
        r matches Some(ks) ==> ks.deep_view() == document_keys(s@) && document_keys(
            s@,
        ).no_duplicates(),
{
    let v: serde_json::Value = serde_json::from_str(s).ok()?;
    let m = v.as_object()?;
    Some(m.keys().cloned().collect())
}

/// Relies on serde_json::from_str, Value::get and Value::as_str: the keyed
/// entry's "file" string, a function of the text and key alone.
#[verifier::external_body]
pub(crate) fn read_member_file(s: &str, key: &str) -> (r: Option<String>)
    ensures
        r matches Some(f) ==> member_file(s@, key@) == Some(f@),
        r is None <==> member_file(s@, key@) is None,
{
    let v: serde_json::Value = serde_json::from_str(s).ok()?;
    v.get(key)?.get("file")?.as_str().map(|x| x.to_string())
}

/// Relies on serde_json::from_str, Value::get and Value::as_bool: the keyed
/// entry's "isEntry" flag, a function of the text and key alone.
#[verifier::external_body]
pub(crate) fn read_member_entry_flag(s: &str, key: &str) -> (r: Option<Option<bool>>)
    ensures
        r == member_entry_flag(s@, key@),
{
    let v: serde_json::Value = serde_json::from_str(s).ok()?;
    let e = v.get(key)?;
    match e.get("isEntry") {
        None => Some(None),
        Some(b) => b.as_bool().map(Some),
    }
}

/// Relies on serde_json::from_str, Value::get, Value::as_array and
/// Value::as_str: the keyed entry's `field` as a string list (empty when
/// absent), a function of the text, key and field alone.
#[verifier::external_body]
pub(crate) fn read_member_string_list(s: &str, key: &str, field: &str) -> (r: Option<Vec<String>>)
    ensures
        r matches Some(l) ==> member_string_list(s@, key@, field@) == Some(l.deep_view()),
        r is None <==> member_string_list(s@, key@, field@) is None,
{
    let v: serde_json::Value = serde_json::from_str(s).ok()?;
    let e = v.get(key)?;
    match e.get(field) {
        None => Some(Vec::new()),
        Some(a) => a.as_array()?.iter().map(|x| x.as_str().map(|t| t.to_string())).collect(),
    }
}

} // verus!
