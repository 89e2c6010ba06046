//! The manifest's JSON form: an object with the six fields in declaration
//! order, each a JSON string.

use vstd::prelude::*;
use crate::types::ThemeManifest;

verus! {

/// The bytes of `s` written as a JSON string literal, quotes included.
pub uninterp spec fn json_string(s: Seq<char>) -> Seq<u8>;

/// The string member `key` of the JSON object that `doc` holds; `None` when
/// `doc` is not a JSON object or the member is absent or not a string.
pub uninterp spec fn json_member(doc: Seq<u8>, key: Seq<char>) -> Option<Seq<char>>;

/// Relies on `serde_json::to_vec` on a `str`: it writes the JSON string
/// literal of its argument into a `Vec`, which cannot fail.
#[verifier::external_body]
fn json_quote(s: &str) -> (r: Vec<u8>)
    ensures
        r@ == json_string(s@),
{
    serde_json::to_vec(s).unwrap_or_default()
}

/// Relies on `serde_json::from_slice` into a `serde_json::Value`, then
/// `Value::get` with a string key and `Value::as_str`: the string member
/// `key` of the document's top-level object.
#[verifier::external_body]
fn json_string_member(doc: &[u8], key: &str) -> (r: Option<String>)
    ensures
        match r {
            Some(v) => json_member(doc@, key@) == Some(v@),
            None => json_member(doc@, key@) is None,
        },
{
    match serde_json::from_slice::<serde_json::Value>(doc) {
        Ok(v) => v.get(key).and_then(serde_json::Value::as_str).map(String::from),
        Err(_) => None,
    }
}

/// The JSON document of a manifest.
pub open spec fn manifest_json(m: ThemeManifest) -> Seq<u8> {
    seq![0x7Bu8] + json_string("name"@) + seq![0x3Au8] + json_string(m.name@) + seq![0x2Cu8]
        + json_string("author"@) + seq![0x3Au8] + json_string(m.author@) + seq![0x2Cu8]
        + json_string("description"@) + seq![0x3Au8] + json_string(m.description@) + seq![
        0x2Cu8,
    ] + json_string("version"@) + seq![0x3Au8] + json_string(m.version@) + seq![0x2Cu8]
        + json_string("tags"@) + seq![0x3Au8] + json_string(m.tags@) + seq![0x2Cu8]
        + json_string("license"@) + seq![0x3Au8] + json_string(m.license@) + seq![0x7Du8]
}

/// `doc` is a JSON object whose six manifest members are strings, and `m`
/// holds them.
pub open spec fn parses_to(doc: Seq<u8>, m: ThemeManifest) -> bool {
    &&& json_member(doc, "name"@) == Some(m.name@)
    &&& json_member(doc, "author"@) == Some(m.author@)
    &&& json_member(doc, "description"@) == Some(m.description@)
    &&& json_member(doc, "version"@) == Some(m.version@)
    &&& json_member(doc, "tags"@) == Some(m.tags@)
    &&& json_member(doc, "license"@) == Some(m.license@)
}

/// `doc` holds a manifest: all six members are present as strings.
pub open spec fn is_manifest_doc(doc: Seq<u8>) -> bool {
    &&& json_member(doc, "name"@) is Some
    &&& json_member(doc, "author"@) is Some
    &&& json_member(doc, "description"@) is Some
    &&& json_member(doc, "version"@) is Some
    &&& json_member(doc, "tags"@) is Some
    &&& json_member(doc, "license"@) is Some
}

/// Appends a JSON member `"key":value` to `out`, preceded by `sep`.
fn push_member(out: &mut Vec<u8>, sep: u8, key: &str, value: &str)
    ensures
        final(out)@ == old(out)@ + seq![sep] + json_string(key@) + seq![0x3Au8] + json_string(
            value@,
        ),
{
    out.push(sep);
    let mut k = json_quote(key);
    out.append(&mut k);
    out.push(0x3Au8);
    let mut v = json_quote(value);
    out.append(&mut v);
}

/// Writes the manifest as a JSON document.
pub fn encode_manifest(m: &ThemeManifest) -> (r: Vec<u8>)
    ensures
        r@ == manifest_json(*m),
{
    let mut out: Vec<u8> = Vec::new();
    push_member(&mut out, 0x7Bu8, "name", m.name.as_str());
    push_member(&mut out, 0x2Cu8, "author", m.author.as_str());
    push_member(&mut out, 0x2Cu8, "description", m.description.as_str());
    push_member(&mut out, 0x2Cu8, "version", m.version.as_str());
    push_member(&mut out, 0x2Cu8, "tags", m.tags.as_str());
    push_member(&mut out, 0x2Cu8, "license", m.license.as_str());
    out.push(0x7Du8);
    assert(out@ =~= manifest_json(*m));
    out
}

/// Reads a manifest out of a JSON document; `None` unless all six members
/// are present as strings.
pub fn decode_manifest(doc: &[u8]) -> (r: Option<ThemeManifest>)
    ensures
        r is Some <==> is_manifest_doc(doc@),
        r matches Some(m) ==> parses_to(doc@, m),
{
    let name = json_string_member(doc, "name");
    let author = json_string_member(doc, "author");
    let description = json_string_member(doc, "description");
    let version = json_string_member(doc, "version");
    let tags = json_string_member(doc, "tags");
    let license = json_string_member(doc, "license");
    match (name, author, description, version, tags, license) {
        (Some(name), Some(author), Some(description), Some(version), Some(tags), Some(license)) => {
            Some(ThemeManifest { name, author, description, version, tags, license })
        },
        _ => None,
    }
}

} // verus!
