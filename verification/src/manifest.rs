//! Package manifests (`package.json`): their identity and whether they
//! describe an ES module, read from JSON text or from a gzipped tarball.

use vstd::prelude::*;
use serde_json::Value;
use vstd::utf8::{decode_utf8, valid_utf8};

use crate::error::{EspmError, EspmErrorView};
use crate::paths::{parse_package_name_field, parts_result_view};
use crate::registry::index_of;
use crate::specifier::{opt_view, split_package_name};
use crate::text::{chars_of, ends_with, has_suffix, str_eq};

verus! {

/// A JSON document as far as manifests are read: not JSON, JSON that is no
/// object, or an object with its members in order, each with its text when
/// it is a JSON string.
#[derive(Debug, Clone, PartialEq, Eq)]
pub enum JsonDoc {
    Invalid,
    NotObject,
    Object(Vec<(String, Option<String>)>),
}

/// The mathematical form of a [`JsonDoc`].
pub enum JsonDocView {
    Invalid,
    NotObject,
    Object(Seq<(Seq<char>, Option<Seq<char>>)>),
}

impl View for JsonDoc {
    type V = JsonDocView;

    open spec fn view(&self) -> JsonDocView {
        match self {
            JsonDoc::Invalid => JsonDocView::Invalid,
            JsonDoc::NotObject => JsonDocView::NotObject,
            JsonDoc::Object(m) => JsonDocView::Object(
                m@.map_values(|e: (String, Option<String>)| (e.0@, opt_view(e.1))),
            ),
        }
    }
}

/// What `serde_json::from_str::<serde_json::Value>` makes of `content`.
pub uninterp spec fn spec_json_document(content: Seq<char>) -> JsonDocView;

/// Parses `content` with `serde_json::from_str` into a `serde_json::Value`
/// and keeps of it whether it is an object and, for each member, its key
/// and its text when it is a string.
#[verifier::external_body]
fn parse_json_document(content: &str) -> (r: JsonDoc)
    ensures
        r@ == spec_json_document(content@),
{
    let members = match serde_json::from_str::<Value>(content) {
        Err(_) => return JsonDoc::Invalid,
        Ok(Value::Object(m)) => m,
        Ok(_) => return JsonDoc::NotObject,
    };
    let mut out = Vec::new();
    for (k, v) in members {
        let text = match v {
            Value::String(s) => Some(s),
            Value::Null | Value::Bool(_) | Value::Number(_) | Value::Array(_) | Value::Object(_) => None,
        };
        out.push((k, text));
    }
    JsonDoc::Object(out)
}

/// The member `key` of a document: `None` when absent (or no object),
/// else its text when it is a string.
pub open spec fn doc_member(d: JsonDocView, key: Seq<char>) -> Option<Option<Seq<char>>> {
    match d {
        JsonDocView::Object(m) => {
            let i = index_of(m.map_values(|e: (Seq<char>, Option<Seq<char>>)| e.0), key);
            if i < 0 {
                None
            } else {
                Some(m[i].1)
            }
        },
        _ => None,
    }
}

/// The text of the string member `key`, if there is one.
pub open spec fn doc_str(d: JsonDocView, key: Seq<char>) -> Option<Seq<char>> {
    match doc_member(d, key) {
        Some(Some(s)) => Some(s),
        _ => None,
    }
}

fn member(doc: &JsonDoc, key: &str) -> (r: Option<Option<String>>)
    ensures
        match r {
            None => doc_member(doc@, key@) is None,
            Some(v) => doc_member(doc@, key@) == Some(opt_view(v)),
        },
{
    match doc {
        JsonDoc::Object(m) => {
            let ghost keys = m@.map_values(|e: (String, Option<String>)| e.0@);
            assert(doc@ matches JsonDocView::Object(mv) && mv.map_values(|e: (Seq<char>, Option<Seq<char>>)| e.0) =~= keys);
            match crate::registry::find_entry(m, key) {
                Some(i) => {
                    proof { crate::registry::lemma_index_of(keys, key@); }
                    let v = match &m[i].1 {
                        Some(s) => Some(s.clone()),
                        None => None,
                    };
                    Some(v)
                },
                None => None,
            }
        },
        _ => None,
    }
}

fn member_str(doc: &JsonDoc, key: &str) -> (r: Option<String>)
    ensures
        opt_view(r) == doc_str(doc@, key@),
{
    match member(doc, key) {
        Some(Some(s)) => Some(s),
        _ => None,
    }
}

/// Whether a manifest describes an ES module: `"type": "module"`, or a
/// `module` or `exports` member, or a `main` that ends in `.mjs`.
pub open spec fn spec_is_esm(d: JsonDocView) -> bool {
    ||| doc_str(d, "type"@) == Some("module"@)
    ||| doc_member(d, "module"@) is Some
    ||| doc_member(d, "exports"@) is Some
    ||| (doc_str(d, "main"@) matches Some(m) && has_suffix(m, ".mjs"@))
}

/// Tells whether a manifest describes an ES module.
pub fn package_value_is_esm(doc: &JsonDoc) -> (r: bool)
    ensures
        r == spec_is_esm(doc@),
{
    match member_str(doc, "type") {
        Some(t) => {
            if str_eq(t.as_str(), "module") {
                return true;
            }
        },
        None => {},
    }
    if member(doc, "module").is_some() {
        return true;
    }
    if member(doc, "exports").is_some() {
        return true;
    }
    match member_str(doc, "main") {
        Some(m) => {
            let c = chars_of(m.as_str());
            ends_with(c.as_slice(), ".mjs")
        },
        None => false,
    }
}

/// Scope, name and version of a manifest: its `name` must be a string and
/// a package name; its `version` is kept when it is a string.
pub open spec fn spec_manifest_identity(d: JsonDocView, label: Seq<char>) -> Result<(Option<Seq<char>>, Seq<char>, Option<Seq<char>>), EspmErrorView> {
    match d {
        JsonDocView::Invalid => Err(EspmErrorView::InvalidManifest(label)),
        _ => match doc_str(d, "name"@) {
            None => Err(EspmErrorView::MissingManifestName(label)),
            Some(n) => match split_package_name(n) {
                None => Err(EspmErrorView::InvalidPackageName(n)),
                Some((scope, name)) => Ok((scope, name, doc_str(d, "version"@))),
            },
        },
    }
}

/// The view of a manifest identity result.
pub open spec fn identity_result_view(r: Result<(Option<String>, String, Option<String>), EspmError>) -> Result<(Option<Seq<char>>, Seq<char>, Option<Seq<char>>), EspmErrorView> {
    match r {
        Ok((s, n, v)) => Ok((opt_view(s), n@, opt_view(v))),
        Err(e) => Err(e@),
    }
}

/// Scope, name and version of a parsed manifest (read from `label`).
pub fn manifest_identity(doc: &JsonDoc, label: &str) -> (r: Result<(Option<String>, String, Option<String>), EspmError>)
    ensures
        identity_result_view(r) == spec_manifest_identity(doc@, label@),
{
    if let JsonDoc::Invalid = doc {
        return Err(EspmError::InvalidManifest(label.to_owned()));
    }
    let name = match member_str(doc, "name") {
        Some(n) => n,
        None => return Err(EspmError::MissingManifestName(label.to_owned())),
    };
    let (scope, pname) = match parse_package_name_field(name.as_str()) {
        Ok(p) => p,
        Err(e) => return Err(e),
    };
    let version = member_str(doc, "version");
    Ok((scope, pname, version))
}

/// Scope, name and version of the `package.json` text `content` (read from `label`).
pub fn read_package_manifest_from_text(content: &str, label: &str) -> (r: Result<(Option<String>, String, Option<String>), EspmError>)
    ensures
        identity_result_view(r) == spec_manifest_identity(spec_json_document(content@), label@),
{
    let doc = parse_json_document(content);
    manifest_identity(&doc, label)
}

/// Whether the `package.json` text `content` (read from `label`) describes
/// an ES module; an error when it is no JSON.
pub fn inspect_manifest_text_for_esm(content: &str, label: &str) -> (r: Result<bool, EspmError>)
    ensures
        match spec_json_document(content@) {
            JsonDocView::Invalid => r matches Err(e) && e@ == EspmErrorView::InvalidManifest(label@),
            d => r == Ok::<bool, EspmError>(spec_is_esm(d)),
        },
{
    let doc = parse_json_document(content);
    if let JsonDoc::Invalid = doc {
        return Err(EspmError::InvalidManifest(label.to_owned()));
    }
    Ok(package_value_is_esm(&doc))
}

/// The `version` string of the `package.json` text of an installed package;
/// an error when it is no JSON.
pub fn manifest_version_from_text(content: &str, label: &str) -> (r: Result<Option<String>, EspmError>)
    ensures
        match spec_json_document(content@) {
            JsonDocView::Invalid => r matches Err(e) && e@ == EspmErrorView::InvalidManifest(label@),
            d => r matches Ok(v) && opt_view(v) == doc_str(d, "version"@),
        },
{
    let doc = parse_json_document(content);
    if let JsonDoc::Invalid = doc {
        return Err(EspmError::InvalidManifest(label.to_owned()));
    }
    Ok(member_str(&doc, "version"))
}

/// The entries of a gzipped tarball, up to the first one that could not be
/// read: path and content of each, and whether the whole archive was read.
#[derive(Debug, Clone, PartialEq, Eq)]
pub struct TgzListing {
    pub entries: Vec<(String, Vec<u8>)>,
    pub complete: bool,
}

/// The mathematical form of a [`TgzListing`].
pub struct TgzListingView {
    pub entries: Seq<(Seq<char>, Seq<u8>)>,
    pub complete: bool,
}

impl View for TgzListing {
    type V = TgzListingView;

    open spec fn view(&self) -> TgzListingView {
        TgzListingView {
            entries: self.entries@.map_values(|e: (String, Vec<u8>)| (e.0@, e.1@)),
            complete: self.complete,
        }
    }
}

/// What reading `bytes` as a gzipped tar archive gives.
pub uninterp spec fn spec_tgz_listing(bytes: Seq<u8>) -> TgzListingView;

/// Reads `bytes` through `flate2::read::GzDecoder` and `tar::Archive::entries`:
/// each entry's path (`to_string_lossy`) and content, stopping at the first
/// entry that cannot be read.
#[verifier::external_body]
fn read_tgz_entries(bytes: &[u8]) -> (r: TgzListing)
    ensures
        r@ == spec_tgz_listing(bytes@),
{
    let mut out = TgzListing { entries: Vec::new(), complete: false };
    let mut archive = tar::Archive::new(flate2::read::GzDecoder::new(bytes));
    let iter = match archive.entries() { Ok(it) => it, Err(_) => return out };
    for entry in iter {
        let mut e = match entry { Ok(e) => e, Err(_) => return out };
        let path = match e.path() { Ok(p) => p.to_string_lossy().into_owned(), Err(_) => return out };
        let mut content = Vec::new();
        if std::io::Read::read_to_end(&mut e, &mut content).is_err() { return out; }
        out.entries.push((path, content));
    }
    out.complete = true;
    out
}

/// `String::from_utf8`: the text of `bytes` when they are valid UTF-8.
#[verifier::external_body]
fn utf8_text(bytes: &Vec<u8>) -> (r: Option<String>)
    ensures
        r is Some <==> valid_utf8(bytes@),
        r matches Some(s) ==> s@ == decode_utf8(bytes@),
{
    String::from_utf8(bytes.clone()).ok()
}

/// Index of the first path that ends in `package.json`, or -1.
pub open spec fn first_manifest_index(paths: Seq<Seq<char>>) -> int
    decreases paths.len(),
{
    if paths.len() == 0 {
        -1
    } else if has_suffix(paths[0], "package.json"@) {
        0
    } else {
        let r = first_manifest_index(paths.drop_first());
        if r < 0 {
            -1
        } else {
            r + 1
        }
    }
}

proof fn lemma_first_manifest_index(paths: Seq<Seq<char>>)
    ensures
        -1 <= first_manifest_index(paths) < paths.len(),
        first_manifest_index(paths) >= 0 ==> has_suffix(paths[first_manifest_index(paths)], "package.json"@),
        forall|j: int| 0 <= j < first_manifest_index(paths) ==> !has_suffix(#[trigger] paths[j], "package.json"@),
        first_manifest_index(paths) == -1 ==> forall|j: int| 0 <= j < paths.len() ==> !has_suffix(#[trigger] paths[j], "package.json"@),
    decreases paths.len(),
{
    if paths.len() > 0 && !has_suffix(paths[0], "package.json"@) {
        lemma_first_manifest_index(paths.drop_first());
        assert forall|j: int| 0 < j < paths.len() implies paths[j] == paths.drop_first()[j - 1] by {}
    }
}

/// The `package.json` text found in an archive listing: the first entry
/// whose path ends in `package.json`, decoded as UTF-8.
#[derive(Debug, Clone, PartialEq, Eq)]
pub enum ManifestSearch {
    /// No such entry in a complete listing.
    Absent,
    /// The archive, or that entry, could not be read.
    Unreadable,
    /// The text of the manifest.
    Found(String),
}

/// The outcome of searching a listing for its manifest.
pub open spec fn spec_manifest_search(l: TgzListingView) -> Result<Option<Seq<char>>, ()> {
    let i = first_manifest_index(l.entries.map_values(|e: (Seq<char>, Seq<u8>)| e.0));
    if i < 0 {
        if l.complete {
            Ok(None)
        } else {
            Err(())
        }
    } else if valid_utf8(l.entries[i].1) {
        Ok(Some(decode_utf8(l.entries[i].1)))
    } else {
        Err(())
    }
}

/// Finds the manifest text in an archive listing.
pub fn search_manifest(listing: &TgzListing) -> (r: ManifestSearch)
    ensures
        match r {
            ManifestSearch::Absent => spec_manifest_search(listing@) == Ok::<Option<Seq<char>>, ()>(None),
            ManifestSearch::Unreadable => spec_manifest_search(listing@) == Err::<Option<Seq<char>>, ()>(()),
            ManifestSearch::Found(s) => spec_manifest_search(listing@) == Ok::<Option<Seq<char>>, ()>(Some(s@)),
        },
{
    let ghost paths = listing@.entries.map_values(|e: (Seq<char>, Seq<u8>)| e.0);
    proof { lemma_first_manifest_index(paths); }
    let mut i: usize = 0;
    while i < listing.entries.len()
        invariant
            paths == listing@.entries.map_values(|e: (Seq<char>, Seq<u8>)| e.0),
            paths.len() == listing.entries@.len(),
            i <= paths.len(),
            forall|j: int| 0 <= j < i ==> !has_suffix(#[trigger] paths[j], "package.json"@),
            -1 <= first_manifest_index(paths) < paths.len(),
            first_manifest_index(paths) >= 0 ==> has_suffix(paths[first_manifest_index(paths)], "package.json"@),
            forall|j: int| 0 <= j < first_manifest_index(paths) ==> !has_suffix(#[trigger] paths[j], "package.json"@),
            first_manifest_index(paths) == -1 ==> forall|j: int| 0 <= j < paths.len() ==> !has_suffix(#[trigger] paths[j], "package.json"@),
        decreases paths.len() - i,
    {
        let c = chars_of(listing.entries[i].0.as_str());
        assert(paths[i as int] == listing.entries@[i as int].0@);
        if ends_with(c.as_slice(), "package.json") {
            assert(first_manifest_index(paths) == i);
            assert(listing@.entries[i as int].1 == listing.entries@[i as int].1@);
            return match utf8_text(&listing.entries[i].1) {
                Some(s) => ManifestSearch::Found(s),
                None => ManifestSearch::Unreadable,
            };
        }
        i = i + 1;
    }
    if listing.complete {
        ManifestSearch::Absent
    } else {
        ManifestSearch::Unreadable
    }
}

/// Scope, name and version of the manifest in a gzipped tarball (read from `label`).
pub open spec fn spec_tgz_manifest(bytes: Seq<u8>, label: Seq<char>) -> Result<(Option<Seq<char>>, Seq<char>, Option<Seq<char>>), EspmErrorView> {
    match spec_manifest_search(spec_tgz_listing(bytes)) {
        Err(_) => Err(EspmErrorView::UnreadableArchive(label)),
        Ok(None) => Err(EspmErrorView::ManifestNotFound(label)),
        Ok(Some(text)) => spec_manifest_identity(spec_json_document(text), label),
    }
}

/// Reads scope, name and version from the `package.json` in a gzipped tarball.
pub fn read_package_manifest_from_tgz_bytes(bytes: &[u8], source_label: &str) -> (r: Result<(Option<String>, String, Option<String>), EspmError>)
    ensures
        identity_result_view(r) == spec_tgz_manifest(bytes@, source_label@),
{
    let listing = read_tgz_entries(bytes);
    match search_manifest(&listing) {
        ManifestSearch::Unreadable => Err(EspmError::UnreadableArchive(source_label.to_owned())),
        ManifestSearch::Absent => Err(EspmError::ManifestNotFound(source_label.to_owned())),
        ManifestSearch::Found(text) => read_package_manifest_from_text(text.as_str(), source_label),
    }
}

/// Whether the package in a gzipped tarball is an ES module: false when it
/// has no manifest; an error when it cannot be read or its manifest is no JSON.
pub open spec fn spec_tgz_is_esm(bytes: Seq<u8>, label: Seq<char>) -> Result<bool, EspmErrorView> {
    match spec_manifest_search(spec_tgz_listing(bytes)) {
        Err(_) => Err(EspmErrorView::UnreadableArchive(label)),
        Ok(None) => Ok(false),
        Ok(Some(text)) => match spec_json_document(text) {
            JsonDocView::Invalid => Err(EspmErrorView::InvalidManifest(label)),
            d => Ok(spec_is_esm(d)),
        },
    }
}

/// Tells whether the package in a gzipped tarball is an ES module.
pub fn inspect_tgz_bytes_for_esm(bytes: &[u8], source_label: &str) -> (r: Result<bool, EspmError>)
    ensures
        match r {
            Ok(b) => spec_tgz_is_esm(bytes@, source_label@) == Ok::<bool, EspmErrorView>(b),
            Err(e) => spec_tgz_is_esm(bytes@, source_label@) == Err::<bool, EspmErrorView>(e@),
        },
{
    let listing = read_tgz_entries(bytes);
    match search_manifest(&listing) {
        ManifestSearch::Unreadable => Err(EspmError::UnreadableArchive(source_label.to_owned())),
        ManifestSearch::Absent => Ok(false),
        ManifestSearch::Found(text) => inspect_manifest_text_for_esm(text.as_str(), source_label),
    }
}

/// What to do with a package that does not appear to be an ES module.
#[derive(Debug, Clone, PartialEq, Eq)]
pub enum EsmVerdict {
    /// It is an ES module.
    Esm,
    /// It is not; warn and install it anyway.
    Warn,
    /// It is not and ES modules are required: refuse it.
    Reject,
}

/// The verdict on a package: ES modules pass; others are refused when
/// ES modules are required, else installed with a warning.
pub fn esm_verdict(is_esm: bool, require_esm: bool) -> (r: EsmVerdict)
    ensures
        is_esm ==> r is Esm,
        !is_esm && require_esm ==> r is Reject,
        !is_esm && !require_esm ==> r is Warn,
{
    if is_esm {
        EsmVerdict::Esm
    } else if require_esm {
        EsmVerdict::Reject
    } else {
        EsmVerdict::Warn
    }
}

} // verus!
