//! What the package manager takes from registry metadata: the version to
//! install, its tarball and its dependencies.

use vstd::prelude::*;

use crate::error::{EspmError, EspmErrorView};
use crate::import_map::strings_view;
use crate::jsr_npm::{JsrNpmRegistryResponse, NPMRegistryResponse};
use crate::models::{pairs_view, ResolvedPackage, ResolvedPackageView};
use crate::paths::{package_id, spec_package_id};
use crate::specifier::{opt_str_view, requested_specifier_from_parts, spec_requested_specifier};
use crate::text::{str_eq, strip_leading, trim_start_char};
use crate::versions::{select_latest_compatible_version, select_spec, str_result_view};

verus! {

/// Index of the first `x` in `s`, or -1.
pub open spec fn index_of<A>(s: Seq<A>, x: A) -> int
    decreases s.len(),
{
    if s.len() == 0 {
        -1
    } else if s[0] == x {
        0
    } else {
        let r = index_of(s.drop_first(), x);
        if r < 0 {
            -1
        } else {
            r + 1
        }
    }
}

pub proof fn lemma_index_of<A>(s: Seq<A>, x: A)
    ensures
        -1 <= index_of(s, x) < s.len(),
        index_of(s, x) >= 0 ==> s[index_of(s, x)] == x,
        forall|j: int| 0 <= j < index_of(s, x) ==> s[j] != x,
        index_of(s, x) == -1 ==> forall|j: int| 0 <= j < s.len() ==> s[j] != x,
    decreases s.len(),
{
    if s.len() > 0 && s[0] != x {
        lemma_index_of(s.drop_first(), x);
        assert forall|j: int| 0 < j < s.len() implies s[j] == s.drop_first()[j - 1] by {}
    }
}

/// The keys of a list of pairs.
pub open spec fn keys_of<V>(v: Seq<(String, V)>) -> Seq<Seq<char>> {
    v.map_values(|e: (String, V)| e.0@)
}

/// Position of the first entry with key `key`.
pub fn find_entry<V>(entries: &Vec<(String, V)>, key: &str) -> (r: Option<usize>)
    ensures
        match r {
            Some(i) => i as int == index_of(keys_of(entries@), key@),
            None => index_of(keys_of(entries@), key@) == -1,
        },
{
    let ghost ks = keys_of(entries@);
    proof { lemma_index_of(ks, key@); }
    let mut i: usize = 0;
    while i < entries.len()
        invariant
            ks == keys_of(entries@),
            i <= entries@.len(),
            forall|j: int| 0 <= j < i ==> ks[j] != key@,
            -1 <= index_of(ks, key@) < ks.len(),
            index_of(ks, key@) >= 0 ==> ks[index_of(ks, key@)] == key@,
            forall|j: int| 0 <= j < index_of(ks, key@) ==> ks[j] != key@,
            index_of(ks, key@) == -1 ==> forall|j: int| 0 <= j < ks.len() ==> ks[j] != key@,
        decreases entries@.len() - i,
    {
        assert(ks[i as int] == entries@[i as int].0@);
        if str_eq(entries[i].0.as_str(), key) {
            proof {
                if index_of(ks, key@) != i {
                    assert(index_of(ks, key@) > i || index_of(ks, key@) == -1);
                }
            }
            return Some(i);
        }
        i = i + 1;
    }
    proof {
        if index_of(ks, key@) >= 0 {
            assert(ks[index_of(ks, key@)] == key@);
        }
    }
    None
}

/// No key occurs twice among the entries, as in the JSON object they were
/// read from.
pub open spec fn unique_keys<V>(v: Seq<(String, V)>) -> bool {
    forall|i: int, j: int|
        0 <= i < v.len() && 0 <= j < v.len() && i != j ==> #[trigger] v[i].0@ != #[trigger] v[j].0@
}

impl JsrNpmRegistryResponse {
    /// Its dist-tags and its versions are keyed each once.
    pub open spec fn wf(&self) -> bool {
        unique_keys(self.dist_tags@) && unique_keys(self.versions@)
    }
}

impl NPMRegistryResponse {
    /// Its dist-tags and its versions are keyed each once.
    pub open spec fn wf(&self) -> bool {
        unique_keys(self.dist_tags@) && unique_keys(self.versions@)
    }
}

/// Among keys that occur once each, the first position of a key is its only one.
pub proof fn lemma_index_of_unique_key<V>(v: Seq<(String, V)>, k: int)
    requires
        unique_keys(v),
        0 <= k < v.len(),
    ensures
        index_of(keys_of(v), v[k].0@) == k,
{
    let ks = keys_of(v);
    lemma_index_of(ks, v[k].0@);
    let i = index_of(ks, v[k].0@);
    assert(ks[k] == v[k].0@);
    if i != k {
        assert(ks[i] == v[i].0@);
    }
}

/// Law: with each dist-tag once, the `latest` tag is the value of the entry
/// keyed `latest`, wherever it stands in the list.
pub proof fn lemma_latest_tag_of_unique_keys(tags: Seq<(String, String)>, k: int)
    requires
        unique_keys(tags),
        0 <= k < tags.len(),
        tags[k].0@ == "latest"@,
    ensures
        spec_latest_tag(pairs_view(tags)) == Some(tags[k].1@),
{
    lemma_index_of_unique_key(tags, k);
    assert(pairs_view(tags).map_values(|p: (Seq<char>, Seq<char>)| p.0) =~= keys_of(tags));
}

/// The keys of a list of pairs, in order.
pub fn version_keys<V>(versions: &Vec<(String, V)>) -> (r: Vec<String>)
    ensures
        strings_view(r@) == keys_of(versions@),
{
    let mut r: Vec<String> = Vec::new();
    let mut i: usize = 0;
    while i < versions.len()
        invariant
            i <= versions@.len(),
            strings_view(r@) == keys_of(versions@).take(i as int),
        decreases versions@.len() - i,
    {
        let k = versions[i].0.clone();
        assert(keys_of(versions@)[i as int] == k@);
        let ghost old_r = r@;
        r.push(k);
        assert(strings_view(r@) =~= strings_view(old_r).push(k@));
        assert(keys_of(versions@).take(i + 1) =~= keys_of(versions@).take(i as int).push(k@));
        i = i + 1;
    }
    assert(keys_of(versions@).take(i as int) =~= keys_of(versions@));
    r
}

/// The `latest` dist-tag: the value of the first `latest` entry.
pub open spec fn spec_latest_tag(tags: Seq<(Seq<char>, Seq<char>)>) -> Option<Seq<char>> {
    let i = index_of(tags.map_values(|p: (Seq<char>, Seq<char>)| p.0), "latest"@);
    if i < 0 {
        None
    } else {
        Some(tags[i].1)
    }
}

/// The `latest` dist-tag of a registry response.
pub fn latest_tag(tags: &Vec<(String, String)>) -> (r: Option<&str>)
    ensures
        opt_str_view(r) == spec_latest_tag(pairs_view(tags@)),
{
    proof {
        assert(pairs_view(tags@).map_values(|p: (Seq<char>, Seq<char>)| p.0) =~= keys_of(tags@));
        lemma_index_of(keys_of(tags@), "latest"@);
    }
    match find_entry(tags, "latest") {
        Some(i) => {
            assert(pairs_view(tags@)[i as int].1 == tags@[i as int].1@);
            Some(tags[i].1.as_str())
        },
        None => None,
    }
}

/// A copy of a list of string pairs.
pub fn clone_pairs(v: &Vec<(String, String)>) -> (r: Vec<(String, String)>)
    ensures
        pairs_view(r@) == pairs_view(v@),
{
    let mut r: Vec<(String, String)> = Vec::new();
    let mut i: usize = 0;
    while i < v.len()
        invariant
            i <= v@.len(),
            pairs_view(r@) == pairs_view(v@).take(i as int),
        decreases v@.len() - i,
    {
        let k = v[i].0.clone();
        let x = v[i].1.clone();
        assert(pairs_view(v@)[i as int] == (k@, x@));
        let ghost old_r = r@;
        r.push((k, x));
        assert(pairs_view(r@) =~= pairs_view(old_r).push((k@, x@)));
        assert(pairs_view(v@).take(i + 1) =~= pairs_view(v@).take(i as int).push((k@, x@)));
        i = i + 1;
    }
    assert(pairs_view(v@).take(i as int) =~= pairs_view(v@));
    r
}

/// The dependencies of a version: none when the field is absent.
pub open spec fn deps_view(o: Option<Vec<(String, String)>>) -> Seq<(Seq<char>, Seq<char>)> {
    match o {
        Some(v) => pairs_view(v@),
        None => Seq::empty(),
    }
}

fn clone_deps(o: &Option<Vec<(String, String)>>) -> (r: Vec<(String, String)>)
    ensures
        pairs_view(r@) == deps_view(*o),
{
    match o {
        Some(v) => clone_pairs(v),
        None => {
            let r: Vec<(String, String)> = Vec::new();
            assert(pairs_view(r@) =~= Seq::<(Seq<char>, Seq<char>)>::empty());
            r
        },
    }
}

/// The optional scope without its leading `@`s.
pub open spec fn stripped_scope(scope: Option<Seq<char>>) -> Option<Seq<char>> {
    match scope {
        Some(s) => Some(strip_leading(s, '@')),
        None => None,
    }
}

/// The package that resolving `name` in the registry of `kind` to `version`
/// gives: id, specifier, scope without `@`, requirement, tarball and
/// dependencies of that version.
pub open spec fn spec_registry_resolved(
    kind: Seq<char>,
    scope: Option<Seq<char>>,
    name: Seq<char>,
    requirement: Option<Seq<char>>,
    dev: bool,
    version: Seq<char>,
    tarball: Seq<char>,
    dependencies: Seq<(Seq<char>, Seq<char>)>,
) -> ResolvedPackageView {
    ResolvedPackageView {
        kind,
        key: spec_package_id(kind, scope, name),
        source: spec_requested_specifier(kind, scope, name, version),
        scope: stripped_scope(scope),
        name,
        requested: requirement,
        version,
        tarball,
        dependencies,
        dev,
    }
}

/// The view of a resolution result.
pub open spec fn resolved_result_view(r: Result<ResolvedPackage, EspmError>) -> Result<ResolvedPackageView, EspmErrorView> {
    match r {
        Ok(p) => Ok(p@),
        Err(e) => Err(e@),
    }
}

fn make_resolved(
    kind: &str,
    scope: Option<&str>,
    name: &str,
    requirement: Option<&str>,
    dev: bool,
    version: String,
    tarball: &String,
    dependencies: &Option<Vec<(String, String)>>,
) -> (r: ResolvedPackage)
    ensures
        r@ == spec_registry_resolved(
            kind@,
            opt_str_view(scope),
            name@,
            opt_str_view(requirement),
            dev,
            version@,
            tarball@,
            deps_view(*dependencies),
        ),
{
    let key = package_id(kind, scope, name);
    let source = requested_specifier_from_parts(kind, scope, name, version.as_str());
    let stripped = match scope {
        Some(s) => Some(trim_start_char(s, '@')),
        None => None,
    };
    let requested = match requirement {
        Some(q) => Some(q.to_owned()),
        None => None,
    };
    ResolvedPackage {
        kind: kind.to_owned(),
        key,
        source,
        scope: stripped,
        name: name.to_owned(),
        requested,
        version,
        tarball: tarball.clone(),
        dependencies: clone_deps(dependencies),
        dev,
    }
}

/// The version of an npm package to install, chosen from its metadata.
pub fn latest_npm_version(data: &NPMRegistryResponse, requirement: Option<&str>) -> (r: Result<String, EspmError>)
    ensures
        select_spec(
            keys_of(data.versions@),
            spec_latest_tag(pairs_view(data.dist_tags@)),
            opt_str_view(requirement),
            str_result_view(r),
        ),
{
    let keys = version_keys(&data.versions);
    select_latest_compatible_version(&keys, latest_tag(&data.dist_tags), requirement)
}

/// The version of a JSR package to install, chosen from its metadata.
pub fn latest_jsr_version(data: &JsrNpmRegistryResponse, requirement: Option<&str>) -> (r: Result<String, EspmError>)
    ensures
        select_spec(
            keys_of(data.versions@),
            spec_latest_tag(pairs_view(data.dist_tags@)),
            opt_str_view(requirement),
            str_result_view(r),
        ),
{
    let keys = version_keys(&data.versions);
    select_latest_compatible_version(&keys, latest_tag(&data.dist_tags), requirement)
}

/// Resolves an npm package from its registry metadata: the version chosen
/// as `latest_npm_version` says, and that version's tarball and dependencies.
pub fn resolved_package_from_npm(
    scope: Option<&str>,
    name: &str,
    requirement: Option<&str>,
    dev: bool,
    data: &NPMRegistryResponse,
) -> (r: Result<ResolvedPackage, EspmError>)
    ensures
        exists|sel: Result<Seq<char>, EspmErrorView>|
            select_spec(
                keys_of(data.versions@),
                spec_latest_tag(pairs_view(data.dist_tags@)),
                opt_str_view(requirement),
                sel,
            ) && match sel {
                Err(e) => resolved_result_view(r) == Err::<ResolvedPackageView, EspmErrorView>(e),
                Ok(v) => {
                    let k = index_of(keys_of(data.versions@), v);
                    if k < 0 {
                        resolved_result_view(r) == Err::<ResolvedPackageView, EspmErrorView>(
                            EspmErrorView::VersionNotFound(v),
                        )
                    } else {
                        resolved_result_view(r) == Ok::<ResolvedPackageView, EspmErrorView>(
                            spec_registry_resolved(
                                "npm"@,
                                opt_str_view(scope),
                                name@,
                                opt_str_view(requirement),
                                dev,
                                v,
                                data.versions@[k].1.dist.tarball@,
                                deps_view(data.versions@[k].1.dependencies),
                            ),
                        )
                    }
                },
            },
{
    let version = match latest_npm_version(data, requirement) {
        Ok(v) => v,
        Err(e) => {
            assert(select_spec(
                keys_of(data.versions@),
                spec_latest_tag(pairs_view(data.dist_tags@)),
                opt_str_view(requirement),
                str_result_view(Err::<String, EspmError>(e)),
            ));
            return Err(e);
        },
    };
    let ghost sel = str_result_view(Ok::<String, EspmError>(version));
    proof { lemma_index_of(keys_of(data.versions@), version@); }
    match find_entry(&data.versions, version.as_str()) {
        Some(k) => {
            let info = &data.versions[k].1;
            let p = make_resolved("npm", scope, name, requirement, dev, version, &info.dist.tarball, &info.dependencies);
            assert(sel matches Ok(v) && index_of(keys_of(data.versions@), v) == k);
            Ok(p)
        },
        None => Err(EspmError::VersionNotFound(version)),
    }
}

/// Resolves a JSR package `@scope/name` from the metadata of its npm mirror.
pub fn resolved_package_from_jsr(
    scope: &str,
    name: &str,
    requirement: Option<&str>,
    dev: bool,
    data: &JsrNpmRegistryResponse,
) -> (r: Result<ResolvedPackage, EspmError>)
    ensures
        exists|sel: Result<Seq<char>, EspmErrorView>|
            select_spec(
                keys_of(data.versions@),
                spec_latest_tag(pairs_view(data.dist_tags@)),
                opt_str_view(requirement),
                sel,
            ) && match sel {
                Err(e) => resolved_result_view(r) == Err::<ResolvedPackageView, EspmErrorView>(e),
                Ok(v) => {
                    let k = index_of(keys_of(data.versions@), v);
                    if k < 0 {
                        resolved_result_view(r) == Err::<ResolvedPackageView, EspmErrorView>(
                            EspmErrorView::VersionNotFound(v),
                        )
                    } else {
                        resolved_result_view(r) == Ok::<ResolvedPackageView, EspmErrorView>(
                            spec_registry_resolved(
                                "jsr"@,
                                Some(scope@),
                                name@,
                                opt_str_view(requirement),
                                dev,
                                v,
                                data.versions@[k].1.dist.tarball@,
                                deps_view(data.versions@[k].1.dependencies),
                            ),
                        )
                    }
                },
            },
{
    let version = match latest_jsr_version(data, requirement) {
        Ok(v) => v,
        Err(e) => {
            assert(select_spec(
                keys_of(data.versions@),
                spec_latest_tag(pairs_view(data.dist_tags@)),
                opt_str_view(requirement),
                str_result_view(Err::<String, EspmError>(e)),
            ));
            return Err(e);
        },
    };
    let ghost sel = str_result_view(Ok::<String, EspmError>(version));
    proof { lemma_index_of(keys_of(data.versions@), version@); }
    match find_entry(&data.versions, version.as_str()) {
        Some(k) => {
            let info = &data.versions[k].1;
            let p = make_resolved("jsr", Some(scope), name, requirement, dev, version, &info.dist.tarball, &info.dependencies);
            assert(sel matches Ok(v) && index_of(keys_of(data.versions@), v) == k);
            Ok(p)
        },
        None => Err(EspmError::VersionNotFound(version)),
    }
}

/// The tarball of a JSR package version: for `latest` the first version
/// listed, else the version of that name.
pub fn jsr_tarball_for_version(data: &JsrNpmRegistryResponse, version: &str) -> (r: Result<String, EspmError>)
    ensures
        str_result_view(r) == if version@ == "latest"@ {
            if data.versions@.len() == 0 {
                Err(EspmErrorView::NoVersionsAvailable)
            } else {
                Ok(data.versions@[0].1.dist.tarball@)
            }
        } else {
            let k = index_of(keys_of(data.versions@), version@);
            if k < 0 {
                Err(EspmErrorView::VersionNotFound(version@))
            } else {
                Ok(data.versions@[k].1.dist.tarball@)
            }
        },
{
    proof { lemma_index_of(keys_of(data.versions@), version@); }
    if str_eq(version, "latest") {
        if data.versions.len() == 0 {
            Err(EspmError::NoVersionsAvailable)
        } else {
            Ok(data.versions[0].1.dist.tarball.clone())
        }
    } else {
        match find_entry(&data.versions, version) {
            Some(k) => Ok(data.versions[k].1.dist.tarball.clone()),
            None => Err(EspmError::VersionNotFound(version.to_owned())),
        }
    }
}

} // verus!
