//! Package identifiers, keys and the file paths of packages and lockfiles.

use vstd::prelude::*;

use crate::error::{EspmError, EspmErrorView};
use crate::models::{InstallOptions, LockPackage};
use crate::specifier::{name_parts_view, opt_str_view, opt_view, split_name, split_package_name};
use crate::text::{
    chars_of, find, find_char, has_prefix, has_suffix, lemma_find_char, slice_of, starts_with,
    ends_with, string_of, strip_leading, substring, trim_chars, trim_start_char, trim_ws,
};

verus! {

/// `base` joined with `part` as `Path::join` does on Unix: an absolute
/// `part` replaces `base`; otherwise a `/` separates them unless `base` is
/// empty or already ends with `/`.
pub open spec fn spec_join(base: Seq<char>, part: Seq<char>) -> Seq<char> {
    if has_prefix(part, "/"@) {
        part
    } else if base.len() == 0 || has_suffix(base, "/"@) {
        base + part
    } else {
        base + "/"@ + part
    }
}

/// Joins two path strings as `Path::join` does on Unix.
pub fn join_path(base: &str, part: &str) -> (r: String)
    ensures
        r@ == spec_join(base@, part@),
{
    let pc = chars_of(part);
    let bc = chars_of(base);
    if starts_with(pc.as_slice(), "/") {
        part.to_owned()
    } else if bc.len() == 0 || ends_with(bc.as_slice(), "/") {
        let mut r = base.to_owned();
        r.append(part);
        r
    } else {
        let mut r = base.to_owned();
        r.append("/");
        r.append(part);
        r
    }
}

/// `@scope/name` (every leading `@` of the scope dropped) or `name`.
pub open spec fn spec_package_key(scope: Option<Seq<char>>, name: Seq<char>) -> Seq<char> {
    match scope {
        Some(s) => "@"@ + strip_leading(s, '@') + "/"@ + name,
        None => name,
    }
}

/// `kind:` followed by the package key.
pub open spec fn spec_package_id(kind: Seq<char>, scope: Option<Seq<char>>, name: Seq<char>) -> Seq<char> {
    kind + ":"@ + spec_package_key(scope, name)
}

/// The id of a package in the lockfile: `kind:@scope/name` or `kind:name`.
pub fn package_id(kind: &str, scope: Option<&str>, name: &str) -> (r: String)
    ensures
        r@ == spec_package_id(kind@, opt_str_view(scope), name@),
{
    let mut r = kind.to_owned();
    r.append(":");
    r.append(package_key(scope, name).as_str());
    proof {
        assert(r@ =~= spec_package_id(kind@, opt_str_view(scope), name@));
    }
    r
}

/// The key of a package in an import map: `@scope/name` or `name`.
pub fn package_key(scope: Option<&str>, name: &str) -> (r: String)
    ensures
        r@ == spec_package_key(opt_str_view(scope), name@),
{
    match scope {
        Some(s) => {
            let mut r = "@".to_owned();
            r.append(trim_start_char(s, '@').as_str());
            r.append("/");
            r.append(name);
            r
        },
        None => name.to_owned(),
    }
}

/// The display name of an npm package: `@scope/name` or `name`.
pub fn npm_package_display(scope: Option<&str>, name: &str) -> (r: String)
    ensures
        r@ == spec_package_key(opt_str_view(scope), name@),
{
    package_key(scope, name)
}

/// Scope and name of a package key: the split of `split_package_name`, else
/// the whole key as an unscoped name, unless it is empty or white space.
pub open spec fn spec_parse_package_key(input: Seq<char>) -> Result<(Option<Seq<char>>, Seq<char>), EspmErrorView> {
    match split_package_name(input) {
        Some(p) => Ok(p),
        None => if trim_ws(input).len() == 0 {
            Err(EspmErrorView::EmptyPackageKey)
        } else {
            Ok((None, input))
        },
    }
}

/// The view of a scope-and-name result.
pub open spec fn parts_result_view(r: Result<(Option<String>, String), EspmError>) -> Result<(Option<Seq<char>>, Seq<char>), EspmErrorView> {
    match r {
        Ok((s, n)) => Ok((opt_view(s), n@)),
        Err(e) => Err(e@),
    }
}

/// Splits a package key into scope and name.
pub fn parse_package_key(input: &str) -> (r: Result<(Option<String>, String), EspmError>)
    ensures
        parts_result_view(r) == spec_parse_package_key(input@),
{
    let v = chars_of(input);
    match split_name(v.as_slice()) {
        Some(p) => Ok(p),
        None => {
            let t = trim_chars(input);
            if t.len() == 0 {
                Err(EspmError::EmptyPackageKey)
            } else {
                Ok((None, input.to_owned()))
            }
        },
    }
}

/// Kind, scope and name of a lock package id `kind:key`, split at the first `:`.
pub open spec fn spec_parse_lock_package_id(id: Seq<char>) -> Result<(Seq<char>, Option<Seq<char>>, Seq<char>), EspmErrorView> {
    let c = find_char(id, ':');
    if c < 0 {
        Err(EspmErrorView::InvalidLockPackageId(id))
    } else {
        match spec_parse_package_key(id.subrange(c + 1, id.len() as int)) {
            Ok((scope, name)) => Ok((id.subrange(0, c), scope, name)),
            Err(e) => Err(e),
        }
    }
}

/// The view of a kind-scope-name result.
pub open spec fn id_result_view(r: Result<(String, Option<String>, String), EspmError>) -> Result<(Seq<char>, Option<Seq<char>>, Seq<char>), EspmErrorView> {
    match r {
        Ok((k, s, n)) => Ok((k@, opt_view(s), n@)),
        Err(e) => Err(e@),
    }
}

/// Splits a lock package id into kind, scope and name.
pub fn parse_lock_package_id(id: &str) -> (r: Result<(String, Option<String>, String), EspmError>)
    ensures
        id_result_view(r) == spec_parse_lock_package_id(id@),
{
    let v = chars_of(id);
    proof { lemma_find_char(v@, ':'); }
    match find(v.as_slice(), ':') {
        Some(c) => {
            let kind = substring(v.as_slice(), 0, c);
            let rest = substring(v.as_slice(), c + 1, v.len());
            match parse_package_key(rest.as_str()) {
                Ok((scope, name)) => Ok((kind, scope, name)),
                Err(e) => Err(e),
            }
        },
        None => Err(EspmError::InvalidLockPackageId(id.to_owned())),
    }
}

/// Scope and name from the `name` field of a `package.json`.
pub fn parse_package_name_field(name: &str) -> (r: Result<(Option<String>, String), EspmError>)
    ensures
        parts_result_view(r) == match split_package_name(name@) {
            Some(p) => Ok(p),
            None => Err(EspmErrorView::InvalidPackageName(name@)),
        },
{
    let v = chars_of(name);
    match split_name(v.as_slice()) {
        Some(p) => Ok(p),
        None => Err(EspmError::InvalidPackageName(name.to_owned())),
    }
}

/// The path of a `file:` package: `raw_path` itself when absolute, else
/// joined to `base_dir`.
pub fn resolve_file_source_path(base_dir: &str, raw_path: &str) -> (r: String)
    ensures
        r@ == if has_prefix(raw_path@, "/"@) {
            raw_path@
        } else {
            spec_join(base_dir@, raw_path@)
        },
{
    let rc = chars_of(raw_path);
    if starts_with(rc.as_slice(), "/") {
        raw_path.to_owned()
    } else {
        join_path(base_dir, raw_path)
    }
}

/// The lockfile path in `base_dir`.
pub fn preferred_lockfile_path(base_dir: &str) -> (r: String)
    ensures
        r@ == spec_join(base_dir@, "espm-lock.json"@),
{
    join_path(base_dir, "espm-lock.json")
}

/// The path under which older versions kept the lockfile; it is the same file.
pub fn legacy_lockfile_path(base_dir: &str) -> (r: String)
    ensures
        r@ == spec_join(base_dir@, "espm-lock.json"@),
{
    join_path(base_dir, "espm-lock.json")
}

/// A locked package is installed unless it is a dev dependency and dev
/// dependencies are not included.
pub fn should_install_locked_package(options: InstallOptions, package: &LockPackage) -> (r: bool)
    ensures
        r == (options.include_dev || !package.dev),
{
    options.include_dev || !package.dev
}

/// The sort key of a lock entry: `id@resolved_version`.
pub fn lock_key_for_sort(entry: &LockPackage) -> (r: String)
    ensures
        r@ == entry.id@ + "@"@ + entry.resolved_version@,
{
    let mut r = entry.id.clone();
    r.append("@");
    r.append(entry.resolved_version.as_str());
    r
}

/// The directory of an installed package: `./node_modules/@scope/name`
/// for a non-empty scope (leading `@`s dropped), else `./node_modules/name`.
pub open spec fn spec_package_install_path(scope: Option<Seq<char>>, name: Seq<char>) -> Seq<char> {
    match scope {
        Some(s) if s.len() > 0 => spec_join(
            spec_join("./node_modules"@, "@"@ + strip_leading(s, '@')),
            name,
        ),
        _ => spec_join("./node_modules"@, name),
    }
}

/// The directory into which a package is installed.
pub fn package_install_path(scope: Option<&str>, name: &str) -> (r: String)
    ensures
        r@ == spec_package_install_path(opt_str_view(scope), name@),
{
    match scope {
        Some(s) => {
            if s.is_empty() {
                join_path("./node_modules", name)
            } else {
                let mut dir = "@".to_owned();
                dir.append(trim_start_char(s, '@').as_str());
                let scoped = join_path("./node_modules", dir.as_str());
                join_path(scoped.as_str(), name)
            }
        },
        None => join_path("./node_modules", name),
    }
}

/// A package need not be installed again when the version found installed
/// is the expected one.
pub fn should_skip_reinstall(installed_version: Option<&str>, expected_version: &str) -> (r: bool)
    ensures
        r == (opt_str_view(installed_version) == Some(expected_version@)),
{
    match installed_version {
        Some(v) => crate::text::str_eq(v, expected_version),
        None => false,
    }
}


/// The installed directory of the package with key `key`.
pub fn package_dir_for_key(key: &str) -> (r: String)
    ensures
        r@ == spec_join("./node_modules"@, key@),
{
    join_path("./node_modules", key)
}

/// The scope directory of a scoped package key `@scope/name`: the part
/// before the first `/`, under `./node_modules`.
pub fn scope_dir_for_key(key: &str) -> (r: Option<String>)
    ensures
        match r {
            Some(d) => has_prefix(key@, "@"@) && find_char(key@, '/') >= 0
                && d@ == spec_join("./node_modules"@, key@.subrange(0, find_char(key@, '/'))),
            None => !(has_prefix(key@, "@"@) && find_char(key@, '/') >= 0),
        },
{
    let v = chars_of(key);
    if !starts_with(v.as_slice(), "@") {
        return None;
    }
    proof { lemma_find_char(v@, '/'); }
    match find(v.as_slice(), '/') {
        Some(i) => {
            let scope = substring(v.as_slice(), 0, i);
            Some(join_path("./node_modules", scope.as_str()))
        },
        None => None,
    }
}

} // verus!
