//! Package specifiers (`jsr:`, `npm:`, `file:`, `http(s)://`) and the
//! names, URLs and specifier strings built from their parts.

use vstd::prelude::*;

use crate::error::{EspmError, EspmErrorView};
use crate::text::{
    chars_of, contains_char, find, lemma_find_char, lemma_rfind_char, find_char, has_prefix, rfind, rfind_char, slice_of, starts_with,
    str_eq, string_of, strip_leading, substring, trim_chars, trim_start_char, trim_ws,
};

verus! {

/// The view of an optional string.
pub open spec fn opt_view(o: Option<String>) -> Option<Seq<char>> {
    match o {
        Some(s) => Some(s@),
        None => None,
    }
}

/// The view of an optional scope and a name.
pub open spec fn name_parts_view(o: Option<(Option<String>, String)>) -> Option<(Option<Seq<char>>, Seq<char>)> {
    match o {
        Some((scope, name)) => Some((opt_view(scope), name@)),
        None => None,
    }
}

/// A parsed package specifier.
#[derive(Debug, Clone, PartialEq, Eq)]
pub struct Specifier {
    /// The specifier text, without surrounding white space.
    pub source: String,
    /// One of `jsr`, `npm`, `file`, `http`, `https`.
    pub kind: String,
    /// The scope of `@scope/name`, without `@`.
    pub scope: Option<String>,
    /// The package name (registry specifiers only).
    pub name: Option<String>,
    /// The version or requirement after the last `@`.
    pub version: Option<String>,
    /// The path of a `file:` specifier.
    pub path: Option<String>,
}

/// The mathematical form of a [`Specifier`].
pub struct SpecifierView {
    pub source: Seq<char>,
    pub kind: Seq<char>,
    pub scope: Option<Seq<char>>,
    pub name: Option<Seq<char>>,
    pub version: Option<Seq<char>>,
    pub path: Option<Seq<char>>,
}

impl View for Specifier {
    type V = SpecifierView;

    open spec fn view(&self) -> SpecifierView {
        SpecifierView {
            source: self.source@,
            kind: self.kind@,
            scope: opt_view(self.scope),
            name: opt_view(self.name),
            version: opt_view(self.version),
            path: opt_view(self.path),
        }
    }
}

/// Splits `rest` (a registry specifier without its `jsr:`/`npm:` prefix) at
/// its last `@` into the package name and the version, when the `@` is not
/// the first character and what follows it is non-empty and has no `/`.
pub open spec fn split_version(rest: Seq<char>) -> (Seq<char>, Option<Seq<char>>) {
    let at = rfind_char(rest, '@');
    let v = rest.subrange(at + 1, rest.len() as int);
    if at > 0 && v.len() > 0 && !v.contains('/') {
        (rest.subrange(0, at), Some(v))
    } else {
        (rest, None)
    }
}

/// Splits a package name into scope and name: `@scope/name` (both parts
/// non-empty, split at the first `/`) or an unscoped name that is non-empty
/// and has no `/`.
pub open spec fn split_package_name(full: Seq<char>) -> Option<(Option<Seq<char>>, Seq<char>)> {
    if full.len() > 0 && full[0] == '@' {
        let stripped = full.drop_first();
        let slash = find_char(stripped, '/');
        if slash > 0 && slash + 1 < stripped.len() {
            Some(
                (
                    Some(stripped.subrange(0, slash)),
                    stripped.subrange(slash + 1, stripped.len() as int),
                ),
            )
        } else {
            None
        }
    } else if full.len() == 0 || full.contains('/') {
        None
    } else {
        Some((None, full))
    }
}

/// What `Specifier::from_string` gives for `input`.
pub open spec fn spec_parse_specifier(input: Seq<char>) -> Result<SpecifierView, EspmErrorView> {
    let s = trim_ws(input);
    if has_prefix(s, "jsr:"@) || has_prefix(s, "npm:"@) {
        let kind = if has_prefix(s, "jsr:"@) {
            "jsr"@
        } else {
            "npm"@
        };
        let rest = s.subrange(4, s.len() as int);
        if rest.len() == 0 {
            Err(EspmErrorView::EmptyPackageSpecifier(s))
        } else {
            let (full, version) = split_version(rest);
            match split_package_name(full) {
                Some((scope, name)) => Ok(
                    SpecifierView {
                        source: s,
                        kind,
                        scope,
                        name: Some(name),
                        version,
                        path: None,
                    },
                ),
                None => if full.len() > 0 && full[0] == '@' {
                    Err(EspmErrorView::InvalidScopedName(full))
                } else {
                    Err(EspmErrorView::InvalidUnscopedName(full))
                },
            }
        }
    } else if has_prefix(s, "file:"@) {
        Ok(
            SpecifierView {
                source: s,
                kind: "file"@,
                scope: None,
                name: None,
                version: None,
                path: Some(s.subrange(5, s.len() as int)),
            },
        )
    } else if has_prefix(s, "http://"@) || has_prefix(s, "https://"@) {
        Ok(
            SpecifierView {
                source: s,
                kind: if has_prefix(s, "https://"@) {
                    "https"@
                } else {
                    "http"@
                },
                scope: None,
                name: None,
                version: None,
                path: None,
            },
        )
    } else {
        Err(EspmErrorView::InvalidSpecifier(s))
    }
}

/// The view of a parse result.
pub open spec fn specifier_result_view(r: Result<Specifier, EspmError>) -> Result<SpecifierView, EspmErrorView> {
    match r {
        Ok(s) => Ok(s@),
        Err(e) => Err(e@),
    }
}

/// Splits `full` into scope and name, as `split_package_name` says.
pub fn split_name(full: &[char]) -> (r: Option<(Option<String>, String)>)
    ensures
        name_parts_view(r) == split_package_name(full@),
{
    if full.len() > 0 && full[0] == '@' {
        let stripped = slice_of(full, 1, full.len());
        assert(stripped@ =~= full@.drop_first());
        proof { lemma_find_char(stripped@, '/'); }
        match find(stripped.as_slice(), '/') {
            Some(slash) => {
                if slash > 0 && slash + 1 < stripped.len() {
                    let scope = substring(stripped.as_slice(), 0, slash);
                    let name = substring(stripped.as_slice(), slash + 1, stripped.len());
                    Some((Some(scope), name))
                } else {
                    None
                }
            },
            None => None,
        }
    } else if full.len() == 0 || contains_char(full, '/') {
        None
    } else {
        Some((None, string_of(full)))
    }
}

impl Specifier {
    /// Parses a package specifier; surrounding white space is ignored.
    pub fn from_string(source: &str) -> (r: Result<Specifier, EspmError>)
        ensures
            specifier_result_view(r) == spec_parse_specifier(source@),
    {
        proof {
            reveal_strlit("jsr:");
            reveal_strlit("npm:");
            reveal_strlit("file:");
            reveal_strlit("http://");
            reveal_strlit("https://");
        }
        let v = trim_chars(source);
        let src = string_of(v.as_slice());
        let is_jsr = starts_with(v.as_slice(), "jsr:");
        if is_jsr || starts_with(v.as_slice(), "npm:") {
            let kind = if is_jsr {
                "jsr".to_owned()
            } else {
                "npm".to_owned()
            };
            let rest = slice_of(v.as_slice(), 4, v.len());
            if rest.len() == 0 {
                return Err(EspmError::EmptyPackageSpecifier(src));
            }
            let mut full = rest.clone();
            let mut version: Option<String> = None;
            assert(full@ =~= rest@);
            proof { lemma_rfind_char(rest@, '@'); }
            match rfind(rest.as_slice(), '@') {
                Some(at) => {
                    if at > 0 {
                        let pv = slice_of(rest.as_slice(), at + 1, rest.len());
                        if pv.len() > 0 && !contains_char(pv.as_slice(), '/') {
                            full = slice_of(rest.as_slice(), 0, at);
                            version = Some(string_of(pv.as_slice()));
                        }
                    }
                },
                None => {},
            }
            assert(split_version(rest@) == (full@, opt_view(version)));
            match split_name(full.as_slice()) {
                Some((scope, name)) => Ok(
                    Specifier {
                        source: src,
                        kind,
                        scope,
                        name: Some(name),
                        version,
                        path: None,
                    },
                ),
                None => {
                    if full.len() > 0 && full[0] == '@' {
                        Err(EspmError::InvalidScopedName(string_of(full.as_slice())))
                    } else {
                        Err(EspmError::InvalidUnscopedName(string_of(full.as_slice())))
                    }
                },
            }
        } else if starts_with(v.as_slice(), "file:") {
            let path = substring(v.as_slice(), 5, v.len());
            Ok(
                Specifier {
                    source: src,
                    kind: "file".to_owned(),
                    scope: None,
                    name: None,
                    version: None,
                    path: Some(path),
                },
            )
        } else {
            let is_https = starts_with(v.as_slice(), "https://");
            if is_https || starts_with(v.as_slice(), "http://") {
                let kind = if is_https {
                    "https".to_owned()
                } else {
                    "http".to_owned()
                };
                Ok(
                    Specifier {
                        source: src,
                        kind,
                        scope: None,
                        name: None,
                        version: None,
                        path: None,
                    },
                )
            } else {
                Err(EspmError::InvalidSpecifier(src))
            }
        }
    }
}


/// The npm name under which JSR serves `@scope/name`: `@jsr/<scope>__<name>`,
/// with every leading `@` of `scope` removed.
pub open spec fn spec_jsr_npm_name(scope: Seq<char>, name: Seq<char>) -> Seq<char> {
    "@jsr/"@ + strip_leading(scope, '@') + "__"@ + name
}

/// Maps a JSR package `@scope/name` to its npm name `@jsr/scope__name`.
pub fn jsr_package_to_npm_package(scope: &str, name: &str) -> (r: String)
    ensures
        r@ == spec_jsr_npm_name(scope@, name@),
{
    let mut r = "@jsr/".to_owned();
    r.append(trim_start_char(scope, '@').as_str());
    r.append("__");
    r.append(name);
    r
}

/// The npm registry tarball URL of `name` at `version`.
pub open spec fn spec_npm_tarball_url(scope: Option<Seq<char>>, name: Seq<char>, version: Seq<char>) -> Seq<char> {
    match scope {
        Some(s) => "https://registry.npmjs.org/@"@ + strip_leading(s, '@') + "/"@ + name + "/-/"@
            + name + "-"@ + version + ".tgz"@,
        None => "https://registry.npmjs.org/"@ + name + "/-/"@ + name + "-"@ + version + ".tgz"@,
    }
}

/// The view of an optional string slice.
pub open spec fn opt_str_view(o: Option<&str>) -> Option<Seq<char>> {
    match o {
        Some(s) => Some(s@),
        None => None,
    }
}

/// Builds the npm registry tarball URL of a package version.
pub fn npm_tarball_url(scope: Option<&str>, name: &str, version: &str) -> (r: String)
    ensures
        r@ == spec_npm_tarball_url(opt_str_view(scope), name@, version@),
{
    let mut r;
    match scope {
        Some(s) => {
            r = "https://registry.npmjs.org/@".to_owned();
            r.append(trim_start_char(s, '@').as_str());
            r.append("/");
        },
        None => {
            r = "https://registry.npmjs.org/".to_owned();
        },
    }
    r.append(name);
    r.append("/-/");
    r.append(name);
    r.append("-");
    r.append(version);
    r.append(".tgz");
    r
}

/// Splits an npm dependency name into scope and name (`@scope/name` or an
/// unscoped name without `/`); `None` when it is neither.
pub fn parse_npm_dependency_name(input: &str) -> (r: Option<(Option<String>, String)>)
    ensures
        name_parts_view(r) == split_package_name(input@),
{
    let v = chars_of(input);
    split_name(v.as_slice())
}

/// The specifier string that requests `name` at `version` from a registry.
pub open spec fn spec_requested_specifier(
    kind: Seq<char>,
    scope: Option<Seq<char>>,
    name: Seq<char>,
    version: Seq<char>,
) -> Seq<char> {
    if kind == "jsr"@ {
        "jsr:@"@ + (match scope {
            Some(s) => s,
            None => Seq::empty(),
        }) + "/"@ + name + "@"@ + version
    } else if kind == "npm"@ {
        match scope {
            Some(s) => "npm:@"@ + s + "/"@ + name + "@"@ + version,
            None => "npm:"@ + name + "@"@ + version,
        }
    } else {
        kind + ":"@ + name + "@"@ + version
    }
}

/// Builds the specifier string `kind:[@scope/]name@version`; a JSR
/// specifier always has the `@scope/` part, with an empty scope if none is given.
pub fn requested_specifier_from_parts(kind: &str, scope: Option<&str>, name: &str, version: &str) -> (r: String)
    ensures
        r@ == spec_requested_specifier(kind@, opt_str_view(scope), name@, version@),
{
    let mut r;
    if str_eq(kind, "jsr") {
        r = "jsr:@".to_owned();
        match scope {
            Some(s) => r.append(s),
            None => {},
        }
        r.append("/");
    } else if str_eq(kind, "npm") {
        match scope {
            Some(s) => {
                r = "npm:@".to_owned();
                r.append(s);
                r.append("/");
            },
            None => {
                r = "npm:".to_owned();
            },
        }
    } else {
        r = kind.to_owned();
        r.append(":");
    }
    r.append(name);
    r.append("@");
    r.append(version);
    proof {
        if kind@ == "jsr"@ && scope is None {
            assert("jsr:@"@ + Seq::<char>::empty() =~= "jsr:@"@);
        }
    }
    r
}

} // verus!
