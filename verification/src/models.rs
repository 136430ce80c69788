//! The configuration, lockfile and install data of the package manager.

use vstd::prelude::*;

use crate::specifier::opt_view;

verus! {

/// The view of a list of string pairs.
pub open spec fn pairs_view(v: Seq<(String, String)>) -> Seq<(Seq<char>, Seq<char>)> {
    v.map_values(|p: (String, String)| (p.0@, p.1@))
}

/// An import map: package keys mapped to specifiers, each key at most once.
#[derive(Debug, Clone, PartialEq, Eq)]
pub struct ImportMap {
    /// Key and specifier of each import.
    pub imports: Vec<(String, String)>,
    /// Scoped import maps, kept as read.
    pub scopes: Option<Vec<(String, Vec<(String, String)>)>>,
}

/// The `espm.json` configuration.
#[derive(Debug, Clone, PartialEq, Eq)]
pub struct EspmJson {
    pub name: Option<String>,
    pub import_map: Option<ImportMap>,
    pub import_map_dev: Option<ImportMap>,
}

/// The `espm-lock.json` lockfile.
#[derive(Debug, Clone, PartialEq, Eq)]
pub struct EspmLock {
    pub version: u32,
    pub packages: Vec<LockPackage>,
}

/// One resolved package in the lockfile.
#[derive(Debug, Clone, PartialEq, Eq)]
pub struct LockPackage {
    pub id: String,
    pub source: String,
    pub resolved_version: String,
    pub tarball: String,
    pub requested: Option<String>,
    pub dev: bool,
}

/// A dependency to resolve: from an import map or from a package's dependencies.
#[derive(Debug, Clone, PartialEq, Eq)]
pub struct DependencyRequest {
    pub source: String,
    pub kind: String,
    pub scope: Option<String>,
    pub name: String,
    pub requirement: Option<String>,
    pub dev: bool,
}

/// A dependency resolved to one version and one tarball.
#[derive(Debug, Clone, PartialEq, Eq)]
pub struct ResolvedPackage {
    pub kind: String,
    pub key: String,
    pub source: String,
    pub scope: Option<String>,
    pub name: String,
    pub requested: Option<String>,
    pub version: String,
    pub tarball: String,
    pub dependencies: Vec<(String, String)>,
    pub dev: bool,
}

/// Options of an install run.
#[derive(Clone, Copy, Debug, PartialEq, Eq)]
pub struct InstallOptions {
    pub include_dev: bool,
    pub force: bool,
}

/// The mathematical form of a [`LockPackage`].
pub struct LockPackageView {
    pub id: Seq<char>,
    pub source: Seq<char>,
    pub resolved_version: Seq<char>,
    pub tarball: Seq<char>,
    pub requested: Option<Seq<char>>,
    pub dev: bool,
}

impl View for LockPackage {
    type V = LockPackageView;

    open spec fn view(&self) -> LockPackageView {
        LockPackageView {
            id: self.id@,
            source: self.source@,
            resolved_version: self.resolved_version@,
            tarball: self.tarball@,
            requested: opt_view(self.requested),
            dev: self.dev,
        }
    }
}

/// The mathematical form of a [`DependencyRequest`].
pub struct DependencyRequestView {
    pub source: Seq<char>,
    pub kind: Seq<char>,
    pub scope: Option<Seq<char>>,
    pub name: Seq<char>,
    pub requirement: Option<Seq<char>>,
    pub dev: bool,
}

impl View for DependencyRequest {
    type V = DependencyRequestView;

    open spec fn view(&self) -> DependencyRequestView {
        DependencyRequestView {
            source: self.source@,
            kind: self.kind@,
            scope: opt_view(self.scope),
            name: self.name@,
            requirement: opt_view(self.requirement),
            dev: self.dev,
        }
    }
}

/// The mathematical form of a [`ResolvedPackage`].
pub struct ResolvedPackageView {
    pub kind: Seq<char>,
    pub key: Seq<char>,
    pub source: Seq<char>,
    pub scope: Option<Seq<char>>,
    pub name: Seq<char>,
    pub requested: Option<Seq<char>>,
    pub version: Seq<char>,
    pub tarball: Seq<char>,
    pub dependencies: Seq<(Seq<char>, Seq<char>)>,
    pub dev: bool,
}

impl View for ResolvedPackage {
    type V = ResolvedPackageView;

    open spec fn view(&self) -> ResolvedPackageView {
        ResolvedPackageView {
            kind: self.kind@,
            key: self.key@,
            source: self.source@,
            scope: opt_view(self.scope),
            name: self.name@,
            requested: opt_view(self.requested),
            version: self.version@,
            tarball: self.tarball@,
            dependencies: pairs_view(self.dependencies@),
            dev: self.dev,
        }
    }
}

impl InstallOptions {
    /// `development` when dev dependencies are included, else `production`.
    pub fn dependency_scope_label(&self) -> (r: &'static str)
        ensures
            r@ == (if self.include_dev {
                "development"@
            } else {
                "production"@
            }),
    {
        if self.include_dev {
            "development"
        } else {
            "production"
        }
    }

    /// ` (prod + dev)` when dev dependencies are included, else empty.
    pub fn summary_suffix(&self) -> (r: &'static str)
        ensures
            r@ == (if self.include_dev {
                " (prod + dev)"@
            } else {
                ""@
            }),
    {
        if self.include_dev {
            " (prod + dev)"
        } else {
            ""
        }
    }
}

/// An absent import map, or one without imports, counts as empty.
pub fn is_import_map_empty(map: &Option<ImportMap>) -> (r: bool)
    ensures
        r == match map {
            None => true,
            Some(m) => m.imports@.len() == 0,
        },
{
    match map {
        None => true,
        Some(m) => m.imports.len() == 0,
    }
}


/// The configuration that `init` writes: named after the project directory,
/// without import maps.
pub fn initial_espm_json(dir_name: &str) -> (r: EspmJson)
    ensures
        r.name matches Some(n) && n@ == dir_name@,
        r.import_map is None,
        r.import_map_dev is None,
{
    EspmJson { name: Some(dir_name.to_owned()), import_map: None, import_map_dev: None }
}

} // verus!
