//! The decisions of the install, download and resolution steps: what to do
//! with a package, as plain data that the caller carries out.

use vstd::prelude::*;

use crate::error::{EspmError, EspmErrorView};
use crate::models::{DependencyRequest, InstallOptions, LockPackage, ResolvedPackage, ResolvedPackageView};
use crate::paths::{
    package_id, parse_lock_package_id, resolve_file_source_path, should_skip_reinstall,
    spec_join, spec_package_id, spec_parse_lock_package_id,
};
use crate::specifier::{
    npm_tarball_url, opt_str_view, opt_view, spec_npm_tarball_url, spec_parse_specifier, Specifier,
};
use crate::text::{has_prefix, str_eq};

verus! {

/// What to do to install one package.
#[derive(Debug, Clone, PartialEq, Eq)]
pub enum InstallAction {
    /// The expected version is installed already: nothing.
    AlreadyInstalled,
    /// Download the tarball at `url` and unpack it for `scope`/`name`
    /// (an empty scope stands for none).
    Tarball { url: String, scope: String, name: String },
    /// Find `version` of the JSR package `@scope/name` in its registry and
    /// install that tarball.
    JsrRegistry { scope: String, name: String, version: String },
    /// Install the package directory or tarball file at `path`.
    Local { path: String, scope: Option<String>, name: String },
    /// A registry package without version: warn and install nothing.
    MissingVersion { kind: String, name: String },
    /// A kind of package that this step does not install: warn and skip it.
    Unsupported { kind: String },
}

/// The mathematical form of an [`InstallAction`].
pub enum InstallActionView {
    AlreadyInstalled,
    Tarball { url: Seq<char>, scope: Seq<char>, name: Seq<char> },
    JsrRegistry { scope: Seq<char>, name: Seq<char>, version: Seq<char> },
    Local { path: Seq<char>, scope: Option<Seq<char>>, name: Seq<char> },
    MissingVersion { kind: Seq<char>, name: Seq<char> },
    Unsupported { kind: Seq<char> },
}

impl View for InstallAction {
    type V = InstallActionView;

    open spec fn view(&self) -> InstallActionView {
        match self {
            InstallAction::AlreadyInstalled => InstallActionView::AlreadyInstalled,
            InstallAction::Tarball { url, scope, name } => InstallActionView::Tarball {
                url: url@,
                scope: scope@,
                name: name@,
            },
            InstallAction::JsrRegistry { scope, name, version } => InstallActionView::JsrRegistry {
                scope: scope@,
                name: name@,
                version: version@,
            },
            InstallAction::Local { path, scope, name } => InstallActionView::Local {
                path: path@,
                scope: opt_view(*scope),
                name: name@,
            },
            InstallAction::MissingVersion { kind, name } => InstallActionView::MissingVersion {
                kind: kind@,
                name: name@,
            },
            InstallAction::Unsupported { kind } => InstallActionView::Unsupported { kind: kind@ },
        }
    }
}

/// The scope text used when unpacking: the scope, or empty.
pub open spec fn scope_or_empty(scope: Option<Seq<char>>) -> Seq<char> {
    match scope {
        Some(s) => s,
        None => Seq::empty(),
    }
}

fn owned_or_empty(scope: &Option<String>) -> (r: String)
    ensures
        r@ == scope_or_empty(opt_view(*scope)),
{
    match scope {
        Some(s) => s.clone(),
        None => String::new(),
    }
}

fn clone_opt(o: &Option<String>) -> (r: Option<String>)
    ensures
        opt_view(r) == opt_view(*o),
{
    match o {
        Some(s) => Some(s.clone()),
        None => None,
    }
}

/// How a package of `kind` whose tarball (or path) is `tarball` is installed.
pub open spec fn spec_kind_action(kind: Seq<char>, tarball: Seq<char>, scope: Option<Seq<char>>, name: Seq<char>) -> Option<InstallActionView> {
    if kind == "npm"@ || kind == "jsr"@ || kind == "http"@ || kind == "https"@ {
        Some(InstallActionView::Tarball { url: tarball, scope: scope_or_empty(scope), name })
    } else if kind == "file"@ {
        Some(InstallActionView::Local { path: tarball, scope, name })
    } else {
        None
    }
}

fn kind_action(kind: &str, tarball: &String, scope: &Option<String>, name: &String) -> (r: Option<InstallAction>)
    ensures
        match r {
            Some(a) => spec_kind_action(kind@, tarball@, opt_view(*scope), name@) == Some(a@),
            None => spec_kind_action(kind@, tarball@, opt_view(*scope), name@) is None,
        },
{
    if str_eq(kind, "npm") || str_eq(kind, "jsr") || str_eq(kind, "http") || str_eq(kind, "https") {
        Some(InstallAction::Tarball { url: tarball.clone(), scope: owned_or_empty(scope), name: name.clone() })
    } else if str_eq(kind, "file") {
        Some(InstallAction::Local { path: tarball.clone(), scope: clone_opt(scope), name: name.clone() })
    } else {
        None
    }
}

/// What installing a locked package amounts to, given the version found
/// installed for it: nothing when the package is not selected (`None`),
/// an error when its id does not parse, `AlreadyInstalled` when that version
/// is the locked one and the install is not forced, else per its kind.
pub open spec fn spec_lock_install_action(
    options: InstallOptions,
    package: crate::models::LockPackageView,
    installed_version: Option<Seq<char>>,
) -> Result<Option<InstallActionView>, EspmErrorView> {
    if !(options.include_dev || !package.dev) {
        Ok(None)
    } else {
        match spec_parse_lock_package_id(package.id) {
            Err(e) => Err(e),
            Ok((kind, scope, name)) => if !options.force && installed_version == Some(package.resolved_version) {
                Ok(Some(InstallActionView::AlreadyInstalled))
            } else {
                match spec_kind_action(kind, package.tarball, scope, name) {
                    Some(a) => Ok(Some(a)),
                    None => Ok(Some(InstallActionView::Unsupported { kind })),
                }
            },
        }
    }
}

/// The view of an optional-action result.
pub open spec fn opt_action_result_view(r: Result<Option<InstallAction>, EspmError>) -> Result<Option<InstallActionView>, EspmErrorView> {
    match r {
        Ok(Some(a)) => Ok(Some(a@)),
        Ok(None) => Ok(None),
        Err(e) => Err(e@),
    }
}

/// Decides how `install` from the lockfile handles one locked package.
/// `installed_version` is the version installed at the package's directory.
pub fn lock_install_action(options: InstallOptions, package: &LockPackage, installed_version: Option<&str>) -> (r: Result<Option<InstallAction>, EspmError>)
    ensures
        opt_action_result_view(r) == spec_lock_install_action(options, package@, opt_str_view(installed_version)),
{
    if !crate::paths::should_install_locked_package(options, package) {
        return Ok(None);
    }
    let (kind, scope, name) = match parse_lock_package_id(package.id.as_str()) {
        Ok(t) => t,
        Err(e) => return Err(e),
    };
    if !options.force && should_skip_reinstall(installed_version, package.resolved_version.as_str()) {
        return Ok(Some(InstallAction::AlreadyInstalled));
    }
    match kind_action(kind.as_str(), &package.tarball, &scope, &name) {
        Some(a) => Ok(Some(a)),
        None => Ok(Some(InstallAction::Unsupported { kind })),
    }
}

/// What installing a resolved package amounts to, given the version found
/// installed for it.
pub open spec fn spec_resolved_install_action(
    options: InstallOptions,
    pkg: ResolvedPackageView,
    installed_version: Option<Seq<char>>,
) -> Result<InstallActionView, EspmErrorView> {
    if !options.force && installed_version == Some(pkg.version) {
        Ok(InstallActionView::AlreadyInstalled)
    } else {
        match spec_kind_action(pkg.kind, pkg.tarball, pkg.scope, pkg.name) {
            Some(a) => Ok(a),
            None => Err(EspmErrorView::UnsupportedKind(pkg.kind)),
        }
    }
}

/// The view of an action result.
pub open spec fn action_result_view(r: Result<InstallAction, EspmError>) -> Result<InstallActionView, EspmErrorView> {
    match r {
        Ok(a) => Ok(a@),
        Err(e) => Err(e@),
    }
}

/// Decides how a resolved package is installed; `installed_version` is the
/// version installed at its directory.
pub fn resolved_install_action(options: InstallOptions, pkg: &ResolvedPackage, installed_version: Option<&str>) -> (r: Result<InstallAction, EspmError>)
    ensures
        action_result_view(r) == spec_resolved_install_action(options, pkg@, opt_str_view(installed_version)),
{
    if !options.force && should_skip_reinstall(installed_version, pkg.version.as_str()) {
        return Ok(InstallAction::AlreadyInstalled);
    }
    match kind_action(pkg.kind.as_str(), &pkg.tarball, &pkg.scope, &pkg.name) {
        Some(a) => Ok(a),
        None => Err(EspmError::UnsupportedKind(pkg.kind.clone())),
    }
}

/// A version that stands for none: absent, empty or `latest`.
pub open spec fn no_version(version: Option<Seq<char>>) -> bool {
    match version {
        None => true,
        Some(v) => v == "latest"@ || v.len() == 0,
    }
}

/// How `update` installs the package of `specifier`, whose identity is
/// `identity_scope`/`identity_name`, relative to `base_dir`.
pub open spec fn spec_download_action(
    specifier: crate::specifier::SpecifierView,
    identity_scope: Option<Seq<char>>,
    identity_name: Seq<char>,
    base_dir: Seq<char>,
) -> Result<InstallActionView, EspmErrorView> {
    let version = match specifier.version {
        Some(v) => v,
        None => "latest"@,
    };
    if specifier.kind == "jsr"@ {
        if no_version(specifier.version) && specifier.scope is None {
            Ok(InstallActionView::MissingVersion { kind: "jsr"@, name: identity_name })
        } else {
            Ok(
                InstallActionView::JsrRegistry {
                    scope: match identity_scope {
                        Some(s) => s,
                        None => "default"@,
                    },
                    name: identity_name,
                    version,
                },
            )
        }
    } else if specifier.kind == "npm"@ {
        if no_version(specifier.version) && specifier.scope is None {
            Ok(InstallActionView::MissingVersion { kind: "npm"@, name: identity_name })
        } else {
            Ok(
                InstallActionView::Tarball {
                    url: spec_npm_tarball_url(specifier.scope, identity_name, version),
                    scope: scope_or_empty(specifier.scope),
                    name: identity_name,
                },
            )
        }
    } else if specifier.kind == "file"@ {
        match specifier.path {
            None => Err(EspmErrorView::MissingFilePath(specifier.source)),
            Some(p) => Ok(
                InstallActionView::Local {
                    path: if has_prefix(p, "/"@) {
                        p
                    } else {
                        spec_join(base_dir, p)
                    },
                    scope: identity_scope,
                    name: identity_name,
                },
            ),
        }
    } else if specifier.kind == "http"@ || specifier.kind == "https"@ {
        Ok(
            InstallActionView::Tarball {
                url: specifier.source,
                scope: scope_or_empty(identity_scope),
                name: identity_name,
            },
        )
    } else {
        Err(EspmErrorView::UnsupportedKind(specifier.kind))
    }
}

/// Decides how `update` installs an updated package.
pub fn download_action(specifier: &Specifier, identity_scope: Option<&str>, identity_name: &str, base_dir: &str) -> (r: Result<InstallAction, EspmError>)
    ensures
        action_result_view(r) == spec_download_action(specifier@, opt_str_view(identity_scope), identity_name@, base_dir@),
{
    let version = match &specifier.version {
        Some(v) => v.clone(),
        None => "latest".to_owned(),
    };
    let no_ver = match &specifier.version {
        None => true,
        Some(v) => str_eq(v.as_str(), "latest") || v.as_str().is_empty(),
    };
    let kind = specifier.kind.as_str();
    if str_eq(kind, "jsr") {
        if no_ver && specifier.scope.is_none() {
            Ok(InstallAction::MissingVersion { kind: "jsr".to_owned(), name: identity_name.to_owned() })
        } else {
            let scope = match identity_scope {
                Some(s) => s.to_owned(),
                None => "default".to_owned(),
            };
            Ok(InstallAction::JsrRegistry { scope, name: identity_name.to_owned(), version })
        }
    } else if str_eq(kind, "npm") {
        if no_ver && specifier.scope.is_none() {
            Ok(InstallAction::MissingVersion { kind: "npm".to_owned(), name: identity_name.to_owned() })
        } else {
            let scope_ref: Option<&str> = match &specifier.scope {
                Some(s) => Some(s.as_str()),
                None => None,
            };
            let url = npm_tarball_url(scope_ref, identity_name, version.as_str());
            Ok(InstallAction::Tarball { url, scope: owned_or_empty(&specifier.scope), name: identity_name.to_owned() })
        }
    } else if str_eq(kind, "file") {
        match &specifier.path {
            None => Err(EspmError::MissingFilePath(specifier.source.clone())),
            Some(p) => {
                let path = resolve_file_source_path(base_dir, p.as_str());
                let scope = match identity_scope {
                    Some(s) => Some(s.to_owned()),
                    None => None,
                };
                Ok(InstallAction::Local { path, scope, name: identity_name.to_owned() })
            },
        }
    } else if str_eq(kind, "http") || str_eq(kind, "https") {
        let scope = match identity_scope {
            Some(s) => s.to_owned(),
            None => String::new(),
        };
        Ok(InstallAction::Tarball { url: specifier.source.clone(), scope, name: identity_name.to_owned() })
    } else {
        Err(EspmError::UnsupportedKind(specifier.kind.clone()))
    }
}


/// Where the identity (scope, name, version) of a package comes from.
#[derive(Debug, Clone, PartialEq, Eq)]
pub enum IdentitySource {
    /// Registry specifiers carry it.
    Known { scope: Option<String>, name: String, version: Option<String> },
    /// From the `package.json` of the directory or tarball at `path`.
    Local { path: String },
    /// From the `package.json` in the tarball at `url`.
    Remote { url: String },
}

/// The mathematical form of an [`IdentitySource`].
pub enum IdentitySourceView {
    Known { scope: Option<Seq<char>>, name: Seq<char>, version: Option<Seq<char>> },
    Local { path: Seq<char> },
    Remote { url: Seq<char> },
}

impl View for IdentitySource {
    type V = IdentitySourceView;

    open spec fn view(&self) -> IdentitySourceView {
        match self {
            IdentitySource::Known { scope, name, version } => IdentitySourceView::Known {
                scope: opt_view(*scope),
                name: name@,
                version: opt_view(*version),
            },
            IdentitySource::Local { path } => IdentitySourceView::Local { path: path@ },
            IdentitySource::Remote { url } => IdentitySourceView::Remote { url: url@ },
        }
    }
}

/// Where the identity of the package of `specifier` comes from.
pub open spec fn spec_identity_source(specifier: crate::specifier::SpecifierView, base_dir: Seq<char>) -> Result<IdentitySourceView, EspmErrorView> {
    if specifier.kind == "jsr"@ || specifier.kind == "npm"@ {
        match specifier.name {
            None => Err(EspmErrorView::MissingPackageName(specifier.source)),
            Some(n) => Ok(IdentitySourceView::Known { scope: specifier.scope, name: n, version: specifier.version }),
        }
    } else if specifier.kind == "file"@ {
        match specifier.path {
            None => Err(EspmErrorView::MissingFilePath(specifier.source)),
            Some(p) => Ok(
                IdentitySourceView::Local {
                    path: if has_prefix(p, "/"@) {
                        p
                    } else {
                        spec_join(base_dir, p)
                    },
                },
            ),
        }
    } else if specifier.kind == "http"@ || specifier.kind == "https"@ {
        Ok(IdentitySourceView::Remote { url: specifier.source })
    } else {
        Err(EspmErrorView::UnsupportedKind(specifier.kind))
    }
}

/// Decides where to read the identity of the package of `specifier`.
pub fn identity_source(specifier: &Specifier, base_dir: &str) -> (r: Result<IdentitySource, EspmError>)
    ensures
        match r {
            Ok(i) => spec_identity_source(specifier@, base_dir@) == Ok::<IdentitySourceView, EspmErrorView>(i@),
            Err(e) => spec_identity_source(specifier@, base_dir@) == Err::<IdentitySourceView, EspmErrorView>(e@),
        },
{
    let kind = specifier.kind.as_str();
    if str_eq(kind, "jsr") || str_eq(kind, "npm") {
        match &specifier.name {
            None => Err(EspmError::MissingPackageName(specifier.source.clone())),
            Some(n) => Ok(IdentitySource::Known { scope: clone_opt(&specifier.scope), name: n.clone(), version: clone_opt(&specifier.version) }),
        }
    } else if str_eq(kind, "file") {
        match &specifier.path {
            None => Err(EspmError::MissingFilePath(specifier.source.clone())),
            Some(p) => Ok(IdentitySource::Local { path: resolve_file_source_path(base_dir, p.as_str()) }),
        }
    } else if str_eq(kind, "http") || str_eq(kind, "https") {
        Ok(IdentitySource::Remote { url: specifier.source.clone() })
    } else {
        Err(EspmError::UnsupportedKind(specifier.kind.clone()))
    }
}

/// How a dependency request is resolved.
#[derive(Debug, Clone, PartialEq, Eq)]
pub enum ResolutionStep {
    /// From the npm registry's metadata of the package.
    Npm { scope: Option<String>, name: String, requirement: Option<String> },
    /// From JSR's metadata of `@scope/name`.
    Jsr { scope: String, name: String, requirement: Option<String> },
    /// From the `package.json` of the directory or tarball at `path`.
    Local { path: String },
    /// From the `package.json` in the tarball at `url`.
    Remote { url: String },
}

/// The mathematical form of a [`ResolutionStep`].
pub enum ResolutionStepView {
    Npm { scope: Option<Seq<char>>, name: Seq<char>, requirement: Option<Seq<char>> },
    Jsr { scope: Seq<char>, name: Seq<char>, requirement: Option<Seq<char>> },
    Local { path: Seq<char> },
    Remote { url: Seq<char> },
}

impl View for ResolutionStep {
    type V = ResolutionStepView;

    open spec fn view(&self) -> ResolutionStepView {
        match self {
            ResolutionStep::Npm { scope, name, requirement } => ResolutionStepView::Npm {
                scope: opt_view(*scope),
                name: name@,
                requirement: opt_view(*requirement),
            },
            ResolutionStep::Jsr { scope, name, requirement } => ResolutionStepView::Jsr {
                scope: scope@,
                name: name@,
                requirement: opt_view(*requirement),
            },
            ResolutionStep::Local { path } => ResolutionStepView::Local { path: path@ },
            ResolutionStep::Remote { url } => ResolutionStepView::Remote { url: url@ },
        }
    }
}

/// How `request` is resolved, relative to `base_dir`.
pub open spec fn spec_resolution_step(request: crate::models::DependencyRequestView, base_dir: Seq<char>) -> Result<ResolutionStepView, EspmErrorView> {
    if request.kind == "npm"@ {
        Ok(ResolutionStepView::Npm { scope: request.scope, name: request.name, requirement: request.requirement })
    } else if request.kind == "jsr"@ {
        match request.scope {
            None => Err(EspmErrorView::MissingJsrScope(request.name)),
            Some(s) => Ok(ResolutionStepView::Jsr { scope: s, name: request.name, requirement: request.requirement }),
        }
    } else if request.kind == "file"@ {
        match spec_parse_specifier(request.source) {
            Err(e) => Err(e),
            Ok(sp) => match sp.path {
                None => Err(EspmErrorView::MissingFilePath(request.source)),
                Some(p) => Ok(
                    ResolutionStepView::Local {
                        path: if has_prefix(p, "/"@) {
                            p
                        } else {
                            spec_join(base_dir, p)
                        },
                    },
                ),
            },
        }
    } else if request.kind == "http"@ || request.kind == "https"@ {
        Ok(ResolutionStepView::Remote { url: request.source })
    } else {
        Err(EspmErrorView::UnsupportedKind(request.kind))
    }
}

/// Decides how a dependency request is resolved.
pub fn resolution_step(request: &DependencyRequest, base_dir: &str) -> (r: Result<ResolutionStep, EspmError>)
    ensures
        match r {
            Ok(st) => spec_resolution_step(request@, base_dir@) == Ok::<ResolutionStepView, EspmErrorView>(st@),
            Err(e) => spec_resolution_step(request@, base_dir@) == Err::<ResolutionStepView, EspmErrorView>(e@),
        },
{
    let kind = request.kind.as_str();
    if str_eq(kind, "npm") {
        Ok(ResolutionStep::Npm { scope: clone_opt(&request.scope), name: request.name.clone(), requirement: clone_opt(&request.requirement) })
    } else if str_eq(kind, "jsr") {
        match &request.scope {
            None => Err(EspmError::MissingJsrScope(request.name.clone())),
            Some(s) => Ok(ResolutionStep::Jsr { scope: s.clone(), name: request.name.clone(), requirement: clone_opt(&request.requirement) }),
        }
    } else if str_eq(kind, "file") {
        let sp = match Specifier::from_string(request.source.as_str()) {
            Ok(sp) => sp,
            Err(e) => return Err(e),
        };
        match &sp.path {
            None => Err(EspmError::MissingFilePath(request.source.clone())),
            Some(p) => Ok(ResolutionStep::Local { path: resolve_file_source_path(base_dir, p.as_str()) }),
        }
    } else if str_eq(kind, "http") || str_eq(kind, "https") {
        Ok(ResolutionStep::Remote { url: request.source.clone() })
    } else {
        Err(EspmError::UnsupportedKind(request.kind.clone()))
    }
}

/// The version recorded for a package whose manifest gave `version`: that
/// version, or `0.0.0`.
pub open spec fn version_or_default(version: Option<Seq<char>>) -> Seq<char> {
    match version {
        Some(v) => v,
        None => "0.0.0"@,
    }
}

/// The package that a `file:` or `http(s)://` request resolves to: its
/// tarball is `tarball` (the local path or the URL), its version the
/// manifest's (or `0.0.0`), and it has no dependencies.
pub open spec fn spec_resolved_direct(
    request: crate::models::DependencyRequestView,
    kind: Seq<char>,
    tarball: Seq<char>,
    version: Option<Seq<char>>,
) -> ResolvedPackageView {
    ResolvedPackageView {
        kind,
        key: spec_package_id(kind, request.scope, request.name),
        source: request.source,
        scope: request.scope,
        name: request.name,
        requested: None,
        version: version_or_default(version),
        tarball,
        dependencies: Seq::empty(),
        dev: request.dev,
    }
}

fn direct_resolved(request: &DependencyRequest, kind: &str, tarball: String, version: Option<String>) -> (r: ResolvedPackage)
    ensures
        r@ == spec_resolved_direct(request@, kind@, tarball@, opt_view(version)),
{
    let scope_ref: Option<&str> = match &request.scope {
        Some(s) => Some(s.as_str()),
        None => None,
    };
    let key = package_id(kind, scope_ref, request.name.as_str());
    let v = match version {
        Some(v) => v,
        None => "0.0.0".to_owned(),
    };
    let deps: Vec<(String, String)> = Vec::new();
    let r = ResolvedPackage {
        kind: kind.to_owned(),
        key,
        source: request.source.clone(),
        scope: clone_opt(&request.scope),
        name: request.name.clone(),
        requested: None,
        version: v,
        tarball,
        dependencies: deps,
        dev: request.dev,
    };
    assert(r@.dependencies =~= Seq::<(Seq<char>, Seq<char>)>::empty());
    r
}

/// Resolves a `file:` request whose package is at `path` and whose manifest
/// gave `version`.
pub fn resolved_from_local(request: &DependencyRequest, path: String, version: Option<String>) -> (r: ResolvedPackage)
    ensures
        r@ == spec_resolved_direct(request@, "file"@, path@, opt_view(version)),
{
    direct_resolved(request, "file", path, version)
}

/// Resolves an `http(s)://` request whose tarball's manifest gave `version`.
pub fn resolved_from_remote(request: &DependencyRequest, version: Option<String>) -> (r: ResolvedPackage)
    ensures
        r@ == spec_resolved_direct(request@, request.kind@, request.source@, opt_view(version)),
{
    direct_resolved(request, request.kind.as_str(), request.source.clone(), version)
}

} // verus!
