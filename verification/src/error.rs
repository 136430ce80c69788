//! The errors that the library reports, each with the input that caused it.

use vstd::prelude::*;

verus! {

/// An error of the package manager's logic. The payload is the offending
/// input (or the text that identifies it), as the messages show it.
#[derive(Debug, Clone, PartialEq, Eq)]
pub enum EspmError {
    /// `jsr:` or `npm:` with nothing after it; holds the trimmed source.
    EmptyPackageSpecifier(String),
    /// A name that starts with `@` but is not `@scope/name`.
    InvalidScopedName(String),
    /// A name without scope that is empty or contains `/`.
    InvalidUnscopedName(String),
    /// A specifier of no known kind; holds the trimmed source.
    InvalidSpecifier(String),
    /// A package key that is empty or only white space.
    EmptyPackageKey,
    /// A lock package id without `:`.
    InvalidLockPackageId(String),
    /// A `name` field of `package.json` that is no package name.
    InvalidPackageName(String),
    /// None of the offered versions is a semantic version.
    NoValidVersions,
    /// No offered version satisfies the requirement.
    NoMatchingVersion(String),
    /// The registry metadata has no entry for the selected version.
    VersionNotFound(String),
    /// The registry metadata lists no versions at all.
    NoVersionsAvailable,
    /// A JSR package without scope; holds the request's package name or the specifier.
    MissingJsrScope(String),
    /// A specifier that should carry a package name has none; holds the source.
    MissingPackageName(String),
    /// A `file:` specifier without path; holds the source.
    MissingFilePath(String),
    /// A package kind that the operation does not support.
    UnsupportedKind(String),
    /// The JSR registry needs a scope; holds the package name.
    JsrScopeRequired(String),
    /// The package to update is in neither import map.
    PackageNotFound(String),
    /// A `package.json` that is no JSON object or cannot be read; holds the label.
    InvalidManifest(String),
    /// A `package.json` without a string `name`; holds the label.
    MissingManifestName(String),
    /// A tarball without `package.json`; holds the label.
    ManifestNotFound(String),
    /// A tarball that could not be read; holds the label.
    UnreadableArchive(String),
}

/// The mathematical form of an [`EspmError`]: payloads as character sequences.
pub enum EspmErrorView {
    EmptyPackageSpecifier(Seq<char>),
    InvalidScopedName(Seq<char>),
    InvalidUnscopedName(Seq<char>),
    InvalidSpecifier(Seq<char>),
    EmptyPackageKey,
    InvalidLockPackageId(Seq<char>),
    InvalidPackageName(Seq<char>),
    NoValidVersions,
    NoMatchingVersion(Seq<char>),
    VersionNotFound(Seq<char>),
    NoVersionsAvailable,
    MissingJsrScope(Seq<char>),
    MissingPackageName(Seq<char>),
    MissingFilePath(Seq<char>),
    UnsupportedKind(Seq<char>),
    JsrScopeRequired(Seq<char>),
    PackageNotFound(Seq<char>),
    InvalidManifest(Seq<char>),
    MissingManifestName(Seq<char>),
    ManifestNotFound(Seq<char>),
    UnreadableArchive(Seq<char>),
}

impl View for EspmError {
    type V = EspmErrorView;

    open spec fn view(&self) -> EspmErrorView {
        match self {
            EspmError::EmptyPackageSpecifier(m) => EspmErrorView::EmptyPackageSpecifier(m@),
            EspmError::InvalidScopedName(m) => EspmErrorView::InvalidScopedName(m@),
            EspmError::InvalidUnscopedName(m) => EspmErrorView::InvalidUnscopedName(m@),
            EspmError::InvalidSpecifier(m) => EspmErrorView::InvalidSpecifier(m@),
            EspmError::EmptyPackageKey => EspmErrorView::EmptyPackageKey,
            EspmError::InvalidLockPackageId(m) => EspmErrorView::InvalidLockPackageId(m@),
            EspmError::InvalidPackageName(m) => EspmErrorView::InvalidPackageName(m@),
            EspmError::NoValidVersions => EspmErrorView::NoValidVersions,
            EspmError::NoMatchingVersion(m) => EspmErrorView::NoMatchingVersion(m@),
            EspmError::VersionNotFound(m) => EspmErrorView::VersionNotFound(m@),
            EspmError::NoVersionsAvailable => EspmErrorView::NoVersionsAvailable,
            EspmError::MissingJsrScope(m) => EspmErrorView::MissingJsrScope(m@),
            EspmError::MissingPackageName(m) => EspmErrorView::MissingPackageName(m@),
            EspmError::MissingFilePath(m) => EspmErrorView::MissingFilePath(m@),
            EspmError::UnsupportedKind(m) => EspmErrorView::UnsupportedKind(m@),
            EspmError::JsrScopeRequired(m) => EspmErrorView::JsrScopeRequired(m@),
            EspmError::PackageNotFound(m) => EspmErrorView::PackageNotFound(m@),
            EspmError::InvalidManifest(m) => EspmErrorView::InvalidManifest(m@),
            EspmError::MissingManifestName(m) => EspmErrorView::MissingManifestName(m@),
            EspmError::ManifestNotFound(m) => EspmErrorView::ManifestNotFound(m@),
            EspmError::UnreadableArchive(m) => EspmErrorView::UnreadableArchive(m@),
        }
    }
}

} // verus!
