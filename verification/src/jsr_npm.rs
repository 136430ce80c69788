//! Registry metadata of npm and of JSR's npm mirror. Maps are kept as lists
//! of key-value pairs in the order in which they were read.

use vstd::prelude::*;

verus! {

/// A JSON value of metadata that the package manager only carries along.
#[verifier::external_type_specification]
#[verifier::external_body]
pub struct ExJsonValue(serde_json::Value);

/// Tarball and checksums of a JSR package version.
#[derive(Debug, Clone, PartialEq, Eq)]
pub struct JsrNpmDist {
    pub tarball: String,
    pub shasum: Option<String>,
    pub integrity: Option<String>,
}

/// One version of a JSR package.
#[derive(Debug, Clone, PartialEq, Eq)]
pub struct JsrNpmVersionInfo {
    pub name: String,
    pub version: String,
    pub description: Option<String>,
    pub dist: JsrNpmDist,
    pub dependencies: Option<Vec<(String, String)>>,
}

/// The metadata of `https://npm.jsr.io/@jsr/<scope>__<name>`.
#[derive(Debug, Clone, PartialEq, Eq)]
pub struct JsrNpmRegistryResponse {
    pub name: String,
    pub description: Option<String>,
    pub dist_tags: Vec<(String, String)>,
    pub versions: Vec<(String, JsrNpmVersionInfo)>,
    pub time: Vec<(String, String)>,
}

#[derive(Debug, Clone, PartialEq, Eq)]
pub struct NPMAuthor {
    pub name: Option<String>,
    pub email: Option<String>,
    pub url: Option<String>,
}

#[derive(Debug, Clone, PartialEq, Eq)]
pub struct NPMBugs {
    pub url: Option<String>,
    pub email: Option<String>,
}

#[derive(Debug, Clone, PartialEq, Eq)]
pub struct NPMRepository {
    pub kind: Option<String>,
    pub url: Option<String>,
    pub directory: Option<String>,
}

#[derive(Debug, Clone, PartialEq, Eq)]
pub struct NPMDist {
    pub integrity: Option<String>,
    pub shasum: Option<String>,
    pub tarball: String,
    pub file_count: Option<u32>,
    pub unpacked_size: Option<u64>,
    pub npm_signature: Option<String>,
}

#[derive(Debug, Clone, PartialEq, Eq)]
pub struct NPMUser {
    pub name: Option<String>,
    pub email: Option<String>,
}

/// One version of an npm package.
#[derive(Debug, Clone, PartialEq)]
pub struct NPMVersionInfo {
    pub name: String,
    pub version: String,
    pub description: Option<String>,
    pub keywords: Option<Vec<String>>,
    pub author: Option<NPMAuthor>,
    pub id: String,
    pub homepage: Option<String>,
    pub repository: Option<NPMRepository>,
    pub bugs: Option<NPMBugs>,
    pub license: Option<String>,
    pub licenses: Option<Vec<serde_json::Value>>,
    pub main: Option<String>,
    pub bin: Option<serde_json::Value>,
    pub engines: Option<serde_json::Value>,
    pub scripts: Option<Vec<(String, String)>>,
    pub dependencies: Option<Vec<(String, String)>>,
    pub dev_dependencies: Option<Vec<(String, String)>>,
    pub optional_dependencies: Option<Vec<(String, String)>>,
    pub dist: NPMDist,
    pub npm_user: Option<NPMUser>,
    pub npm_version: Option<String>,
    pub node_version: Option<String>,
    pub maintainers: Option<Vec<NPMUser>>,
    pub defaults_loaded: Option<bool>,
    pub engine_supported: Option<bool>,
    pub from: Option<String>,
    pub shasum: Option<String>,
    pub files: Option<Vec<String>>,
    pub icon: Option<String>,
    pub jam: Option<serde_json::Value>,
    pub volo: Option<serde_json::Value>,
    pub git_head: Option<String>,
    pub npm_operational_internal: Option<Vec<(String, String)>>,
    pub directories: Option<serde_json::Value>,
}

/// The metadata of `https://registry.npmjs.org/<package>`.
#[derive(Debug, Clone, PartialEq)]
pub struct NPMRegistryResponse {
    pub id: String,
    pub rev: String,
    pub name: String,
    pub description: Option<String>,
    pub dist_tags: Vec<(String, String)>,
    pub versions: Vec<(String, NPMVersionInfo)>,
    pub time: Vec<(String, String)>,
    pub maintainers: Option<Vec<NPMUser>>,
    pub author: Option<NPMAuthor>,
    pub repository: Option<NPMRepository>,
    pub homepage: Option<String>,
    pub keywords: Option<Vec<String>>,
    pub bugs: Option<NPMBugs>,
    pub license: Option<String>,
    pub readme: Option<String>,
    pub readme_filename: Option<String>,
    pub users: Option<Vec<(String, bool)>>,
    pub contributors: Option<Vec<NPMUser>>,
}

} // verus!
