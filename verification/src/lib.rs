//! Verified core of `espm`, an ECMAScript package manager.

pub mod text;
pub mod error;
pub mod specifier;
pub mod models;
pub mod import_map;
pub mod paths;
pub mod versions;
pub mod jsr_npm;
pub mod registry;
pub mod install;
pub mod actions;
pub mod manifest;
pub mod publisher;
pub mod cli;
pub mod retry;
pub mod settings;

pub use actions::{
    download_action, identity_source, lock_install_action, resolution_step, resolved_from_local,
    resolved_from_remote, resolved_install_action, IdentitySource, InstallAction, ResolutionStep,
};
pub use cli::{Cli, Commands};
pub use error::EspmError;
pub use import_map::{
    add_dependency, apply_update, insert_import, plan_update, remove_package_from_config, sort_imports,
    update_targets, updated_specifier, RemovalOutcome, UpdateStep, UpdateTarget,
};
pub use install::{
    build_install_queue, dependency_requests_from_package, finalize_lockfile,
    requests_from_import_map, Admission, InstallSession,
};
pub use jsr_npm::{
    JsrNpmDist, JsrNpmRegistryResponse, JsrNpmVersionInfo, NPMAuthor, NPMBugs, NPMDist,
    NPMRegistryResponse, NPMRepository, NPMUser, NPMVersionInfo,
};
pub use manifest::{
    esm_verdict, inspect_manifest_text_for_esm, inspect_tgz_bytes_for_esm, manifest_identity,
    manifest_version_from_text, search_manifest, ManifestSearch, TgzListing, package_value_is_esm, read_package_manifest_from_text,
    read_package_manifest_from_tgz_bytes, EsmVerdict, JsonDoc,
};
pub use models::{
    initial_espm_json, is_import_map_empty, DependencyRequest, EspmJson, EspmLock, ImportMap,
    InstallOptions, LockPackage, ResolvedPackage,
};
pub use paths::{
    join_path, legacy_lockfile_path, lock_key_for_sort, npm_package_display, package_dir_for_key,
    package_id, package_install_path, package_key, parse_lock_package_id, parse_package_key,
    parse_package_name_field, preferred_lockfile_path, resolve_file_source_path,
    scope_dir_for_key, should_install_locked_package, should_skip_reinstall,
};
pub use publisher::{
    archive_path, is_packable_entry, package_name_for_registry, publish_plan,
    registry_upload_url, PublishPlan,
};
pub use registry::{
    jsr_tarball_for_version, latest_jsr_version, latest_npm_version, resolved_package_from_jsr,
    resolved_package_from_npm,
};
pub use retry::retry_delay_ms;
pub use settings::env_flag_enabled;
pub use specifier::{
    jsr_package_to_npm_package, npm_tarball_url, parse_npm_dependency_name,
    requested_specifier_from_parts, Specifier,
};
pub use versions::{parse_version_req, select_latest_compatible_version};
pub mod laws;
