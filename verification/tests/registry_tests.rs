use espm::{
    jsr_tarball_for_version, latest_jsr_version, latest_npm_version, parse_version_req,
    resolved_package_from_jsr, resolved_package_from_npm, retry_delay_ms,
    select_latest_compatible_version, EspmError, JsrNpmDist, JsrNpmRegistryResponse,
    JsrNpmVersionInfo, NPMDist, NPMRegistryResponse, NPMVersionInfo,
};

fn strings(vs: &[&str]) -> Vec<String> {
    vs.iter().map(|v| v.to_string()).collect()
}

fn jsr_version(version: &str, deps: Option<&[(&str, &str)]>) -> (String, JsrNpmVersionInfo) {
    (
        version.to_string(),
        JsrNpmVersionInfo {
            name: "@jsr/std__path".to_string(),
            version: version.to_string(),
            description: None,
            dist: JsrNpmDist {
                tarball: format!("https://npm.jsr.io/~/11/@jsr/std__path/{}.tgz", version),
                shasum: None,
                integrity: None,
            },
            dependencies: deps.map(|d| d.iter().map(|(k, v)| (k.to_string(), v.to_string())).collect()),
        },
    )
}

fn jsr_data(versions: Vec<(String, JsrNpmVersionInfo)>, latest: Option<&str>) -> JsrNpmRegistryResponse {
    JsrNpmRegistryResponse {
        name: "@jsr/std__path".to_string(),
        description: None,
        dist_tags: latest.map(|l| vec![("latest".to_string(), l.to_string())]).unwrap_or_default(),
        versions,
        time: Vec::new(),
    }
}

fn npm_version(version: &str, deps: &[(&str, &str)]) -> (String, NPMVersionInfo) {
    (
        version.to_string(),
        NPMVersionInfo {
            name: "lodash".to_string(),
            version: version.to_string(),
            description: None,
            keywords: None,
            author: None,
            id: format!("lodash@{}", version),
            homepage: None,
            repository: None,
            bugs: None,
            license: None,
            licenses: None,
            main: None,
            bin: None,
            engines: None,
            scripts: None,
            dependencies: Some(deps.iter().map(|(k, v)| (k.to_string(), v.to_string())).collect()),
            dev_dependencies: None,
            optional_dependencies: None,
            dist: NPMDist {
                integrity: None,
                shasum: None,
                tarball: format!("https://registry.npmjs.org/lodash/-/lodash-{}.tgz", version),
                file_count: None,
                unpacked_size: None,
                npm_signature: None,
            },
            npm_user: None,
            npm_version: None,
            node_version: None,
            maintainers: None,
            defaults_loaded: None,
            engine_supported: None,
            from: None,
            shasum: None,
            files: None,
            icon: None,
            jam: None,
            volo: None,
            git_head: None,
            npm_operational_internal: None,
            directories: None,
        },
    )
}

fn npm_data(versions: Vec<(String, NPMVersionInfo)>, latest: &str) -> NPMRegistryResponse {
    NPMRegistryResponse {
        id: "lodash".to_string(),
        rev: "1-abc".to_string(),
        name: "lodash".to_string(),
        description: None,
        dist_tags: vec![("latest".to_string(), latest.to_string())],
        versions,
        time: Vec::new(),
        maintainers: None,
        author: None,
        repository: None,
        homepage: None,
        keywords: None,
        bugs: None,
        license: None,
        readme: None,
        readme_filename: None,
        users: None,
        contributors: None,
    }
}

#[test]
fn select_compares_versions_semantically() {
    let versions = strings(&["1.9.0", "1.10.0", "1.2.0"]);
    assert_eq!(select_latest_compatible_version(&versions, None, None).unwrap(), "1.10.0");
    assert_eq!(
        select_latest_compatible_version(&versions, None, Some("~1.9")).unwrap(),
        "1.9.0"
    );
}

#[test]
fn select_without_valid_versions_fails() {
    let versions = strings(&["latest", "not-semver"]);
    assert_eq!(
        select_latest_compatible_version(&versions, Some("1.0.0"), None),
        Err(EspmError::NoValidVersions)
    );
}

#[test]
fn select_without_matching_version_fails() {
    let versions = strings(&["1.0.0", "1.2.0"]);
    assert_eq!(
        select_latest_compatible_version(&versions, None, Some("^3.0.0")),
        Err(EspmError::NoMatchingVersion("^3.0.0".to_string()))
    );
}

#[test]
fn select_with_latest_requirement_uses_the_tag() {
    let versions = strings(&["1.0.0", "1.2.0", "2.0.0-beta.1"]);
    assert_eq!(
        select_latest_compatible_version(&versions, Some("1.0.0"), Some("latest")).unwrap(),
        "1.0.0"
    );
}

#[test]
fn parse_version_req_forms() {
    assert_eq!(parse_version_req(None), None);
    assert_eq!(parse_version_req(Some("")), None);
    assert_eq!(parse_version_req(Some("latest")), None);
    assert_eq!(parse_version_req(Some("  ^1.2  ")), Some("^1.2".to_string()));
    assert_eq!(parse_version_req(Some("1.2.3")), Some("1.2.3".to_string()));
    assert_eq!(parse_version_req(Some("not a requirement")), None);
}

#[test]
fn npm_resolution_takes_tarball_and_dependencies_of_the_chosen_version() {
    let data = npm_data(
        vec![npm_version("4.17.20", &[]), npm_version("4.17.21", &[("left-pad", "^1.0.0")])],
        "4.17.21",
    );
    assert_eq!(latest_npm_version(&data, None).unwrap(), "4.17.21");
    assert_eq!(latest_npm_version(&data, Some("~4.17.20")).unwrap(), "4.17.21");
    assert_eq!(latest_npm_version(&data, Some("=4.17.20")).unwrap(), "4.17.20");
    let pkg = resolved_package_from_npm(Some("@acme"), "lodash", Some("^4.0.0"), true, &data).unwrap();
    assert_eq!(pkg.kind, "npm");
    assert_eq!(pkg.key, "npm:@acme/lodash");
    assert_eq!(pkg.source, "npm:@@acme/lodash@4.17.21");
    assert_eq!(pkg.scope.as_deref(), Some("acme"));
    assert_eq!(pkg.requested.as_deref(), Some("^4.0.0"));
    assert_eq!(pkg.version, "4.17.21");
    assert_eq!(pkg.tarball, "https://registry.npmjs.org/lodash/-/lodash-4.17.21.tgz");
    assert_eq!(pkg.dependencies, vec![("left-pad".to_string(), "^1.0.0".to_string())]);
    assert!(pkg.dev);
}

#[test]
fn npm_resolution_reports_a_tag_without_metadata() {
    let data = npm_data(vec![npm_version("1.0.0", &[])], "9.9.9");
    assert_eq!(
        resolved_package_from_npm(None, "lodash", None, false, &data),
        Err(EspmError::VersionNotFound("9.9.9".to_string()))
    );
}

#[test]
fn jsr_resolution() {
    let data = jsr_data(
        vec![jsr_version("1.0.0", None), jsr_version("1.1.0", Some(&[("@jsr/std__fs", "1.0.0")]))],
        Some("1.1.0"),
    );
    assert_eq!(latest_jsr_version(&data, Some("1.0")).unwrap(), "1.1.0");
    let pkg = resolved_package_from_jsr("std", "path", None, false, &data).unwrap();
    assert_eq!(pkg.key, "jsr:@std/path");
    assert_eq!(pkg.source, "jsr:@std/path@1.1.0");
    assert_eq!(pkg.scope.as_deref(), Some("std"));
    assert_eq!(pkg.version, "1.1.0");
    assert_eq!(pkg.tarball, "https://npm.jsr.io/~/11/@jsr/std__path/1.1.0.tgz");
    assert_eq!(pkg.dependencies, vec![("@jsr/std__fs".to_string(), "1.0.0".to_string())]);
    let empty = jsr_data(Vec::new(), None);
    assert_eq!(
        resolved_package_from_jsr("std", "path", None, false, &empty),
        Err(EspmError::NoValidVersions)
    );
}

#[test]
fn jsr_tarball_lookup() {
    let data = jsr_data(vec![jsr_version("1.0.0", None), jsr_version("1.1.0", None)], None);
    assert_eq!(
        jsr_tarball_for_version(&data, "latest").unwrap(),
        "https://npm.jsr.io/~/11/@jsr/std__path/1.0.0.tgz"
    );
    assert_eq!(
        jsr_tarball_for_version(&data, "1.1.0").unwrap(),
        "https://npm.jsr.io/~/11/@jsr/std__path/1.1.0.tgz"
    );
    assert_eq!(
        jsr_tarball_for_version(&data, "9.9.9"),
        Err(EspmError::VersionNotFound("9.9.9".to_string()))
    );
    let empty = jsr_data(Vec::new(), None);
    assert_eq!(jsr_tarball_for_version(&empty, "latest"), Err(EspmError::NoVersionsAvailable));
}

#[test]
fn retry_delays_grow_and_stop_after_the_last_attempt() {
    assert_eq!(retry_delay_ms(1, 3), Some(250));
    assert_eq!(retry_delay_ms(2, 3), Some(500));
    assert_eq!(retry_delay_ms(3, 3), None);
}

#[test]
fn latest_tag_is_found_wherever_it_stands() {
    let mut data = npm_data(vec![npm_version("1.0.0", &[]), npm_version("2.0.0-beta.1", &[])], "1.0.0");
    data.dist_tags = vec![
        ("beta".to_string(), "2.0.0-beta.1".to_string()),
        ("latest".to_string(), "1.0.0".to_string()),
    ];
    assert_eq!(latest_npm_version(&data, None).unwrap(), "1.0.0");
}
