use espm::{
    legacy_lockfile_path, package_install_path, preferred_lockfile_path,
    requests_from_import_map, select_latest_compatible_version, should_install_locked_package,
    should_skip_reinstall, ImportMap, InstallOptions, LockPackage,
};

#[test]
fn test_select_latest_compatible_version_with_caret_req() {
    let versions: Vec<String> = vec!["1.0.0", "1.2.0", "2.0.0"]
        .into_iter()
        .map(String::from)
        .collect();
    let selected =
        select_latest_compatible_version(&versions, Some("2.0.0"), Some("^1.0.0")).unwrap();
    assert_eq!(selected, "1.2.0");
}

#[test]
fn test_select_latest_compatible_version_uses_latest_tag_without_req() {
    let versions: Vec<String> = vec!["1.0.0", "1.2.0", "1.3.0"]
        .into_iter()
        .map(String::from)
        .collect();
    let selected = select_latest_compatible_version(&versions, Some("1.2.0"), None).unwrap();
    assert_eq!(selected, "1.2.0");
}

#[test]
fn test_select_latest_compatible_version_fallback_to_max() {
    let versions: Vec<String> = vec!["1.0.0", "1.2.0", "1.3.0"]
        .into_iter()
        .map(String::from)
        .collect();
    let selected =
        select_latest_compatible_version(&versions, Some("not-semver"), None).unwrap();
    assert_eq!(selected, "1.3.0");
}

#[test]
fn test_should_install_locked_package() {
    let package = LockPackage {
        id: "npm:lodash".to_string(),
        source: "npm:lodash@4.17.21".to_string(),
        resolved_version: "4.17.21".to_string(),
        tarball: "https://registry.npmjs.org/lodash/-/lodash-4.17.21.tgz".to_string(),
        requested: Some("^4.17.0".to_string()),
        dev: true,
    };

    let prod_only = InstallOptions {
        include_dev: false,
        force: false,
    };
    let with_dev = InstallOptions {
        include_dev: true,
        force: false,
    };

    assert!(!should_install_locked_package(prod_only, &package));
    assert!(should_install_locked_package(with_dev, &package));
}

#[test]
fn test_lockfile_paths() {
    let base = "/tmp/espm-test";
    assert_eq!(
        preferred_lockfile_path(base),
        "/tmp/espm-test/espm-lock.json"
    );
    assert_eq!(
        legacy_lockfile_path(base),
        "/tmp/espm-test/espm-lock.json"
    );
}

#[test]
fn test_package_install_path_unscoped() {
    let path = package_install_path(None, "lodash");
    assert_eq!(path, "./node_modules/lodash");
}

#[test]
fn test_package_install_path_scoped() {
    let path = package_install_path(Some("types"), "node");
    assert_eq!(path, "./node_modules/@types/node");
}

#[test]
fn test_should_skip_reinstall_when_not_installed() {
    // "package-that-does-not-exist" has no directory, so no version is found.
    assert!(!should_skip_reinstall(None, "1.0.0"));
}

#[test]
fn test_install_options_labels() {
    let prod = InstallOptions {
        include_dev: false,
        force: false,
    };
    let with_dev = InstallOptions {
        include_dev: true,
        force: true,
    };

    assert_eq!(prod.dependency_scope_label(), "production");
    assert_eq!(prod.summary_suffix(), "");
    assert_eq!(with_dev.dependency_scope_label(), "development");
    assert_eq!(with_dev.summary_suffix(), " (prod + dev)");
}

#[test]
fn install_options_labels() {
    let prod = InstallOptions {
        include_dev: false,
        force: false,
    };
    let with_dev = InstallOptions {
        include_dev: true,
        force: true,
    };

    assert_eq!(prod.dependency_scope_label(), "production");
    assert_eq!(prod.summary_suffix(), "");
    assert_eq!(with_dev.dependency_scope_label(), "development");
    assert_eq!(with_dev.summary_suffix(), " (prod + dev)");
}

#[test]
fn test_requests_from_import_map_supports_file_http_and_https() {
    let imports = vec![
        ("local-pkg".to_string(), "file:./pkg".to_string()),
        (
            "remote-pkg".to_string(),
            "https://example.com/remote.tgz".to_string(),
        ),
        (
            "remote-http-pkg".to_string(),
            "http://example.com/remote-http.tgz".to_string(),
        ),
    ];

    let map = ImportMap {
        imports,
        scopes: None,
    };

    let requests = requests_from_import_map(&map, false).unwrap();
    assert_eq!(requests.len(), 3);

    let kinds: Vec<String> = requests.iter().map(|req| req.kind.clone()).collect();
    assert!(kinds.contains(&"file".to_string()));
    assert!(kinds.contains(&"http".to_string()));
    assert!(kinds.contains(&"https".to_string()));
}
