use espm::{
    archive_path, is_packable_entry, join_path, lock_key_for_sort, npm_package_display,
    package_dir_for_key, package_id, package_install_path, package_key,
    package_name_for_registry, parse_lock_package_id, parse_package_key,
    parse_package_name_field, publish_plan, registry_upload_url, requested_specifier_from_parts,
    resolve_file_source_path, scope_dir_for_key, should_skip_reinstall, EspmError, LockPackage,
    PublishPlan, Specifier,
};

#[test]
fn ids_and_keys() {
    assert_eq!(package_id("npm", Some("@types"), "node"), "npm:@types/node");
    assert_eq!(package_id("file", None, "local-pkg"), "file:local-pkg");
    assert_eq!(package_key(Some("@@scope"), "pkg"), "@scope/pkg");
    assert_eq!(package_key(None, "lodash"), "lodash");
    assert_eq!(npm_package_display(Some("types"), "node"), "@types/node");
}

#[test]
fn lock_ids_parse_back() {
    let cases: [(&str, Option<&str>, &str); 4] = [
        ("npm", Some("types"), "node"),
        ("jsr", Some("@std"), "path"),
        ("file", None, "local-pkg"),
        ("https", None, "remote-pkg"),
    ];
    for (kind, scope, name) in cases {
        let id = package_id(kind, scope, name);
        let (k, s, n) = parse_lock_package_id(&id).unwrap();
        assert_eq!(k, kind);
        assert_eq!(s.as_deref(), scope.map(|x| x.trim_start_matches('@')));
        assert_eq!(n, name);
    }
}

#[test]
fn lock_id_errors() {
    assert_eq!(
        parse_lock_package_id("lodash"),
        Err(EspmError::InvalidLockPackageId("lodash".to_string()))
    );
    assert_eq!(parse_lock_package_id("npm:"), Err(EspmError::EmptyPackageKey));
}

#[test]
fn package_keys_and_name_fields() {
    assert_eq!(parse_package_key("@types/node"), Ok((Some("types".to_string()), "node".to_string())));
    assert_eq!(parse_package_key("bad/name"), Ok((None, "bad/name".to_string())));
    assert_eq!(parse_package_key("@scope"), Ok((None, "@scope".to_string())));
    assert_eq!(parse_package_key(""), Err(EspmError::EmptyPackageKey));
    assert_eq!(
        parse_package_name_field("@scope"),
        Err(EspmError::InvalidPackageName("@scope".to_string()))
    );
    assert_eq!(parse_package_name_field("lodash"), Ok((None, "lodash".to_string())));
}

#[test]
fn path_joining() {
    assert_eq!(join_path("/base", "rel"), "/base/rel");
    assert_eq!(join_path("/base/", "rel"), "/base/rel");
    assert_eq!(join_path("", "rel"), "rel");
    assert_eq!(join_path("/base", "/abs"), "/abs");
    assert_eq!(resolve_file_source_path("/proj", "./pkg"), "/proj/./pkg");
    assert_eq!(resolve_file_source_path("/proj", "/opt/pkg"), "/opt/pkg");
}

#[test]
fn install_paths_and_key_directories() {
    assert_eq!(package_install_path(Some(""), "x"), "./node_modules/x");
    assert_eq!(package_install_path(Some("@@types"), "node"), "./node_modules/@types/node");
    assert_eq!(
        package_install_path(Some("types"), "node"),
        package_dir_for_key(&package_key(Some("types"), "node"))
    );
    assert_eq!(package_install_path(None, "lodash"), package_dir_for_key(&package_key(None, "lodash")));
    assert_eq!(scope_dir_for_key("@types/node"), Some("./node_modules/@types".to_string()));
    assert_eq!(scope_dir_for_key("lodash"), None);
    assert_eq!(scope_dir_for_key("@noslash"), None);
}

#[test]
fn reinstall_is_skipped_only_for_the_expected_version() {
    assert!(should_skip_reinstall(Some("1.0.0"), "1.0.0"));
    assert!(!should_skip_reinstall(Some("0.9.0"), "1.0.0"));
}

#[test]
fn lock_sort_key() {
    let p = LockPackage {
        id: "npm:lodash".to_string(),
        source: "npm:lodash@4.17.21".to_string(),
        resolved_version: "4.17.21".to_string(),
        tarball: String::new(),
        requested: None,
        dev: false,
    };
    assert_eq!(lock_key_for_sort(&p), "npm:lodash@4.17.21");
}

#[test]
fn requested_specifiers_parse_back() {
    let cases: [(&str, Option<&str>, &str, &str); 3] = [
        ("jsr", Some("std"), "path", "1.0.0"),
        ("npm", Some("types"), "node", "20.0.0"),
        ("npm", None, "lodash", "4.17.21"),
    ];
    for (kind, scope, name, version) in cases {
        let text = requested_specifier_from_parts(kind, scope, name, version);
        let parsed = Specifier::from_string(&text).unwrap();
        assert_eq!(parsed.source, text);
        assert_eq!(parsed.kind, kind);
        assert_eq!(parsed.scope.as_deref(), scope);
        assert_eq!(parsed.name.as_deref(), Some(name));
        assert_eq!(parsed.version.as_deref(), Some(version));
    }
    assert_eq!(requested_specifier_from_parts("jsr", None, "x", "1.0.0"), "jsr:@/x@1.0.0");
    assert_eq!(requested_specifier_from_parts("file", None, "x", "1.0.0"), "file:x@1.0.0");
}

#[test]
fn registry_names() {
    assert_eq!(package_name_for_registry(Some("@scope"), "demo", false), Ok("@scope/demo".to_string()));
    assert_eq!(package_name_for_registry(None, "demo", true), Ok("demo".to_string()));
    assert_eq!(
        package_name_for_registry(None, "demo", false),
        Err(EspmError::JsrScopeRequired("demo".to_string()))
    );
}

#[test]
fn publish_plans() {
    assert_eq!(
        publish_plan("/tmp/p", Some("scope"), "demo", Some("1.0.0"), false, true),
        Ok(PublishPlan::DryRun {
            output_path: "/tmp/p/espm-publish.tgz".to_string(),
            display: "@scope/demo@1.0.0".to_string(),
        })
    );
    assert_eq!(
        publish_plan("/tmp/p", None, "demo-npm", None, true, true),
        Ok(PublishPlan::DryRun {
            output_path: "/tmp/p/espm-publish.tgz".to_string(),
            display: "demo-npm".to_string(),
        })
    );
    assert_eq!(
        publish_plan("/tmp/p", None, "demo-npm", Some("1.0.0"), true, false),
        Ok(PublishPlan::Upload {
            package_name: "demo-npm".to_string(),
            registry_base: "https://registry.npmjs.org/".to_string(),
            token_var: "NPM_TOKEN".to_string(),
        })
    );
    assert_eq!(
        publish_plan("/tmp/p", Some("scope"), "demo", Some("1.0.0"), false, false),
        Ok(PublishPlan::Upload {
            package_name: "@scope/demo".to_string(),
            registry_base: "https://npm.jsr.io/".to_string(),
            token_var: "JSR_TOKEN".to_string(),
        })
    );
    assert_eq!(
        publish_plan("/tmp/p", None, "demo", None, false, true),
        Err(EspmError::JsrScopeRequired("demo".to_string()))
    );
}

#[test]
fn upload_urls_and_archive_layout() {
    assert_eq!(registry_upload_url("https://npm.jsr.io/", "@scope/demo"), "https://npm.jsr.io/@scope/demo");
    assert_eq!(registry_upload_url("https://x.org//", "/pkg"), "https://x.org/pkg");
    assert!(!is_packable_entry("node_modules"));
    assert!(!is_packable_entry("target"));
    assert!(!is_packable_entry(".git"));
    assert!(is_packable_entry("src"));
    assert_eq!(archive_path("index.js"), "package/index.js");
    assert_eq!(archive_path("lib/a.js"), "package/lib/a.js");
}

#[test]
fn specifier_edge_cases() {
    let trimmed = Specifier::from_string("  npm:lodash@4.17.21 ").unwrap();
    assert_eq!(trimmed.source, "npm:lodash@4.17.21");
    assert_eq!(Specifier::from_string("jsr:"), Err(EspmError::EmptyPackageSpecifier("jsr:".to_string())));
    assert_eq!(Specifier::from_string("npm:@scope"), Err(EspmError::InvalidScopedName("@scope".to_string())));
    assert_eq!(Specifier::from_string("npm:a/b@1.0.0"), Err(EspmError::InvalidUnscopedName("a/b".to_string())));
    assert_eq!(
        Specifier::from_string("npm:pkg@1.0/x"),
        Err(EspmError::InvalidUnscopedName("pkg@1.0/x".to_string()))
    );
    assert_eq!(Specifier::from_string("ftp://x"), Err(EspmError::InvalidSpecifier("ftp://x".to_string())));
    let https = Specifier::from_string("https://example.com/p.tgz").unwrap();
    assert_eq!(https.kind, "https");
    assert_eq!(https.name, None);
}

#[test]
fn flag_values_that_switch_a_setting_on() {
    assert!(espm::env_flag_enabled(Some("1")));
    assert!(espm::env_flag_enabled(Some("true")));
    assert!(espm::env_flag_enabled(Some("TrUe")));
    assert!(!espm::env_flag_enabled(Some("yes")));
    assert!(!espm::env_flag_enabled(Some("0")));
    assert!(!espm::env_flag_enabled(Some("true ")));
    assert!(!espm::env_flag_enabled(None));
}
