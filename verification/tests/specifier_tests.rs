use espm::{
    jsr_package_to_npm_package, npm_tarball_url, parse_npm_dependency_name,
    requested_specifier_from_parts, Specifier,
};

#[test]
fn parse_jsr_specifier() {
    let parsed = Specifier::from_string("jsr:@scope/pkg@1.2.3").unwrap();
    assert_eq!(parsed.kind, "jsr");
    assert_eq!(parsed.scope.as_deref(), Some("scope"));
    assert_eq!(parsed.name.as_deref(), Some("pkg"));
    assert_eq!(parsed.version.as_deref(), Some("1.2.3"));
}

#[test]
fn parse_npm_scoped_without_version() {
    let parsed = Specifier::from_string("npm:@types/node").unwrap();
    assert_eq!(parsed.kind, "npm");
    assert_eq!(parsed.scope.as_deref(), Some("types"));
    assert_eq!(parsed.name.as_deref(), Some("node"));
    assert!(parsed.version.is_none());
}

#[test]
fn parse_file_specifier() {
    let parsed = Specifier::from_string("file:../local").unwrap();
    assert_eq!(parsed.kind, "file");
    assert_eq!(parsed.path.as_deref(), Some("../local"));
}

#[test]
fn invalid_specifier_returns_error() {
    assert!(Specifier::from_string("invalid").is_err());
}

#[test]
fn helper_functions_behavior() {
    assert_eq!(
        jsr_package_to_npm_package("scope", "my-pkg"),
        "@jsr/scope__my-pkg"
    );
    assert_eq!(
        npm_tarball_url(Some("types"), "node", "20.0.0"),
        "https://registry.npmjs.org/@types/node/-/node-20.0.0.tgz"
    );
    assert_eq!(
        parse_npm_dependency_name("@types/node"),
        Some((Some("types".to_string()), "node".to_string()))
    );
    assert_eq!(
        requested_specifier_from_parts("npm", Some("types"), "node", "20.0.0"),
        "npm:@types/node@20.0.0"
    );
}

#[test]
fn test_specifier_from_string_jsr() {
    let s = "jsr:@scope/pkg@1.2.3";
    let spec = Specifier::from_string(s).unwrap();
    assert_eq!(spec.kind, "jsr");
    assert_eq!(spec.scope.as_deref(), Some("scope"));
    assert_eq!(spec.name.as_deref(), Some("pkg"));
    assert_eq!(spec.version.as_deref(), Some("1.2.3"));
    assert_eq!(spec.path, None);
}

#[test]
fn test_specifier_from_string_jsr_without_version() {
    let s = "jsr:@scope/pkg";
    let spec = Specifier::from_string(s).unwrap();
    assert_eq!(spec.kind, "jsr");
    assert_eq!(spec.scope.as_deref(), Some("scope"));
    assert_eq!(spec.name.as_deref(), Some("pkg"));
    assert_eq!(spec.version, None);
    assert_eq!(spec.path, None);
}

#[test]
fn test_specifier_from_string_npm() {
    let s = "npm:pkg@4.5.6";
    let spec = Specifier::from_string(s).unwrap();
    assert_eq!(spec.kind, "npm");
    assert_eq!(spec.scope, None);
    assert_eq!(spec.name.as_deref(), Some("pkg"));
    assert_eq!(spec.version.as_deref(), Some("4.5.6"));
    assert_eq!(spec.path, None);
}

#[test]
fn test_specifier_from_string_npm_with_scope() {
    let s = "npm:@scope/pkg@7.8.9";
    let spec = Specifier::from_string(s).unwrap();
    assert_eq!(spec.kind, "npm");
    assert_eq!(spec.scope.as_deref(), Some("scope"));
    assert_eq!(spec.name.as_deref(), Some("pkg"));
    assert_eq!(spec.version.as_deref(), Some("7.8.9"));
    assert_eq!(spec.path, None);
}

#[test]
fn test_specifier_from_string_npm_without_version() {
    let s = "npm:pkg";
    let spec = Specifier::from_string(s).unwrap();
    assert_eq!(spec.kind, "npm");
    assert_eq!(spec.scope, None);
    assert_eq!(spec.name.as_deref(), Some("pkg"));
    assert_eq!(spec.version, None);
    assert_eq!(spec.path, None);
}

#[test]
fn test_specifier_from_string_npm_with_scope_without_version() {
    let s = "npm:@scope/pkg";
    let spec = Specifier::from_string(s).unwrap();
    assert_eq!(spec.kind, "npm");
    assert_eq!(spec.scope.as_deref(), Some("scope"));
    assert_eq!(spec.name.as_deref(), Some("pkg"));
    assert_eq!(spec.version, None);
    assert_eq!(spec.path, None);
}

#[test]
fn test_specifier_from_string_file() {
    let s = "file:../local/path";
    let spec = Specifier::from_string(s).unwrap();
    assert_eq!(spec.kind, "file");
    assert_eq!(spec.scope, None);
    assert_eq!(spec.name, None);
    assert_eq!(spec.version, None);
    assert_eq!(spec.path.as_deref(), Some("../local/path"));
}

#[test]
fn test_specifier_from_string_http() {
    let s = "http://example.com/pkg.tgz";
    let spec = Specifier::from_string(s).unwrap();
    assert_eq!(spec.kind, "http");
    assert_eq!(spec.scope, None);
    assert_eq!(spec.name, None);
    assert_eq!(spec.version, None);
    assert_eq!(spec.path, None);
    assert_eq!(spec.source, "http://example.com/pkg.tgz");
    assert_eq!(spec.name, None);
}

#[test]
fn test_specifier_from_string_invalid() {
    let s = "invalidstring";
    let res = Specifier::from_string(s);
    assert!(res.is_err());
}

#[test]
fn test_jsr_package_to_npm_package() {
    let npm_name = jsr_package_to_npm_package("scope", "my-pkg");
    assert_eq!(npm_name, "@jsr/scope__my-pkg");
}

#[test]
fn test_npm_tarball_url_unscoped() {
    let url = npm_tarball_url(None, "lodash", "4.17.21");
    assert_eq!(
        url,
        "https://registry.npmjs.org/lodash/-/lodash-4.17.21.tgz"
    );
}

#[test]
fn test_npm_tarball_url_scoped() {
    let url = npm_tarball_url(Some("types"), "node", "20.0.0");
    assert_eq!(
        url,
        "https://registry.npmjs.org/@types/node/-/node-20.0.0.tgz"
    );
}

#[test]
fn test_npm_tarball_url_scoped_with_at_prefix() {
    let url = npm_tarball_url(Some("@types"), "node", "20.0.0");
    assert_eq!(
        url,
        "https://registry.npmjs.org/@types/node/-/node-20.0.0.tgz"
    );
}

#[test]
fn test_parse_npm_dependency_name_unscoped() {
    let parsed = parse_npm_dependency_name("lodash").unwrap();
    assert_eq!(parsed.0, None);
    assert_eq!(parsed.1, "lodash");
}

#[test]
fn test_parse_npm_dependency_name_scoped() {
    let parsed = parse_npm_dependency_name("@types/node").unwrap();
    assert_eq!(parsed.0.as_deref(), Some("types"));
    assert_eq!(parsed.1, "node");
}

#[test]
fn test_parse_npm_dependency_name_invalid() {
    assert!(parse_npm_dependency_name("bad/name").is_none());
}

#[test]
fn test_requested_specifier_from_parts_npm_scoped() {
    let spec = requested_specifier_from_parts("npm", Some("types"), "node", "20.0.0");
    assert_eq!(spec, "npm:@types/node@20.0.0");
}
