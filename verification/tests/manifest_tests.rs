use espm::{
    esm_verdict, identity_source, inspect_manifest_text_for_esm, inspect_tgz_bytes_for_esm,
    manifest_identity, manifest_version_from_text, package_value_is_esm,
    read_package_manifest_from_text, read_package_manifest_from_tgz_bytes, search_manifest,
    EspmError, EsmVerdict, IdentitySource, JsonDoc, ManifestSearch, Specifier, TgzListing,
};
use flate2::write::GzEncoder;
use flate2::Compression;

fn tgz(files: &[(&str, &str)]) -> Vec<u8> {
    let encoder = GzEncoder::new(Vec::new(), Compression::default());
    let mut builder = tar::Builder::new(encoder);
    for (path, content) in files {
        let mut header = tar::Header::new_gnu();
        header.set_size(content.len() as u64);
        header.set_mode(0o644);
        header.set_cksum();
        builder
            .append_data(&mut header, path, content.as_bytes())
            .unwrap();
    }
    builder.into_inner().unwrap().finish().unwrap()
}

fn ok_identity(scope: Option<&str>, name: &str, version: Option<&str>) -> Result<(Option<String>, String, Option<String>), EspmError> {
    Ok((scope.map(String::from), name.to_string(), version.map(String::from)))
}

#[test]
fn manifest_text_identity() {
    assert_eq!(
        read_package_manifest_from_text(r#"{"name":"@scope/demo","version":"1.0.0"}"#, "pkg"),
        ok_identity(Some("scope"), "demo", Some("1.0.0"))
    );
    assert_eq!(
        read_package_manifest_from_text(r#"{"version":1,"name":"plain"}"#, "pkg"),
        ok_identity(None, "plain", None)
    );
}

#[test]
fn manifest_text_errors() {
    assert_eq!(
        read_package_manifest_from_text("{not json", "pkg"),
        Err(EspmError::InvalidManifest("pkg".to_string()))
    );
    assert_eq!(
        read_package_manifest_from_text("[1, 2]", "pkg"),
        Err(EspmError::MissingManifestName("pkg".to_string()))
    );
    assert_eq!(
        read_package_manifest_from_text(r#"{"name": 5}"#, "pkg"),
        Err(EspmError::MissingManifestName("pkg".to_string()))
    );
    assert_eq!(
        read_package_manifest_from_text(r#"{"name": "bad/name"}"#, "pkg"),
        Err(EspmError::InvalidPackageName("bad/name".to_string()))
    );
}

#[test]
fn esm_detection_from_text() {
    assert_eq!(inspect_manifest_text_for_esm(r#"{"type":"module"}"#, "p"), Ok(true));
    assert_eq!(inspect_manifest_text_for_esm(r#"{"type":"commonjs"}"#, "p"), Ok(false));
    assert_eq!(inspect_manifest_text_for_esm(r#"{"module":"index.js"}"#, "p"), Ok(true));
    assert_eq!(inspect_manifest_text_for_esm(r#"{"exports":{".":"./i.js"}}"#, "p"), Ok(true));
    assert_eq!(inspect_manifest_text_for_esm(r#"{"main":"index.mjs"}"#, "p"), Ok(true));
    assert_eq!(inspect_manifest_text_for_esm(r#"{"main":"index.js"}"#, "p"), Ok(false));
    assert_eq!(
        inspect_manifest_text_for_esm("nope", "p"),
        Err(EspmError::InvalidManifest("p".to_string()))
    );
}

#[test]
fn installed_version_from_text() {
    assert_eq!(
        manifest_version_from_text(r#"{"name":"x","version":"2.0.0"}"#, "p"),
        Ok(Some("2.0.0".to_string()))
    );
    assert_eq!(manifest_version_from_text(r#"{"name":"x"}"#, "p"), Ok(None));
    assert_eq!(
        manifest_version_from_text("", "p"),
        Err(EspmError::InvalidManifest("p".to_string()))
    );
}

#[test]
fn esm_detection_on_parsed_documents() {
    let module_member = JsonDoc::Object(vec![("module".to_string(), None)]);
    assert!(package_value_is_esm(&module_member));
    let commonjs = JsonDoc::Object(vec![
        ("type".to_string(), Some("commonjs".to_string())),
        ("main".to_string(), Some("lib/index.cjs".to_string())),
    ]);
    assert!(!package_value_is_esm(&commonjs));
    assert!(!package_value_is_esm(&JsonDoc::NotObject));
}

#[test]
fn identity_of_parsed_documents() {
    assert_eq!(
        manifest_identity(&JsonDoc::Invalid, "l"),
        Err(EspmError::InvalidManifest("l".to_string()))
    );
    let doc = JsonDoc::Object(vec![
        ("name".to_string(), Some("@a/b".to_string())),
        ("version".to_string(), None),
    ]);
    assert_eq!(manifest_identity(&doc, "l"), ok_identity(Some("a"), "b", None));
}

#[test]
fn search_manifest_in_listings() {
    let listing = TgzListing {
        entries: vec![
            ("package/README.md".to_string(), b"hello".to_vec()),
            ("package/package.json".to_string(), b"{}".to_vec()),
        ],
        complete: true,
    };
    assert_eq!(search_manifest(&listing), ManifestSearch::Found("{}".to_string()));
    let bad_utf8 = TgzListing {
        entries: vec![("package/package.json".to_string(), vec![0xff, 0xfe])],
        complete: true,
    };
    assert_eq!(search_manifest(&bad_utf8), ManifestSearch::Unreadable);
    let none = TgzListing { entries: vec![("a.js".to_string(), Vec::new())], complete: true };
    assert_eq!(search_manifest(&none), ManifestSearch::Absent);
    let cut = TgzListing { entries: Vec::new(), complete: false };
    assert_eq!(search_manifest(&cut), ManifestSearch::Unreadable);
}

#[test]
fn test_package_identity_from_file_tarball() {
    let bytes = tgz(&[
        ("package/package.json", r#"{"name":"local-pkg","version":"9.9.9"}"#),
        ("package/index.js", "export default 1;"),
    ]);
    let path = "/tmp/espm-test/local-pkg.tgz";
    let spec = Specifier::from_string(&format!("file:{}", path)).unwrap();
    let source = identity_source(&spec, "/tmp/espm-test").unwrap();
    assert_eq!(source, IdentitySource::Local { path: path.to_string() });
    let (scope, name, version) = read_package_manifest_from_tgz_bytes(&bytes, path).unwrap();

    assert!(scope.is_none());
    assert_eq!(name, "local-pkg");
    assert_eq!(version.as_deref(), Some("9.9.9"));
}

#[test]
fn tarball_without_manifest_or_unreadable() {
    let bytes = tgz(&[("package/index.js", "export default 1;")]);
    assert_eq!(
        read_package_manifest_from_tgz_bytes(&bytes, "remote"),
        Err(EspmError::ManifestNotFound("remote".to_string()))
    );
    assert_eq!(inspect_tgz_bytes_for_esm(&bytes, "remote"), Ok(false));
    let garbage = b"this is not a gzipped tarball".to_vec();
    assert_eq!(
        read_package_manifest_from_tgz_bytes(&garbage, "remote"),
        Err(EspmError::UnreadableArchive("remote".to_string()))
    );
}

#[test]
fn tarball_esm_detection() {
    let esm = tgz(&[("package/package.json", r#"{"name":"m","type":"module"}"#)]);
    assert_eq!(inspect_tgz_bytes_for_esm(&esm, "m"), Ok(true));
    let cjs = tgz(&[("package/package.json", r#"{"name":"c","main":"index.js"}"#)]);
    assert_eq!(inspect_tgz_bytes_for_esm(&cjs, "c"), Ok(false));
    let broken = tgz(&[("package/package.json", "{")]);
    assert_eq!(
        inspect_tgz_bytes_for_esm(&broken, "b"),
        Err(EspmError::InvalidManifest("b".to_string()))
    );
}

#[test]
fn esm_verdicts() {
    assert_eq!(esm_verdict(true, true), EsmVerdict::Esm);
    assert_eq!(esm_verdict(false, true), EsmVerdict::Reject);
    assert_eq!(esm_verdict(false, false), EsmVerdict::Warn);
}
