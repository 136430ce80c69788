use std::collections::VecDeque;

use espm::{
    build_install_queue, dependency_requests_from_package, download_action, finalize_lockfile,
    identity_source, lock_install_action, lock_key_for_sort, requests_from_import_map,
    resolution_step, resolved_from_local, resolved_from_remote, resolved_install_action,
    Admission, DependencyRequest, EspmError, EspmJson, IdentitySource, ImportMap, InstallAction,
    InstallOptions, InstallSession, LockPackage, ResolutionStep, ResolvedPackage, Specifier,
};

fn map_of(entries: &[(&str, &str)]) -> ImportMap {
    ImportMap {
        imports: entries
            .iter()
            .map(|(k, v)| (k.to_string(), v.to_string()))
            .collect(),
        scopes: None,
    }
}

fn lock(id: &str, version: &str, tarball: &str, dev: bool) -> LockPackage {
    LockPackage {
        id: id.to_string(),
        source: format!("{}@{}", id, version),
        resolved_version: version.to_string(),
        tarball: tarball.to_string(),
        requested: None,
        dev,
    }
}

fn resolved(kind: &str, name: &str, version: &str, deps: &[(&str, &str)]) -> ResolvedPackage {
    ResolvedPackage {
        kind: kind.to_string(),
        key: format!("{}:{}", kind, name),
        source: format!("{}:{}@{}", kind, name, version),
        scope: None,
        name: name.to_string(),
        requested: None,
        version: version.to_string(),
        tarball: format!("https://example.com/{}-{}.tgz", name, version),
        dependencies: deps.iter().map(|(k, v)| (k.to_string(), v.to_string())).collect(),
        dev: false,
    }
}

fn request(kind: &str, source: &str, scope: Option<&str>, name: &str) -> DependencyRequest {
    DependencyRequest {
        source: source.to_string(),
        kind: kind.to_string(),
        scope: scope.map(String::from),
        name: name.to_string(),
        requirement: None,
        dev: false,
    }
}

const PROD: InstallOptions = InstallOptions { include_dev: false, force: false };
const DEV: InstallOptions = InstallOptions { include_dev: true, force: false };
const FORCE: InstallOptions = InstallOptions { include_dev: true, force: true };

#[test]
fn requests_keep_requirement_and_key_scope() {
    let m = map_of(&[
        ("lodash", "npm:lodash@^4.17.0"),
        ("@acme/local", "file:./local"),
    ]);
    let reqs = requests_from_import_map(&m, true).unwrap();
    assert_eq!(reqs.len(), 2);
    assert_eq!(reqs[0].kind, "npm");
    assert_eq!(reqs[0].name, "lodash");
    assert_eq!(reqs[0].requirement.as_deref(), Some("^4.17.0"));
    assert!(reqs[0].dev);
    assert_eq!(reqs[1].kind, "file");
    assert_eq!(reqs[1].scope.as_deref(), Some("acme"));
    assert_eq!(reqs[1].name, "local");
    assert_eq!(reqs[1].requirement, None);
}

#[test]
fn requests_reject_bad_specifiers_and_blank_keys() {
    let bad = map_of(&[("x", "ftp://example.com/x")]);
    assert_eq!(
        requests_from_import_map(&bad, false),
        Err(EspmError::InvalidSpecifier("ftp://example.com/x".to_string()))
    );
    let blank = map_of(&[("", "file:./x")]);
    assert_eq!(requests_from_import_map(&blank, false), Err(EspmError::EmptyPackageKey));
}

#[test]
fn install_queue_adds_dev_requests_only_when_asked() {
    let cfg = EspmJson {
        name: None,
        import_map: Some(map_of(&[("lodash", "npm:lodash@4.17.21")])),
        import_map_dev: Some(map_of(&[("local-pkg", "file:./pkg")])),
    };
    let prod = build_install_queue(&cfg, PROD).unwrap();
    assert_eq!(prod.len(), 1);
    let all = build_install_queue(&cfg, DEV).unwrap();
    assert_eq!(all.len(), 2);
    assert_eq!(all[0].name, "lodash");
    assert!(!all[0].dev);
    assert_eq!(all[1].name, "local-pkg");
    assert!(all[1].dev);
}

#[test]
fn dependency_requests_skip_invalid_names() {
    let mut pkg = resolved("npm", "app", "1.0.0", &[("@types/node", "^20.0.0"), ("bad/name", "1.0.0"), ("lodash", "4.17.21")]);
    pkg.dev = true;
    let reqs = dependency_requests_from_package(&pkg);
    assert_eq!(reqs.len(), 2);
    assert_eq!(reqs[0].source, "npm:@types/node@^20.0.0");
    assert_eq!(reqs[0].scope.as_deref(), Some("types"));
    assert_eq!(reqs[0].name, "node");
    assert_eq!(reqs[0].requirement.as_deref(), Some("^20.0.0"));
    assert!(reqs[0].dev);
    assert_eq!(reqs[1].source, "npm:lodash@4.17.21");
}

#[test]
fn finalize_lockfile_orders_by_id_and_version() {
    let entries = vec![
        lock("npm:b", "1.0.0", "t1", false),
        lock("npm:a", "2.0.0", "t2", false),
        lock("npm:a", "1.0.0", "t3", false),
    ];
    let lockfile = finalize_lockfile(entries);
    assert_eq!(lockfile.version, 1);
    let keys: Vec<String> = lockfile.packages.iter().map(lock_key_for_sort).collect();
    assert_eq!(keys, vec!["npm:a@1.0.0", "npm:a@2.0.0", "npm:b@1.0.0"]);
}

#[test]
fn session_installs_each_key_once_and_queues_dependencies() {
    let mut session = InstallSession::new(VecDeque::from(vec![
        request("npm", "npm:app@1.0.0", None, "app"),
        request("npm", "npm:app@2.0.0", None, "app"),
    ]));
    let first = session.next_request().unwrap();
    assert_eq!(first.source, "npm:app@1.0.0");

    let app = resolved("npm", "app", "1.0.0", &[("lodash", "^4.0.0")]);
    assert_eq!(session.admission_of(&app), Admission::Install);
    session.record(&app, true);

    let second = session.next_request().unwrap();
    assert_eq!(second.source, "npm:app@2.0.0");
    let app2 = resolved("npm", "app", "2.0.0", &[]);
    assert_eq!(
        session.admission_of(&app2),
        Admission::Duplicate { installed_version: "1.0.0".to_string(), conflict: true }
    );
    assert_eq!(
        session.admission_of(&app),
        Admission::Duplicate { installed_version: "1.0.0".to_string(), conflict: false }
    );

    let dep = session.next_request().unwrap();
    assert_eq!(dep.source, "npm:lodash@^4.0.0");
    let lodash = resolved("npm", "lodash", "4.17.21", &[]);
    session.record(&lodash, false);
    assert!(session.next_request().is_none());
    assert_eq!(session.installed_count(), 1);

    let lockfile = session.finish();
    let ids: Vec<&str> = lockfile.packages.iter().map(|p| p.id.as_str()).collect();
    assert_eq!(ids, vec!["npm:app", "npm:lodash"]);
    assert_eq!(lockfile.packages[0].resolved_version, "1.0.0");
}

#[test]
fn lock_install_action_decisions() {
    let dev_pkg = lock("npm:lodash", "4.17.21", "https://registry.npmjs.org/lodash/-/lodash-4.17.21.tgz", true);
    assert_eq!(lock_install_action(PROD, &dev_pkg, None), Ok(None));
    assert_eq!(
        lock_install_action(DEV, &dev_pkg, Some("4.17.21")),
        Ok(Some(InstallAction::AlreadyInstalled))
    );
    assert_eq!(
        lock_install_action(FORCE, &dev_pkg, Some("4.17.21")),
        Ok(Some(InstallAction::Tarball {
            url: "https://registry.npmjs.org/lodash/-/lodash-4.17.21.tgz".to_string(),
            scope: String::new(),
            name: "lodash".to_string(),
        }))
    );
    let local = lock("file:@acme/local", "1.2.3", "/work/local", false);
    assert_eq!(
        lock_install_action(PROD, &local, Some("1.0.0")),
        Ok(Some(InstallAction::Local {
            path: "/work/local".to_string(),
            scope: Some("acme".to_string()),
            name: "local".to_string(),
        }))
    );
    let odd = lock("git:thing", "1.0.0", "x", false);
    assert_eq!(
        lock_install_action(PROD, &odd, None),
        Ok(Some(InstallAction::Unsupported { kind: "git".to_string() }))
    );
    let broken = lock("no-colon", "1.0.0", "x", false);
    assert_eq!(
        lock_install_action(PROD, &broken, None),
        Err(EspmError::InvalidLockPackageId("no-colon".to_string()))
    );
}

#[test]
fn resolved_install_action_decisions() {
    let pkg = resolved("https", "remote", "3.1.4", &[]);
    assert_eq!(resolved_install_action(PROD, &pkg, Some("3.1.4")), Ok(InstallAction::AlreadyInstalled));
    assert_eq!(
        resolved_install_action(PROD, &pkg, Some("3.0.0")),
        Ok(InstallAction::Tarball {
            url: "https://example.com/remote-3.1.4.tgz".to_string(),
            scope: String::new(),
            name: "remote".to_string(),
        })
    );
    let odd = resolved("git", "thing", "1.0.0", &[]);
    assert_eq!(
        resolved_install_action(PROD, &odd, None),
        Err(EspmError::UnsupportedKind("git".to_string()))
    );
}

#[test]
fn download_action_per_kind() {
    let npm = Specifier::from_string("npm:lodash@4.17.21").unwrap();
    assert_eq!(
        download_action(&npm, None, "lodash", "/work"),
        Ok(InstallAction::Tarball {
            url: "https://registry.npmjs.org/lodash/-/lodash-4.17.21.tgz".to_string(),
            scope: String::new(),
            name: "lodash".to_string(),
        })
    );
    let npm_latest = Specifier::from_string("npm:lodash").unwrap();
    assert_eq!(
        download_action(&npm_latest, None, "lodash", "/work"),
        Ok(InstallAction::MissingVersion { kind: "npm".to_string(), name: "lodash".to_string() })
    );
    let jsr = Specifier::from_string("jsr:@std/path@1.0.0").unwrap();
    assert_eq!(
        download_action(&jsr, Some("std"), "path", "/work"),
        Ok(InstallAction::JsrRegistry {
            scope: "std".to_string(),
            name: "path".to_string(),
            version: "1.0.0".to_string(),
        })
    );
    let file = Specifier::from_string("file:./pkg").unwrap();
    assert_eq!(
        download_action(&file, None, "local-pkg", "/work"),
        Ok(InstallAction::Local { path: "/work/./pkg".to_string(), scope: None, name: "local-pkg".to_string() })
    );
    let http = Specifier::from_string("http://example.com/p.tgz").unwrap();
    assert_eq!(
        download_action(&http, Some("acme"), "p", "/work"),
        Ok(InstallAction::Tarball {
            url: "http://example.com/p.tgz".to_string(),
            scope: "acme".to_string(),
            name: "p".to_string(),
        })
    );
}

#[test]
fn identity_source_per_kind() {
    let npm = Specifier::from_string("npm:@types/node@20.0.0").unwrap();
    assert_eq!(
        identity_source(&npm, "/work"),
        Ok(IdentitySource::Known {
            scope: Some("types".to_string()),
            name: "node".to_string(),
            version: Some("20.0.0".to_string()),
        })
    );
    let file = Specifier::from_string("file:/abs/pkg.tgz").unwrap();
    assert_eq!(identity_source(&file, "/work"), Ok(IdentitySource::Local { path: "/abs/pkg.tgz".to_string() }));
    let https = Specifier::from_string("https://example.com/p.tgz").unwrap();
    assert_eq!(
        identity_source(&https, "/work"),
        Ok(IdentitySource::Remote { url: "https://example.com/p.tgz".to_string() })
    );
}

#[test]
fn identity_source_errors() {
    let nameless = Specifier {
        source: "npm:".to_string(),
        kind: "npm".to_string(),
        scope: None,
        name: None,
        version: None,
        path: None,
    };
    assert_eq!(identity_source(&nameless, "/w"), Err(EspmError::MissingPackageName("npm:".to_string())));
    let pathless = Specifier {
        source: "file:".to_string(),
        kind: "file".to_string(),
        scope: None,
        name: None,
        version: None,
        path: None,
    };
    assert_eq!(identity_source(&pathless, "/w"), Err(EspmError::MissingFilePath("file:".to_string())));
    let odd = Specifier {
        source: "git:x".to_string(),
        kind: "git".to_string(),
        scope: None,
        name: None,
        version: None,
        path: None,
    };
    assert_eq!(identity_source(&odd, "/w"), Err(EspmError::UnsupportedKind("git".to_string())));
}

#[test]
fn resolution_step_per_kind() {
    let jsr_unscoped = request("jsr", "jsr:x", None, "x");
    assert_eq!(resolution_step(&jsr_unscoped, "/w"), Err(EspmError::MissingJsrScope("x".to_string())));
    let jsr = request("jsr", "jsr:@std/path", Some("std"), "path");
    assert_eq!(
        resolution_step(&jsr, "/w"),
        Ok(ResolutionStep::Jsr { scope: "std".to_string(), name: "path".to_string(), requirement: None })
    );
    let file = request("file", "file:pkg", None, "local");
    assert_eq!(resolution_step(&file, "/w"), Ok(ResolutionStep::Local { path: "/w/pkg".to_string() }));
    let http = request("http", "http://e.com/p.tgz", None, "p");
    assert_eq!(resolution_step(&http, "/w"), Ok(ResolutionStep::Remote { url: "http://e.com/p.tgz".to_string() }));
    let npm = request("npm", "npm:lodash", None, "lodash");
    assert_eq!(
        resolution_step(&npm, "/w"),
        Ok(ResolutionStep::Npm { scope: None, name: "lodash".to_string(), requirement: None })
    );
}

#[test]
fn direct_resolutions_default_the_version() {
    let req = request("file", "file:./pkg", None, "local-pkg");
    let pkg = resolved_from_local(&req, "/w/./pkg".to_string(), None);
    assert_eq!(pkg.key, "file:local-pkg");
    assert_eq!(pkg.version, "0.0.0");
    assert_eq!(pkg.tarball, "/w/./pkg");
    assert!(pkg.dependencies.is_empty());
    let remote = request("https", "https://e.com/r.tgz", None, "remote-pkg");
    let pkg = resolved_from_remote(&remote, Some("3.1.4".to_string()));
    assert_eq!(pkg.key, "https:remote-pkg");
    assert_eq!(pkg.version, "3.1.4");
    assert_eq!(pkg.tarball, "https://e.com/r.tgz");
    assert_eq!(pkg.requested, None);
}

#[test]
fn lockfile_does_not_depend_on_install_order() {
    let a = vec![
        lock("npm:b", "1.0.0", "t1", false),
        lock("file:local", "0.0.0", "/w/local", true),
        lock("npm:a", "2.0.0", "t2", false),
    ];
    let mut b = a.clone();
    b.reverse();
    b.swap(0, 1);
    assert_eq!(finalize_lockfile(a).packages, finalize_lockfile(b).packages);
}
