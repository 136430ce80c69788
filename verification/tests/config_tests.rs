use espm::{
    add_dependency, apply_update, initial_espm_json, insert_import, is_import_map_empty, plan_update,
    remove_package_from_config, sort_imports, update_targets, updated_specifier, EspmError,
    EspmJson, ImportMap, UpdateStep, UpdateTarget,
};

fn map_of(entries: &[(&str, &str)]) -> ImportMap {
    ImportMap {
        imports: entries
            .iter()
            .map(|(k, v)| (k.to_string(), v.to_string()))
            .collect(),
        scopes: None,
    }
}

fn config(main: Option<ImportMap>, dev: Option<ImportMap>) -> EspmJson {
    EspmJson {
        name: Some("demo".to_string()),
        import_map: main,
        import_map_dev: dev,
    }
}

fn keys(map: &Option<ImportMap>) -> Vec<String> {
    map.as_ref()
        .map(|m| m.imports.iter().map(|(k, _)| k.clone()).collect())
        .unwrap_or_default()
}

#[test]
fn sort_imports_orders_by_key_and_keeps_entries() {
    let mut m = map_of(&[("zod", "npm:zod@3"), ("@std/path", "jsr:@std/path@1"), ("lodash", "npm:lodash@4")]);
    sort_imports(&mut m);
    assert_eq!(
        m.imports,
        vec![
            ("@std/path".to_string(), "jsr:@std/path@1".to_string()),
            ("lodash".to_string(), "npm:lodash@4".to_string()),
            ("zod".to_string(), "npm:zod@3".to_string()),
        ]
    );
}

#[test]
fn add_dependency_creates_the_map_and_uses_the_package_key() {
    let mut cfg = config(None, None);
    add_dependency(&mut cfg, false, Some("@types"), "node", "npm:@types/node@20.0.0");
    assert_eq!(
        cfg.import_map.as_ref().unwrap().imports,
        vec![("@types/node".to_string(), "npm:@types/node@20.0.0".to_string())]
    );
    assert!(cfg.import_map_dev.is_none());
    assert_eq!(cfg.name.as_deref(), Some("demo"));
}

#[test]
fn add_dev_dependency_leaves_the_main_map_alone() {
    let main = map_of(&[("lodash", "npm:lodash@4.17.21")]);
    let mut cfg = config(Some(main.clone()), None);
    add_dependency(&mut cfg, true, None, "local-pkg", "file:./pkg");
    assert_eq!(cfg.import_map, Some(main));
    assert_eq!(
        cfg.import_map_dev.unwrap().imports,
        vec![("local-pkg".to_string(), "file:./pkg".to_string())]
    );
}

#[test]
fn insert_import_replaces_an_existing_key_and_sorts() {
    let mut cfg = config(Some(map_of(&[("b", "file:./b"), ("a", "file:./a")])), None);
    insert_import(&mut cfg, false, "b".to_string(), "file:./b2".to_string());
    assert_eq!(
        cfg.import_map.unwrap().imports,
        vec![
            ("a".to_string(), "file:./a".to_string()),
            ("b".to_string(), "file:./b2".to_string()),
        ]
    );
}

#[test]
fn remove_by_specifier_drops_the_scoped_key_from_both_maps() {
    let mut cfg = config(
        Some(map_of(&[("@types/node", "npm:@types/node@20.0.0"), ("lodash", "npm:lodash@4")])),
        Some(map_of(&[("node", "npm:node@1")])),
    );
    let outcome = remove_package_from_config(&mut cfg, "npm:@types/node@20.0.0");
    assert!(outcome.found);
    assert_eq!(outcome.names, vec!["@types/node".to_string(), "node".to_string()]);
    assert_eq!(keys(&cfg.import_map), vec!["lodash".to_string()]);
    assert_eq!(keys(&cfg.import_map_dev), Vec::<String>::new());
}

#[test]
fn remove_by_specifier_drops_entries_with_that_source() {
    let mut cfg = config(Some(map_of(&[("alias", "npm:lodash@4.17.21"), ("other", "npm:zod@3")])), None);
    let outcome = remove_package_from_config(&mut cfg, "npm:lodash@4.17.21");
    assert!(outcome.found);
    assert_eq!(outcome.names, vec!["lodash".to_string()]);
    assert_eq!(keys(&cfg.import_map), vec!["other".to_string()]);
}

#[test]
fn remove_of_unknown_package_reports_not_found() {
    let before = config(Some(map_of(&[("lodash", "npm:lodash@4")])), None);
    let mut cfg = before.clone();
    let outcome = remove_package_from_config(&mut cfg, "left-pad");
    assert!(!outcome.found);
    assert_eq!(outcome.names, vec!["left-pad".to_string()]);
    assert_eq!(cfg, before);
}

#[test]
fn add_then_remove_restores_the_map_without_the_key() {
    let before = map_of(&[("a", "file:./a"), ("z", "file:./z")]);
    let mut cfg = config(Some(before.clone()), None);
    add_dependency(&mut cfg, false, None, "local-pkg", "file:./pkg");
    assert_eq!(keys(&cfg.import_map).len(), 3);
    let outcome = remove_package_from_config(&mut cfg, "local-pkg");
    assert!(outcome.found);
    assert_eq!(cfg.import_map, Some(before));
}

#[test]
fn update_targets_lists_main_then_dev_entries() {
    let cfg = config(
        Some(map_of(&[("pkg", "npm:pkg@1.0.0")])),
        Some(map_of(&[("pkg", "npm:pkg@2.0.0")])),
    );
    let targets = update_targets(&cfg, "pkg").unwrap();
    assert_eq!(targets.len(), 2);
    assert!(!targets[0].is_dev);
    assert_eq!(targets[0].source, "npm:pkg@1.0.0");
    assert!(targets[1].is_dev);
    assert_eq!(targets[1].key, "pkg");
    assert_eq!(targets[1].source, "npm:pkg@2.0.0");
}

#[test]
fn update_targets_of_missing_package_is_an_error() {
    let cfg = config(Some(map_of(&[("pkg", "npm:pkg@1.0.0")])), None);
    assert_eq!(
        update_targets(&cfg, "other"),
        Err(EspmError::PackageNotFound("other".to_string()))
    );
}

#[test]
fn plan_update_resolves_registry_packages() {
    assert_eq!(
        plan_update("npm:lodash@^4.17.0"),
        Ok(UpdateStep::Resolve {
            kind: "npm".to_string(),
            scope: None,
            name: "lodash".to_string(),
            requirement: Some("^4.17.0".to_string()),
        })
    );
    assert_eq!(
        plan_update("jsr:@std/path@1.0.0"),
        Ok(UpdateStep::Resolve {
            kind: "jsr".to_string(),
            scope: Some("std".to_string()),
            name: "path".to_string(),
            requirement: Some("1.0.0".to_string()),
        })
    );
}

#[test]
fn plan_update_skips_file_and_http_dependencies() {
    assert_eq!(plan_update("file:./frozen-pkg"), Ok(UpdateStep::Skip { kind: "file".to_string() }));
    assert_eq!(
        plan_update("http://example.com/p.tgz"),
        Ok(UpdateStep::Skip { kind: "http".to_string() })
    );
    assert_eq!(
        plan_update("https://example.com/p.tgz"),
        Ok(UpdateStep::Skip { kind: "https".to_string() })
    );
}

#[test]
fn plan_update_errors() {
    assert_eq!(
        plan_update("jsr:pkg@1.0.0"),
        Err(EspmError::MissingJsrScope("jsr:pkg@1.0.0".to_string()))
    );
    assert_eq!(plan_update("bogus"), Err(EspmError::InvalidSpecifier("bogus".to_string())));
}

#[test]
fn updated_specifier_is_none_when_up_to_date() {
    assert_eq!(
        updated_specifier("npm:lodash@4.17.20", "npm", None, "lodash", "4.17.21"),
        Some("npm:lodash@4.17.21".to_string())
    );
    assert_eq!(
        updated_specifier("npm:lodash@4.17.21", "npm", None, "lodash", "4.17.21"),
        None
    );
    assert_eq!(
        updated_specifier("jsr:@std/path@^1.0.0", "jsr", Some("std"), "path", "1.0.2"),
        Some("jsr:@std/path@1.0.2".to_string())
    );
}

#[test]
fn import_map_emptiness() {
    assert!(is_import_map_empty(&None));
    assert!(is_import_map_empty(&Some(map_of(&[]))));
    assert!(!is_import_map_empty(&Some(map_of(&[("a", "file:./a")]))));
}

#[test]
fn espm_json_skips_empty_import_maps() {
    let data = EspmJson {
        name: Some("demo".to_string()),
        import_map: Some(ImportMap {
            imports: Vec::new(),
            scopes: None,
        }),
        import_map_dev: None,
    };
    assert!(data.name.is_some());
    assert!(is_import_map_empty(&data.import_map));
    assert!(is_import_map_empty(&data.import_map_dev));
}

#[test]
fn init_names_the_configuration_after_the_directory() {
    let cfg = initial_espm_json("my-project");
    assert_eq!(cfg.name.as_deref(), Some("my-project"));
    assert!(cfg.import_map.is_none());
    assert!(cfg.import_map_dev.is_none());
}

#[test]
fn apply_update_marks_the_config_changed_only_when_the_specifier_changes() {
    let before = config(
        Some(map_of(&[("lodash", "npm:lodash@4.17.20")])),
        Some(map_of(&[("zod", "npm:zod@3.0.0")])),
    );
    let mut cfg = before.clone();
    let mut changed = false;
    let same = UpdateTarget { is_dev: true, key: "zod".to_string(), source: "npm:zod@3.0.0".to_string() };
    assert_eq!(apply_update(&mut cfg, &mut changed, &same, "npm", None, "zod", "3.0.0"), None);
    assert!(!changed);
    assert_eq!(cfg, before);

    let newer = UpdateTarget { is_dev: false, key: "lodash".to_string(), source: "npm:lodash@4.17.20".to_string() };
    assert_eq!(
        apply_update(&mut cfg, &mut changed, &newer, "npm", None, "lodash", "4.17.21"),
        Some("npm:lodash@4.17.21".to_string())
    );
    assert!(changed);
    assert_eq!(
        cfg.import_map.as_ref().unwrap().imports,
        vec![("lodash".to_string(), "npm:lodash@4.17.21".to_string())]
    );
    assert_eq!(cfg.import_map_dev, before.import_map_dev);

    assert_eq!(apply_update(&mut cfg, &mut changed, &same, "npm", None, "zod", "3.0.0"), None);
    assert!(changed);
}
