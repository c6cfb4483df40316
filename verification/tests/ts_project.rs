use witgenstein::ts_project::entry_candidates;
use witgenstein::ts_project::{
    ancestors, derive_output_path, derive_wit_package, entry_from_package_meta, entry_from_tsconfig,
    find_project_root, has_ts_extension, package_name_to_wit_name, parse_wit_package_id,
    project_root_for_file, resolve_project_from, strip_suffix, swap_js_to_ts, try_resolve_ts_source,
    ts_source_candidates, ExportsField, InputKind, PackageMeta, ProjectError, ProjectInfo, TsConfigFiles,
};

fn meta(name: Option<&str>, version: Option<&str>) -> PackageMeta {
    PackageMeta {
        name: name.map(|s| s.to_string()),
        version: version.map(|s| s.to_string()),
        main: None,
        types: None,
        typings: None,
        exports: ExportsField::Other,
    }
}

fn strings(xs: &[&str]) -> Vec<String> {
    xs.iter().map(|s| s.to_string()).collect()
}

#[test]
fn ts_extensions_are_recognised() {
    assert!(has_ts_extension("src/index.ts"));
    assert!(has_ts_extension("a.tsx"));
    assert!(has_ts_extension("a.mts"));
    assert!(has_ts_extension("a.cts"));
    assert!(!has_ts_extension("a.js"));
    assert!(!has_ts_extension("a"));
}

#[test]
fn js_paths_swap_to_ts() {
    assert_eq!(swap_js_to_ts("dist/index.js"), Some("dist/index.ts".to_string()));
    assert_eq!(swap_js_to_ts("dist/index.mjs"), Some("dist/index.mts".to_string()));
    assert_eq!(swap_js_to_ts("dist/index.cjs"), Some("dist/index.cts".to_string()));
    assert_eq!(swap_js_to_ts("dist/index.ts"), None);
    assert_eq!(strip_suffix("a.d.ts", ".d.ts"), Some("a".to_string()));
    assert_eq!(strip_suffix("a", ".d.ts"), None);
}

#[test]
fn source_candidates_in_order() {
    assert_eq!(
        ts_source_candidates("dist/index.js", "/proj"),
        strings(&["/proj/dist/index.ts"])
    );
    assert_eq!(
        ts_source_candidates("index.d.ts", "/proj"),
        strings(&["/proj/index.d.ts", "/proj/index.ts"])
    );
}

#[test]
fn resolves_ts_source_among_existing_files() {
    let existing = strings(&["/proj/dist/index.ts"]);
    assert_eq!(
        try_resolve_ts_source("dist/index.js", "/proj", &existing),
        Some("/proj/dist/index.ts".to_string())
    );
    assert_eq!(try_resolve_ts_source("dist/other.js", "/proj", &existing), None);
}

#[test]
fn entry_prefers_types_then_main_then_exports() {
    let mut m = meta(Some("pkg"), None);
    m.types = Some("src/types.ts".to_string());
    m.main = Some("dist/main.js".to_string());
    let existing = strings(&["/p/src/types.ts", "/p/dist/main.ts"]);
    assert_eq!(entry_from_package_meta(&m, "/p", &existing), Some("/p/src/types.ts".to_string()));
    let only_main = strings(&["/p/dist/main.ts"]);
    assert_eq!(entry_from_package_meta(&m, "/p", &only_main), Some("/p/dist/main.ts".to_string()));
    let mut e = meta(Some("pkg"), None);
    e.exports = ExportsField::Object(vec![
        ("./extra".to_string(), Some("extra.js".to_string())),
        (".".to_string(), Some("lib/index.js".to_string())),
    ]);
    let lib = strings(&["/p/lib/index.ts"]);
    assert_eq!(entry_from_package_meta(&e, "/p", &lib), Some("/p/lib/index.ts".to_string()));
    let mut t = meta(Some("pkg"), None);
    t.exports = ExportsField::Text("lib/index.js".to_string());
    assert_eq!(entry_from_package_meta(&t, "/p", &lib), Some("/p/lib/index.ts".to_string()));
    assert_eq!(entry_from_package_meta(&meta(None, None), "/p", &lib), None);
}

#[test]
fn tsconfig_files_then_literal_patterns() {
    let config = TsConfigFiles {
        files: strings(&["main.js", "src/app.ts"]),
        patterns: strings(&["src/**/*.ts", "src/index.ts"]),
    };
    let existing = strings(&["/p/src/app.ts", "/p/src/index.ts"]);
    assert_eq!(entry_from_tsconfig(&config, "/p", &existing), Some("/p/src/app.ts".to_string()));
    let later = strings(&["/p/src/index.ts"]);
    assert_eq!(entry_from_tsconfig(&config, "/p", &later), Some("/p/src/index.ts".to_string()));
    assert_eq!(entry_from_tsconfig(&config, "/p", &[]), None);
}

#[test]
fn project_root_walks_up_to_marked_directory() {
    assert_eq!(ancestors("/a/b/c"), strings(&["/a/b/c", "/a/b", "/a", "/"]));
    let marked = strings(&["/a"]);
    assert_eq!(find_project_root("/a/b/c", &marked), "/a");
    assert_eq!(find_project_root("/x/y", &marked), "/x/y");
    assert_eq!(project_root_for_file("/a/b/index.ts", &marked), "/a");
}

#[test]
fn resolve_project_for_each_input_kind() {
    let marked = strings(&["/a"]);
    let file = resolve_project_from("/a/b/index.ts", InputKind::File, None, None, &[], &marked).unwrap();
    assert_eq!(file.entry_file, "/a/b/index.ts");
    assert_eq!(file.project_root, "/a");

    let missing = resolve_project_from("/nope", InputKind::Missing, None, None, &[], &[]);
    let err = missing.err().unwrap();
    assert_eq!(err, ProjectError::Missing("/nope".to_string()));
    assert_eq!(err.message(), "input path does not exist: /nope");

    let existing = strings(&["/d/src/index.ts"]);
    let dir = resolve_project_from("/d", InputKind::Dir, None, None, &existing, &[]).unwrap();
    assert_eq!(dir.entry_file, "/d/src/index.ts");
    assert_eq!(dir.project_root, "/d");

    let none = resolve_project_from("/e", InputKind::Dir, None, None, &[], &[]).err().unwrap();
    assert_eq!(none.message(), "could not find a TypeScript entry point in /e");
}

#[test]
fn wit_package_from_npm_name() {
    let scoped = meta(Some("@myorg/my-pkg"), Some("1.0.0"));
    assert_eq!(
        derive_wit_package(&scoped),
        Some(("myorg".to_string(), "my-pkg".to_string(), Some("1.0.0".to_string())))
    );
    let plain = meta(Some("my-pkg"), None);
    assert_eq!(derive_wit_package(&plain), Some(("local".to_string(), "my-pkg".to_string(), None)));
    assert_eq!(derive_wit_package(&meta(Some("@broken"), None)), None);
    assert_eq!(derive_wit_package(&meta(None, None)), None);
    assert_eq!(package_name_to_wit_name("@myorg/my-pkg"), "my-pkg");
    assert_eq!(package_name_to_wit_name("plain"), "plain");
}

#[test]
fn output_path_named_after_package() {
    let project = ProjectInfo {
        entry_file: "/p/index.ts".to_string(),
        project_root: "/p".to_string(),
        package_meta: Some(meta(Some("@myorg/my-pkg"), None)),
    };
    assert_eq!(derive_output_path(&project), "/p/my-pkg.wit");
    let bare = ProjectInfo { entry_file: "/p/index.ts".to_string(), project_root: "/p".to_string(), package_meta: None };
    assert_eq!(derive_output_path(&bare), "/p/output.wit");
}

#[test]
fn project_package_id_splits_at_first_at() {
    assert_eq!(
        parse_wit_package_id("myorg:my-pkg@1.0.0"),
        Ok(("myorg".to_string(), "my-pkg".to_string(), Some("1.0.0".to_string())))
    );
    assert_eq!(parse_wit_package_id("a:b"), Ok(("a".to_string(), "b".to_string(), None)));
    assert_eq!(
        parse_wit_package_id("nocolon@1"),
        Err("invalid WIT package id, expected 'namespace:name': nocolon@1".to_string())
    );
}

#[test]
fn entry_candidates_cover_metadata_tsconfig_and_fallbacks() {
    let mut m = meta(Some("x"), None);
    m.main = Some("dist/index.js".to_string());
    let config = TsConfigFiles { files: vec!["lib/main.ts".to_string()], patterns: vec!["src/**/*.ts".to_string()] };
    let c = entry_candidates("/p", &Some(m), &Some(config));
    assert_eq!(
        c,
        vec![
            "/p/dist/index.ts".to_string(),
            "/p/lib/main.ts".to_string(),
            "/p/index.ts".to_string(),
            "/p/index.tsx".to_string(),
            "/p/src/index.ts".to_string(),
            "/p/src/index.tsx".to_string(),
        ]
    );
    assert_eq!(entry_candidates("/p", &None, &None).len(), 4);
}
