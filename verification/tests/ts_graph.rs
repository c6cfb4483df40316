use witgenstein::ts_cli::strict_failure;
use witgenstein::ts_cli::{assemble_package, build_import_interfaces, package_identity, to_wit_interface_name};
use witgenstein::ts_graph::{manual_candidates, try_manual_resolve, ExternalImport, GraphBuilder, ImportCollector};
use witgenstein::ts_project::{ExportsField, PackageMeta};

fn strings(xs: &[&str]) -> Vec<String> {
    xs.iter().map(|s| s.to_string()).collect()
}

#[test]
fn local_specifiers_start_with_dot_or_slash() {
    assert!(ImportCollector::is_local_specifier("./util"));
    assert!(ImportCollector::is_local_specifier("../x"));
    assert!(ImportCollector::is_local_specifier("/abs"));
    assert!(!ImportCollector::is_local_specifier("lodash"));
    assert!(!ImportCollector::is_local_specifier(""));
}

#[test]
fn imports_are_sorted_into_local_and_external() {
    let mut c = ImportCollector::new();
    c.record_import("./util", vec![]);
    c.record_import("lodash", strings(&["map", "filter"]));
    c.record_import("witgenstein-ts", strings(&["u32"]));
    assert_eq!(c.local_specifiers, strings(&["./util"]));
    assert_eq!(c.external_imports.len(), 1);
    assert_eq!(c.external_imports[0].specifier, "lodash");
    assert_eq!(c.external_imports[0].names, strings(&["map", "filter"]));
}

#[test]
fn manual_resolution_tries_extensions_then_index() {
    assert_eq!(
        manual_candidates("/p/src", "./util"),
        strings(&[
            "/p/src/./util.ts",
            "/p/src/./util.tsx",
            "/p/src/./util.mts",
            "/p/src/./util.cts",
            "/p/src/./util/index.ts",
            "/p/src/./util/index.tsx",
        ])
    );
    let existing = strings(&["/p/src/./util/index.ts"]);
    assert_eq!(try_manual_resolve("/p/src", "./util", &existing), Some("/p/src/./util/index.ts".to_string()));
    assert_eq!(try_manual_resolve("/p/src", "./none", &existing), None);
}

#[test]
fn graph_walk_visits_each_file_once() {
    let mut b = GraphBuilder::new("/p/a.ts".to_string());
    let first = b.next_file().unwrap();
    assert_eq!(first, "/p/a.ts");
    assert!(b.enter(first));
    b.queue_resolved("/p/b.ts".to_string());
    b.queue_resolved("/p/b.ts".to_string());
    b.queue_resolved("/p/readme.md".to_string());
    assert!(b.queue_manual(Some("/p/a.ts".to_string())));
    assert!(!b.queue_manual(None));
    b.add_module("export const a = 1;".to_string(), vec![]);
    let next = b.next_file().unwrap();
    assert_eq!(next, "/p/b.ts");
    assert!(b.enter(next));
    b.add_module(
        "import x from 'lodash';".to_string(),
        vec![ExternalImport { specifier: "lodash".to_string(), names: strings(&["x"]) }],
    );
    let again = b.next_file().unwrap();
    assert_eq!(again, "/p/b.ts");
    assert!(!b.enter(again));
    assert_eq!(b.next_file(), None);
    let g = b.finish("/p/a.ts".to_string());
    assert_eq!(g.modules.len(), 2);
    assert_eq!(g.modules[0].0, "/p/a.ts");
    assert_eq!(g.modules[1].0, "/p/b.ts");
    assert_eq!(g.entry, "/p/a.ts");
    assert_eq!(g.external_imports.len(), 1);
}

#[test]
fn interface_names_are_kebab_without_stray_hyphens() {
    assert_eq!(to_wit_interface_name("@types/node"), "types-node");
    assert_eq!(to_wit_interface_name("lodash"), "lodash");
    assert_eq!(to_wit_interface_name("My_Lib..Core"), "my-lib-core");
    assert_eq!(to_wit_interface_name("---"), "unnamed");
    assert_eq!(to_wit_interface_name(""), "unnamed");
}

#[test]
fn one_import_interface_per_specifier() {
    let imports = vec![
        ExternalImport { specifier: "lodash".to_string(), names: strings(&["map"]) },
        ExternalImport { specifier: "@types/node".to_string(), names: vec![] },
        ExternalImport { specifier: "lodash".to_string(), names: strings(&["filter"]) },
    ];
    let ifaces = build_import_interfaces(&imports);
    let names: Vec<&str> = ifaces.iter().map(|i| i.name.as_str()).collect();
    assert_eq!(names, vec!["lodash", "types-node"]);
    assert!(ifaces.iter().all(|i| i.type_defs.is_empty() && i.functions.is_empty()));
}

#[test]
fn package_identity_prefers_the_argument() {
    let meta = Some(PackageMeta {
        name: Some("@org/pkg".to_string()),
        version: Some("2.0.0".to_string()),
        main: None,
        types: None,
        typings: None,
        exports: ExportsField::Other,
    });
    assert_eq!(
        package_identity(Some("a:b@1.0.0"), &meta),
        Ok(("a".to_string(), "b".to_string(), Some("1.0.0".to_string())))
    );
    assert_eq!(
        package_identity(None, &meta),
        Ok(("org".to_string(), "pkg".to_string(), Some("2.0.0".to_string())))
    );
    assert_eq!(
        package_identity(None, &None),
        Err("no package.json found and --package not specified".to_string())
    );
    assert!(package_identity(Some("nocolon"), &meta).is_err());
}

#[test]
fn package_world_is_named_after_the_package() {
    let p = assemble_package("org".to_string(), "My_Pkg".to_string(), None, vec![], vec![], vec![]);
    assert_eq!(p.world.name, "my-pkg");
    assert_eq!(p.world.exports.name, "my-pkg-types");
    assert_eq!(p.name, "My_Pkg");
}

#[test]
fn strict_runs_fail_on_issues() {
    assert_eq!(strict_failure(false, 3), None);
    assert_eq!(strict_failure(true, 0), None);
    assert_eq!(
        strict_failure(true, 12),
        Some("12 type mapping issue(s) found — fix them and try again".to_string())
    );
}

#[test]
fn a_module_step_parses_and_records_imports() {
    let mut b = GraphBuilder::new("/p/a.ts".to_string());
    let file = b.next_file().unwrap();
    assert!(b.enter(file.clone()));
    let source = "import { x } from './b';\nimport y, * as ns from 'lodash';\nimport { Brand } from 'witgenstein-ts';\nexport const z = 1;\n";
    let locals = witgenstein::ts_parse::module_step(&mut b, &file, source.to_string()).unwrap();
    assert_eq!(locals, strings(&["./b"]));
    let g = b.finish(file.clone());
    assert_eq!(g.modules.len(), 1);
    assert_eq!(g.modules[0].1.source_text, source);
    assert_eq!(g.external_imports.len(), 1);
    assert_eq!(g.external_imports[0].specifier, "lodash");
    assert_eq!(g.external_imports[0].names, strings(&["y", "ns"]));
}

#[test]
fn a_module_step_reports_parse_failures() {
    let mut b = GraphBuilder::new("/p/a.ts".to_string());
    let file = b.next_file().unwrap();
    assert!(b.enter(file.clone()));
    let err = witgenstein::ts_parse::module_step(&mut b, &file, "import {".to_string()).unwrap_err();
    assert!(err.starts_with("parse errors in /p/a.ts:\n") || err.starts_with("parser panicked on file: /p/a.ts"));
    let mut c = GraphBuilder::new("/p/notes.txt".to_string());
    let other = c.next_file().unwrap();
    assert!(c.enter(other.clone()));
    let err = witgenstein::ts_parse::module_step(&mut c, &other, "x".to_string()).unwrap_err();
    assert!(err.starts_with("unsupported file type /p/notes.txt: "));
}
