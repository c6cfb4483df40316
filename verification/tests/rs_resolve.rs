use witgenstein::rs_resolve::rustdoc_json_path;
use witgenstein::rs_auto::{emit_wit as emit_auto_wit, package_from_cargo, EmitConfig as AutoEmitConfig, ExportedItem};
use witgenstein::rs_emit::EmitConfig;
use witgenstein::rs_resolve::{
    impl_matches_type, is_constructor, last_segment, resolve_exports, DocArg, DocCrate, DocItem, DocItemKind,
    DocSig, DocStructKind, DocType, DocVariantKind, ResolvedType, ResolvedTypeDef,
};
use witgenstein::rs_wit_map::{component_wasm_name, emit_wit, map_type, resolve_package};
use witgenstein::ts_types::{WitType, WitTypeDef};

fn path(p: &str, id: u32, args: Vec<DocArg>) -> DocType {
    DocType::ResolvedPath { path: p.to_string(), id, args }
}

fn prim(p: &str) -> DocType {
    DocType::Primitive(p.to_string())
}

fn item(id: u32, name: &str, kind: DocItemKind) -> DocItem {
    DocItem { id, name: Some(name.to_string()), kind }
}

fn sample_crate() -> DocCrate {
    DocCrate {
        items: vec![
            item(1, "Point", DocItemKind::Struct(DocStructKind::Plain(vec![2, 3]))),
            item(2, "x", DocItemKind::StructField(prim("f64"))),
            item(3, "y", DocItemKind::StructField(prim("f64"))),
            item(
                10,
                "origin",
                DocItemKind::Function {
                    sig: DocSig { inputs: vec![], output: Some(path("crate::geo::Point", 1, vec![])) },
                    is_async: false,
                },
            ),
            item(20, "Color", DocItemKind::Enum(vec![21, 22])),
            item(21, "Red", DocItemKind::Variant(DocVariantKind::Plain)),
            item(22, "Green", DocItemKind::Variant(DocVariantKind::Plain)),
            item(
                11,
                "paint",
                DocItemKind::Function {
                    sig: DocSig {
                        inputs: vec![
                            ("c".to_string(), path("Color", 20, vec![])),
                            ("tags".to_string(), path("Vec", 99, vec![DocArg::Type(prim("str"))])),
                        ],
                        output: Some(path("Result", 98, vec![DocArg::Type(prim("u32")), DocArg::Type(path("String", 97, vec![]))])),
                    },
                    is_async: true,
                },
            ),
            item(
                30,
                "impl",
                DocItemKind::Impl { is_trait: false, for_type: path("Counter", 40, vec![]), items: vec![31, 32] },
            ),
            item(
                31,
                "new",
                DocItemKind::Function {
                    sig: DocSig { inputs: vec![("start".to_string(), prim("u32"))], output: Some(DocType::Generic("Self".to_string())) },
                    is_async: false,
                },
            ),
            item(
                32,
                "bump",
                DocItemKind::Function {
                    sig: DocSig {
                        inputs: vec![(
                            "self".to_string(),
                            DocType::BorrowedRef { is_mutable: true, inner: Box::new(DocType::Generic("Self".to_string())) },
                        )],
                        output: Some(prim("u32")),
                    },
                    is_async: false,
                },
            ),
            item(40, "Counter", DocItemKind::Struct(DocStructKind::Unit)),
        ],
    }
}

#[test]
fn last_segment_of_paths() {
    assert_eq!(last_segment("crate::geo::Point"), "Point");
    assert_eq!(last_segment("Point"), "Point");
    assert_eq!(last_segment("a:::b"), "b");
}

#[test]
fn resolves_functions_resources_and_types() {
    let krate = sample_crate();
    let exports = vec![
        ExportedItem::Function("geo::origin".to_string()),
        ExportedItem::Function("paint".to_string()),
        ExportedItem::Impl("Counter".to_string()),
        ExportedItem::Function("missing".to_string()),
    ];
    let r = resolve_exports(&krate, &exports);
    assert_eq!(r.functions.len(), 2);
    assert_eq!(r.functions[0].name, "origin");
    assert_eq!(r.functions[0].return_type, Some(ResolvedType::Named("Point".to_string())));
    assert_eq!(r.functions[1].name, "paint");
    assert!(r.functions[1].is_async);
    assert_eq!(r.functions[1].params[1].1, ResolvedType::List(Box::new(ResolvedType::WitString)));
    assert_eq!(
        r.functions[1].return_type,
        Some(ResolvedType::Result {
            ok: Some(Box::new(ResolvedType::U32)),
            err: Some(Box::new(ResolvedType::WitString))
        })
    );
    assert_eq!(r.impls.len(), 1);
    let imp = &r.impls[0];
    assert_eq!(imp.impl_name, "Counter");
    let ctor = imp.constructor.as_ref().unwrap();
    assert_eq!(ctor.params[0].0, "start");
    assert_eq!(ctor.return_type, Some(ResolvedType::Own("Counter".to_string())));
    assert_eq!(imp.methods.len(), 1);
    assert!(imp.methods[0].is_mut_self);
    assert!(imp.methods[0].params.is_empty());
    assert_eq!(r.type_defs.len(), 2);
    match &r.type_defs[0] {
        ResolvedTypeDef::Record(rec) => {
            assert_eq!(rec.name, "Point");
            assert_eq!(rec.fields.len(), 2);
            assert_eq!(rec.fields[0].0, "x");
            assert_eq!(rec.fields[0].1, ResolvedType::F64);
        },
        other => panic!("unexpected {other:?}"),
    }
    match &r.type_defs[1] {
        ResolvedTypeDef::Enum(e) => assert_eq!(e.cases, vec!["Red".to_string(), "Green".to_string()]),
        other => panic!("unexpected {other:?}"),
    }
    assert_eq!(r.warnings, vec!["exported function `missing` not found in rustdoc output".to_string()]);
    assert!(r.has_exports());
}

#[test]
fn constructor_and_impl_matching() {
    let sig = DocSig { inputs: vec![], output: Some(prim("u32")) };
    assert!(is_constructor("new", &sig));
    assert!(!is_constructor("make", &sig));
    assert!(!is_constructor("new", &DocSig { inputs: vec![], output: None }));
    assert!(impl_matches_type(&path("a::Counter", 1, vec![]), "Counter"));
    assert!(!impl_matches_type(&prim("u32"), "u32"));
}

#[test]
fn wit_mapping_of_resolved_types() {
    assert_eq!(map_type(&ResolvedType::Tuple(vec![])), WitType::Bool);
    assert_eq!(map_type(&ResolvedType::Own("MyThing".to_string())), WitType::Named("my-thing".to_string()));
    assert_eq!(map_type(&ResolvedType::Borrow("MyThing".to_string())), WitType::Borrow("my-thing".to_string()));
    assert_eq!(
        map_type(&ResolvedType::List(Box::new(ResolvedType::Named("HttpBody".to_string())))),
        WitType::List(Box::new(WitType::Named("http-body".to_string())))
    );
}

#[test]
fn crate_package_holds_one_interface() {
    let krate = sample_crate();
    let exports = vec![ExportedItem::Function("origin".to_string()), ExportedItem::Impl("Counter".to_string())];
    let r = resolve_exports(&krate, &exports);
    let config = EmitConfig {
        namespace: "ns".to_string(),
        package_name: "pkg".to_string(),
        version: Some("1.2.3".to_string()),
        crate_name: "my_crate".to_string(),
    };
    let p = emit_wit(&config, &r);
    assert_eq!(p.world_name, "my-crate-world");
    assert_eq!(p.world_export.as_deref(), Some("my-crate"));
    assert!(p.version.is_some());
    let iface = p.interface.unwrap();
    assert_eq!(iface.name, "my-crate");
    assert_eq!(iface.type_defs.len(), 2);
    assert_eq!(iface.type_defs[0].name(), "point");
    match &iface.type_defs[1] {
        WitTypeDef::Resource(res) => {
            assert_eq!(res.name, "counter");
            assert_eq!(res.methods[0].name, "bump");
            assert!(res.constructor_params.is_some());
        },
        _ => panic!("expected a resource"),
    }
    assert_eq!(iface.functions[0].name, "origin");

    let bad = EmitConfig { version: Some("1.0".to_string()), ..config };
    assert!(emit_wit(&bad, &r).version.is_none());
}

#[test]
fn package_version_is_taken_apart() {
    let r = resolve_exports(&sample_crate(), &[ExportedItem::Function("origin".to_string())]);
    let config = EmitConfig {
        namespace: "ns".to_string(),
        package_name: "pkg".to_string(),
        version: Some("1.20.3-alpha.1+build.5".to_string()),
        crate_name: "my_crate".to_string(),
    };
    let v = emit_wit(&config, &r).version.unwrap();
    assert_eq!((v.major, v.minor, v.patch), (1, 20, 3));
    assert_eq!(v.pre, "alpha.1");
    assert_eq!(v.build, "build.5");
    let plain = EmitConfig { version: Some("0.4.0".to_string()), ..config };
    let v = emit_wit(&plain, &r).version.unwrap();
    assert_eq!((v.major, v.minor, v.patch), (0, 4, 0));
    assert_eq!(v.pre, "");
    assert_eq!(v.build, "");
}

#[test]
fn auto_package_exports_types_and_functions() {
    let krate = sample_crate();
    let exports = vec![ExportedItem::Function("origin".to_string())];
    let r = resolve_exports(&krate, &exports);
    let config = AutoEmitConfig { namespace: "ns".to_string(), package_name: "pkg".to_string(), version: None };
    let p = emit_auto_wit(&config, &r);
    assert!(p.exports_types);
    assert_eq!(p.world_name, "pkg");
    assert_eq!(p.types_interface.as_ref().unwrap().name, "types");
    assert_eq!(p.world_functions.len(), 1);
    assert_eq!(package_from_cargo("my_crate", "0.1.0"), ("my-crate".to_string(), "my-crate".to_string(), Some("0.1.0".to_string())));
}

#[test]
fn crate_package_identity_and_component_name() {
    assert_eq!(resolve_package(None, "my_crate"), Ok(("my-crate".to_string(), "my-crate".to_string(), None)));
    assert_eq!(
        resolve_package(Some("a:b@1.0.0"), "x"),
        Ok(("a".to_string(), "b".to_string(), Some("1.0.0".to_string())))
    );
    assert!(resolve_package(Some("nope"), "x").is_err());
    assert_eq!(component_wasm_name("my-crate"), "my_crate_component.wasm");
}

#[test]
fn rustdoc_json_path_from_stderr() {
    let out = "    Checking x v0.1.0\n    Finished dev\n   Generated /t/doc/x.json\n";
    assert_eq!(rustdoc_json_path(out), Ok("/t/doc/x.json".to_string()));
    assert_eq!(
        rustdoc_json_path("nothing here\n"),
        Err("failed to find generated JSON path in rustdoc output".to_string())
    );
    assert_eq!(
        rustdoc_json_path("   Generated /t/doc/x.json"),
        Err("failed to find end of generated JSON path in rustdoc output".to_string())
    );
}

#[test]
fn only_reached_definitions_are_recorded_in_discovery_order() {
    let krate = DocCrate {
        items: vec![
            item(1, "Unused", DocItemKind::Struct(DocStructKind::Unit)),
            item(2, "Outer", DocItemKind::Struct(DocStructKind::Plain(vec![3]))),
            item(3, "inner", DocItemKind::StructField(path("Inner", 4, vec![]))),
            item(4, "Inner", DocItemKind::Enum(vec![5])),
            item(5, "Only", DocItemKind::Variant(DocVariantKind::Plain)),
            item(
                6,
                "make",
                DocItemKind::Function {
                    sig: DocSig {
                        inputs: vec![("a".to_string(), path("Outer", 2, vec![])), ("b".to_string(), path("Outer", 2, vec![]))],
                        output: None,
                    },
                    is_async: false,
                },
            ),
        ],
    };
    let r = resolve_exports(&krate, &[ExportedItem::Function("make".to_string())]);
    let names: Vec<String> = r
        .type_defs
        .iter()
        .map(|d| match d {
            ResolvedTypeDef::Record(x) => x.name.clone(),
            ResolvedTypeDef::Enum(x) => x.name.clone(),
            ResolvedTypeDef::Variant(x) => x.name.clone(),
        })
        .collect();
    assert_eq!(names, vec!["Inner".to_string(), "Outer".to_string()]);
}
