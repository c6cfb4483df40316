use witgenstein::rs_auto::ExportedItem as RsExportedItem;
use witgenstein::rs_wit_map::{build_plan, require_exports};
use witgenstein::ts_branded::{collect_branded_types, is_branded_type_pattern, is_string_literal_type};
use witgenstein::ts_collect::{
    collect_class, collect_enum, collect_function, collect_type_alias, extract_decorator_name, extract_type_info,
    extract_type_info_from_tuple_element, extract_type_name, ExportCollector, ExportedItem, KeywordType, TypeInfo,
};
use witgenstein::ts_syntax::{
    BrandEvent, TsClass, TsClassElement, TsDeclaration, TsDefaultDeclaration, TsEnum, TsEnumMemberName,
    TsExportDecl, TsExpr, TsFunction, TsMethod, TsMethodKind, TsParam, TsPropertyDef, TsSignature,
    TsTupleElement, TsType, TsTypeAlias, TsTypeName,
};
use witgenstein::ts_types::{WitType, WitTypeDef};
use witgenstein::ts_mapper::{map_exports, MapperConfig};
use witgenstein::ts_branded::BrandedTypeMap;
use witgenstein::diagnostic::{Diagnostic, DiagnosticKind};
use witgenstein::ts_collect::ExportedFunction as TsExportedFunction;

fn kw(k: KeywordType) -> TsType {
    TsType::Keyword(k)
}

fn reference(name: &str) -> TsType {
    TsType::Reference { name: TsTypeName::Identifier(name.to_string()), type_args: None }
}

fn param(name: &str, t: TsType) -> TsParam {
    TsParam { name: Some(name.to_string()), type_annotation: Some(t), optional: false }
}

fn method(kind: TsMethodKind, key: &str, is_static: bool) -> TsMethod {
    TsMethod {
        kind,
        is_static,
        key: Some(key.to_string()),
        params: vec![param("x", kw(KeywordType::Number))],
        return_type: Some(kw(KeywordType::String)),
        is_async: false,
    }
}

#[test]
fn qualified_type_names() {
    let n = TsTypeName::Qualified(Box::new(TsTypeName::Identifier("ns".to_string())), "Foo".to_string());
    assert_eq!(extract_type_name(&n), "ns.Foo");
    assert_eq!(extract_type_name(&TsTypeName::This), "this");
}

#[test]
fn type_annotations_become_descriptors() {
    let t = TsType::Parenthesized(Box::new(TsType::Array(Box::new(kw(KeywordType::Number)))));
    assert!(matches!(extract_type_info(&t), TypeInfo::Array(inner) if matches!(*inner, TypeInfo::Keyword(KeywordType::Number))));
    let generic = TsType::Reference {
        name: TsTypeName::Identifier("Promise".to_string()),
        type_args: Some(vec![kw(KeywordType::Void)]),
    };
    match extract_type_info(&generic) {
        TypeInfo::Reference { name, type_args } => {
            assert_eq!(name, "Promise");
            assert_eq!(type_args.len(), 1);
        },
        other => panic!("unexpected {other:?}"),
    }
    let lit = TsType::TypeLiteral(vec![
        TsSignature::Property { key: Some("a".to_string()), type_annotation: None, optional: true },
        TsSignature::Other,
    ]);
    match extract_type_info(&lit) {
        TypeInfo::ObjectLiteral(props) => {
            assert_eq!(props.len(), 1);
            assert_eq!(props[0].name, "a");
            assert!(props[0].optional);
            assert!(matches!(&props[0].type_info, TypeInfo::Unknown(s) if s == "missing type annotation"));
        },
        other => panic!("unexpected {other:?}"),
    }
    assert!(matches!(extract_type_info(&TsType::Other("TSMappedType".to_string())), TypeInfo::Unknown(s) if s == "TSMappedType"));
    assert!(matches!(extract_type_info(&TsType::Intersection(vec![])), TypeInfo::Intersection));
}

#[test]
fn tuple_elements() {
    let opt = TsTupleElement::Optional(kw(KeywordType::String));
    match extract_type_info_from_tuple_element(&opt) {
        TypeInfo::Union(v) => {
            assert_eq!(v.len(), 2);
            assert!(matches!(v[1], TypeInfo::Undefined));
        },
        other => panic!("unexpected {other:?}"),
    }
    let named = TsTupleElement::Named(Box::new(TsTupleElement::Rest(kw(KeywordType::Boolean))));
    assert!(matches!(extract_type_info_from_tuple_element(&named), TypeInfo::Keyword(KeywordType::Boolean)));
    let symbol = TsTupleElement::Type(kw(KeywordType::Symbol));
    assert!(matches!(extract_type_info_from_tuple_element(&symbol), TypeInfo::Unknown(s) if s == "unsupported tuple element type"));
    let tuple = TsType::Tuple(vec![TsTupleElement::Type(kw(KeywordType::Number)), opt]);
    assert!(matches!(extract_type_info(&tuple), TypeInfo::Tuple(v) if v.len() == 2));
}

#[test]
fn decorator_names() {
    let e = TsExpr::Call(Box::new(TsExpr::Member {
        object: Box::new(TsExpr::Identifier("wit".to_string())),
        property: "flags".to_string(),
    }));
    assert_eq!(extract_decorator_name(&e), Some("wit.flags".to_string()));
    assert_eq!(extract_decorator_name(&TsExpr::Other), None);
}

#[test]
fn functions_and_classes() {
    let f = TsFunction {
        id: None,
        params: vec![TsParam { name: None, type_annotation: None, optional: true }],
        return_type: None,
        is_async: true,
    };
    let info = collect_function(&f).unwrap();
    assert_eq!(info.name, "");
    assert_eq!(info.params[0].name, "_");
    assert!(info.return_type.is_none());
    assert!(info.is_async);

    let c = TsClass {
        id: Some("Counter".to_string()),
        decorators: vec![TsExpr::Identifier("resource".to_string()), TsExpr::Other],
        elements: vec![
            TsClassElement::Method(method(TsMethodKind::Constructor, "constructor", false)),
            TsClassElement::Method(method(TsMethodKind::Method, "get", false)),
            TsClassElement::Method(method(TsMethodKind::Getter, "value", false)),
            TsClassElement::Method(method(TsMethodKind::Method, "create", true)),
            TsClassElement::Property(TsPropertyDef { key: Some("count".to_string()), type_annotation: None, optional: false }),
            TsClassElement::Property(TsPropertyDef { key: None, type_annotation: None, optional: false }),
            TsClassElement::Other,
        ],
    };
    let info = collect_class(&c).unwrap();
    assert_eq!(info.name, "Counter");
    assert_eq!(info.decorators, vec!["resource".to_string()]);
    assert_eq!(info.constructor_params.as_ref().map(|p| p.len()), Some(1));
    assert_eq!(info.methods.iter().map(|m| m.name.clone()).collect::<Vec<_>>(), vec!["get", "value"]);
    assert_eq!(info.static_methods.len(), 1);
    assert_eq!(info.static_methods[0].name, "create");
    assert_eq!(info.properties.len(), 1);
    assert_eq!(info.properties[0].name, "count");
}

#[test]
fn enums_and_aliases() {
    let e = TsEnum {
        name: "Color".to_string(),
        members: vec![
            TsEnumMemberName::Identifier("Red".to_string()),
            TsEnumMemberName::Str("dark-blue".to_string()),
            TsEnumMemberName::ComputedTemplate,
        ],
    };
    let info = collect_enum(&e).unwrap();
    assert_eq!(info.members.iter().map(|m| m.name.clone()).collect::<Vec<_>>(), vec!["Red", "dark-blue", "<computed>"]);
    assert!(!info.has_flags_decorator);
    let branded = TsTypeAlias { name: "u32".to_string(), type_annotation: kw(KeywordType::Number) };
    assert!(collect_type_alias(&branded).is_none());
    let plain = TsTypeAlias { name: "Id".to_string(), type_annotation: kw(KeywordType::String) };
    assert_eq!(collect_type_alias(&plain).unwrap().name, "Id");
}

#[test]
fn export_collection_in_order() {
    let decls = vec![
        TsExportDecl::Named(Some(TsDeclaration::Function(TsFunction {
            id: Some("greet".to_string()),
            params: vec![param("name", kw(KeywordType::String))],
            return_type: Some(kw(KeywordType::String)),
            is_async: false,
        }))),
        TsExportDecl::Named(None),
        TsExportDecl::Named(Some(TsDeclaration::TypeAlias(TsTypeAlias {
            name: "u8".to_string(),
            type_annotation: kw(KeywordType::Number),
        }))),
        TsExportDecl::Named(Some(TsDeclaration::Other)),
        TsExportDecl::Default(TsDefaultDeclaration::Class(TsClass { id: None, decorators: vec![], elements: vec![] })),
        TsExportDecl::Default(TsDefaultDeclaration::Other),
    ];
    let items = ExportCollector::collect(&decls);
    assert_eq!(items.len(), 2);
    assert!(matches!(&items[0], ExportedItem::Function(f) if f.name == "greet"));
    assert!(matches!(&items[1], ExportedItem::Class(c) if c.name == "default"));
}

fn brand(name: &str) -> TsType {
    TsType::Intersection(vec![
        kw(KeywordType::Number),
        TsType::TypeLiteral(vec![TsSignature::Property {
            key: Some("__brand".to_string()),
            type_annotation: Some(TsType::Literal { string_value: Some(name.to_string()), debug: String::new() }),
            optional: false,
        }]),
    ])
}

#[test]
fn branded_patterns() {
    assert!(is_branded_type_pattern(&brand("u32"), "u32"));
    assert!(!is_branded_type_pattern(&brand("u32"), "u64"));
    assert!(is_branded_type_pattern(&reference("u16"), "u16"));
    assert!(!is_branded_type_pattern(&kw(KeywordType::Number), "u16"));
    let lit = TsType::Literal { string_value: Some("x".to_string()), debug: String::new() };
    assert!(is_string_literal_type(&lit, "x"));
    assert!(!is_string_literal_type(&lit, "y"));
}

#[test]
fn branded_collection() {
    let events = vec![
        BrandEvent::Import {
            source: "witgenstein-ts".to_string(),
            specifiers: vec![Some("u32".to_string()), Some("helper".to_string()), None],
        },
        BrandEvent::Import { source: "other".to_string(), specifiers: vec![Some("s8".to_string())] },
        BrandEvent::TypeAlias(TsTypeAlias { name: "f64".to_string(), type_annotation: brand("f64") }),
        BrandEvent::TypeAlias(TsTypeAlias { name: "u8".to_string(), type_annotation: brand("u16") }),
    ];
    let m = collect_branded_types(&events);
    assert_eq!(m.get("u32"), Some(WitType::U32));
    assert_eq!(m.get("f64"), Some(WitType::F64));
    assert_eq!(m.get("s8"), None);
    assert_eq!(m.get("u8"), None);
    assert_eq!(m.get("helper"), None);
}

#[test]
fn component_build_plan() {
    let p = build_plan("/t", "my-crate", true);
    assert_eq!(p.wrapper_dir, "/t/witgenstein/component");
    assert_eq!(p.build_target_dir, "/t/witgenstein/build");
    assert_eq!(
        p.cargo_args,
        vec![
            "build", "--target", "wasm32-wasip2", "--manifest-path", "/t/witgenstein/component/Cargo.toml",
            "--target-dir", "/t/witgenstein/build", "--release",
        ]
    );
    assert_eq!(p.wasm_path, "/t/witgenstein/build/wasm32-wasip2/release/my_crate_component.wasm");
    let d = build_plan("/t", "x", false);
    assert_eq!(d.cargo_args.len(), 7);
    assert!(d.wasm_path.ends_with("debug/x_component.wasm"));
}

#[test]
fn crates_without_exports_are_refused() {
    assert_eq!(require_exports(&vec![]), Err("no #[export] annotations found in the crate".to_string()));
    assert_eq!(require_exports(&vec![RsExportedItem::Function("f".to_string())]), Ok(()));
}

fn literal(v: &str) -> TsType {
    TsType::Literal { string_value: Some(v.to_string()), debug: format!("'{v}'") }
}

fn prop_sig(key: &str, t: TsType) -> TsSignature {
    TsSignature::Property { key: Some(key.to_string()), type_annotation: Some(t), optional: false }
}

#[test]
fn string_literal_types_are_described_by_value() {
    match extract_type_info(&literal("circle")) {
        TypeInfo::Unknown(d) => assert_eq!(d, "StringLiteral(\"circle\")"),
        other => panic!("unexpected {other:?}"),
    }
}

#[test]
fn a_lone_literal_type_is_unresolvable() {
    let decls = vec![TsExportDecl::Named(Some(TsDeclaration::Function(TsFunction {
        id: Some("pick".to_string()),
        params: vec![param("side", literal("left"))],
        return_type: None,
        is_async: false,
    })))];
    let items = ExportCollector::collect(&decls);
    let r = map_exports(&items, &BrandedTypeMap::new(), &MapperConfig { strict: false });
    assert!(r
        .diagnostics
        .iter()
        .any(|d| d.kind == DiagnosticKind::UnresolvableType && d.message.contains("StringLiteral(\"left\")")));
}

#[test]
fn discriminated_union_alias_maps_to_variant() {
    let decls = vec![TsExportDecl::Named(Some(TsDeclaration::TypeAlias(TsTypeAlias {
        name: "Shape".to_string(),
        type_annotation: TsType::Union(vec![
            TsType::TypeLiteral(vec![prop_sig("kind", literal("circle")), prop_sig("r", kw(KeywordType::Number))]),
            TsType::TypeLiteral(vec![prop_sig("kind", literal("square")), prop_sig("s", kw(KeywordType::Number))]),
        ]),
    })))];
    let items = ExportCollector::collect(&decls);
    let r = map_exports(&items, &BrandedTypeMap::new(), &MapperConfig { strict: false });
    assert_eq!(r.type_defs.len(), 1);
    match &r.type_defs[0] {
        WitTypeDef::Variant(v) => {
            assert_eq!(v.name, "shape");
            assert_eq!(
                v.cases,
                vec![("circle".to_string(), Some(WitType::F64)), ("square".to_string(), Some(WitType::F64))]
            );
        }
        other => panic!("unexpected {other:?}"),
    }
    assert!(r.diagnostics.is_empty());
}

#[test]
fn async_iterable_maps_to_stream() {
    let items = vec![ExportedItem::Function(TsExportedFunction {
        name: "numbers".to_string(),
        params: vec![],
        return_type: Some(TypeInfo::Reference {
            name: "AsyncIterable".to_string(),
            type_args: vec![TypeInfo::Keyword(KeywordType::String)],
        }),
        is_async: false,
    })];
    let r = map_exports(&items, &BrandedTypeMap::new(), &MapperConfig { strict: false });
    assert_eq!(r.functions[0].result, Some(WitType::Stream(Some(Box::new(WitType::WitString)))));
    assert!(r.diagnostics.is_empty());
    let items = vec![ExportedItem::Function(TsExportedFunction {
        name: "chunks".to_string(),
        params: vec![],
        return_type: Some(TypeInfo::Reference {
            name: "ReadableStream".to_string(),
            type_args: vec![TypeInfo::Keyword(KeywordType::Boolean)],
        }),
        is_async: false,
    })];
    let r = map_exports(&items, &BrandedTypeMap::new(), &MapperConfig { strict: false });
    assert_eq!(r.functions[0].result, Some(WitType::Stream(Some(Box::new(WitType::Bool)))));
}

#[test]
fn ambiguous_numeric_help_imports_from_the_package() {
    let d = Diagnostic {
        kind: DiagnosticKind::AmbiguousNumeric,
        message: "ambiguous".to_string(),
        context: "f".to_string(),
    };
    assert!(d.help().contains("import { u32 } from 'witgenstein-ts';"));
}
