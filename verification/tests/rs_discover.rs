use witgenstein::rs_auto::{visit_items, DiscoverResult, ExportedItem};
use witgenstein::rs_discover::{has_export_attr, impl_type_name, is_constructor};
use witgenstein::rs_glue::{
    build_iface_path, collect_named_types, contains_named, from_user_fn_name, pascal_case, return_type_bindings,
    to_user_fn_name, type_as_bindings, wrap_from_user_expr, wrap_return_from_user, wrap_to_user_expr,
};
use witgenstein::rs_macros_extract::{ResolvedType, ResolvedTypeDef, TypeDiscovery};
use witgenstein::rs_syntax::{
    AttrDef, EnumDef, FieldsDef, FnInput, FnItem, FnSig, GenericArg, ImplItem, ImplItemDef, PathArgs, RustItem,
    RustType, StructDef,
};

fn ty(name: &str) -> RustType {
    RustType::Path { ident: name.to_string(), args: PathArgs::Bare }
}

fn generic(name: &str, args: Vec<RustType>) -> RustType {
    RustType::Path { ident: name.to_string(), args: PathArgs::AngleBracketed(args.into_iter().map(GenericArg::Type).collect()) }
}

fn export() -> Vec<AttrDef> {
    vec![AttrDef { ident: Some("export".to_string()) }]
}

fn sig(name: &str, inputs: Vec<FnInput>, output: Option<RustType>) -> FnSig {
    FnSig { name: name.to_string(), is_async: false, inputs, output }
}

fn typed(name: &str, t: RustType) -> FnInput {
    FnInput::Typed { name: Some(name.to_string()), ty: t }
}

#[test]
fn test_has_export_attr() {
    let attrs = vec![AttrDef { ident: Some("export".to_string()) }];
    assert!(has_export_attr(&attrs));
}

#[test]
fn test_no_export_attr() {
    let attrs = vec![AttrDef { ident: Some("inline".to_string()) }];
    assert!(!has_export_attr(&attrs));
}

#[test]
fn test_discover_from_source() {
    let items = vec![
        RustItem::Other,
        RustItem::Fn(FnItem {
            attrs: export(),
            sig: sig("greet", vec![typed("name", ty("String"))], Some(ty("String"))),
        }),
        RustItem::Struct(StructDef {
            name: "Counter".to_string(),
            fields: FieldsDef::Named(vec![("count".to_string(), ty("u32"))]),
        }),
        RustItem::Impl(ImplItem {
            attrs: export(),
            self_ty: ty("Counter"),
            items: vec![ImplItemDef::Fn(sig("new", vec![typed("initial", ty("u32"))], Some(ty("Self"))))],
        }),
        RustItem::Fn(FnItem { attrs: vec![], sig: sig("not_exported", vec![], None) }),
    ];
    let mut result = DiscoverResult::new();
    let mut pending: Vec<Vec<String>> = Vec::new();
    visit_items(&vec![], &items, &mut result, &mut pending);
    assert!(result.contains(&ExportedItem::Function("greet".into())));
    assert!(result.contains(&ExportedItem::Impl("Counter".into())));
    assert_eq!(result.len(), 2);
    assert!(pending.is_empty());
}

#[test]
fn nested_modules_qualify_names() {
    let items = vec![
        RustItem::Mod {
            name: "inner".to_string(),
            items: vec![RustItem::Fn(FnItem { attrs: export(), sig: sig("f", vec![], None) }), RustItem::ModDecl("deep".to_string())],
        },
        RustItem::ModDecl("other".to_string()),
    ];
    let mut result = DiscoverResult::new();
    let mut pending: Vec<Vec<String>> = Vec::new();
    visit_items(&vec!["top".to_string()], &items, &mut result, &mut pending);
    assert!(result.contains(&ExportedItem::Function("top::inner::f".into())));
    assert_eq!(
        pending,
        vec![
            vec!["top".to_string(), "inner".to_string(), "deep".to_string()],
            vec!["top".to_string(), "other".to_string()]
        ]
    );
}

fn discovery_items() -> Vec<RustItem> {
    vec![
        RustItem::Struct(StructDef {
            name: "Point".to_string(),
            fields: FieldsDef::Named(vec![("x".to_string(), ty("f64")), ("tag".to_string(), ty("Color"))]),
        }),
        RustItem::Enum(EnumDef {
            name: "Color".to_string(),
            variants: vec![("Red".to_string(), FieldsDef::Unit), ("Blue".to_string(), FieldsDef::Unit)],
        }),
        RustItem::Enum(EnumDef {
            name: "Shape".to_string(),
            variants: vec![
                ("Dot".to_string(), FieldsDef::Unit),
                ("Line".to_string(), FieldsDef::Unnamed(vec![ty("Point"), ty("Point")])),
            ],
        }),
        RustItem::Fn(FnItem {
            attrs: export(),
            sig: sig(
                "origin",
                vec![typed("shape", ty("Shape"))],
                Some(generic("Result", vec![RustType::Tuple(vec![]), ty("String")])),
            ),
        }),
        RustItem::Impl(ImplItem {
            attrs: export(),
            self_ty: ty("Counter"),
            items: vec![
                ImplItemDef::Fn(sig("new", vec![], Some(ty("Counter")))),
                ImplItemDef::Fn(FnSig {
                    name: "get".to_string(),
                    is_async: false,
                    inputs: vec![FnInput::Receiver { mutable: false }],
                    output: Some(generic("Option", vec![ty("Self")])),
                }),
                ImplItemDef::Fn(sig("make", vec![], Some(ty("Point")))),
            ],
        }),
    ]
}

#[test]
fn discovery_resolves_exports_and_definitions() {
    let mut d = TypeDiscovery::new();
    d.process_items(discovery_items());
    assert_eq!(d.functions.len(), 1);
    assert_eq!(
        d.functions[0].return_type,
        Some(ResolvedType::Result { ok: None, err: Some(Box::new(ResolvedType::WitString)) })
    );
    assert_eq!(d.impls.len(), 1);
    let imp = &d.impls[0];
    assert_eq!(imp.impl_name, "Counter");
    assert!(imp.constructor.is_some());
    assert_eq!(imp.methods.len(), 1);
    assert_eq!(imp.methods[0].return_type, Some(ResolvedType::Option(Box::new(ResolvedType::Own("Counter".to_string())))));
    assert_eq!(imp.static_funcs.len(), 1);
    let names: Vec<String> = d
        .type_defs
        .iter()
        .map(|t| match t {
            ResolvedTypeDef::Record(r) => r.name.clone(),
            ResolvedTypeDef::Enum(e) => e.name.clone(),
            ResolvedTypeDef::Variant(v) => v.name.clone(),
        })
        .collect();
    assert_eq!(names, vec!["Color".to_string(), "Point".to_string(), "Shape".to_string()]);
    assert_eq!(d.resolve_type(&RustType::Reference(Box::new(ty("Counter")))), ResolvedType::Borrow("Counter".to_string()));
    assert_eq!(d.resolve_type(&RustType::Reference(Box::new(ty("str")))), ResolvedType::WitString);
    assert_eq!(
        d.resolve_type(&generic("HashMap", vec![ty("u8"), ty("u16"), ty("u32")])),
        ResolvedType::List(Box::new(ResolvedType::Tuple(vec![ResolvedType::U8, ResolvedType::U16])))
    );
    let named = collect_named_types(&d);
    let mut sorted = named.clone();
    sorted.sort();
    assert_eq!(sorted, vec!["Color".to_string(), "Point".to_string(), "Shape".to_string()]);
}

#[test]
fn external_definitions_keep_the_first() {
    let mut d = TypeDiscovery::new();
    d.collect_external_types(vec![
        RustItem::Struct(StructDef { name: "A".to_string(), fields: FieldsDef::Unit }),
        RustItem::Mod {
            name: "m".to_string(),
            items: vec![RustItem::Struct(StructDef { name: "A".to_string(), fields: FieldsDef::Named(vec![]) })],
        },
    ]);
    assert_eq!(d.structs.len(), 1);
    assert!(matches!(d.structs[0].fields, FieldsDef::Unit));
}

#[test]
fn constructor_and_impl_names() {
    assert!(is_constructor("new", &sig("new", vec![], Some(ty("Self"))), "Counter"));
    assert!(is_constructor("new", &sig("new", vec![], Some(ty("Counter"))), "Counter"));
    assert!(!is_constructor("new", &sig("new", vec![FnInput::Receiver { mutable: false }], Some(ty("Self"))), "Counter"));
    assert!(!is_constructor("make", &sig("make", vec![], Some(ty("Self"))), "Counter"));
    let imp = ImplItem { attrs: vec![], self_ty: ty("Counter"), items: vec![] };
    assert_eq!(impl_type_name(&imp), Some("Counter".to_string()));
}

#[test]
fn glue_names_and_types() {
    assert_eq!(pascal_case("http-body"), "HttpBody");
    assert_eq!(pascal_case("a--b"), "AB");
    assert_eq!(to_user_fn_name("HttpBody"), "__cvt_http_body_to_user");
    assert_eq!(from_user_fn_name("HttpBody"), "__cvt_http_body_from_user");
    assert_eq!(build_iface_path("my-org:my-pkg@1.0.0", "my-api"), "bindings::exports::my_org::my_pkg::my_api");
    assert_eq!(build_iface_path("solo", "api"), "bindings::exports::solo::solo::api");
    let t = ResolvedType::Result {
        ok: Some(Box::new(ResolvedType::List(Box::new(ResolvedType::Named("Point".to_string()))))),
        err: None,
    };
    assert_eq!(type_as_bindings(&t, "p"), "Result<Vec<p::Point>, ()>");
    assert_eq!(type_as_bindings(&ResolvedType::Tuple(vec![ResolvedType::U8, ResolvedType::S64]), "p"), "(u8, i64)");
    assert!(contains_named(&t));
    assert!(!contains_named(&ResolvedType::Own("X".to_string())));
    assert_eq!(
        wrap_to_user_expr("x", &t),
        "x.map(|v| v.into_iter().map(|v| __cvt_point_to_user(v)).collect()).map_err(|e| e)"
    );
    assert_eq!(wrap_from_user_expr("x", &ResolvedType::U32), "x");
    assert_eq!(return_type_bindings(&Some(ResolvedType::Tuple(vec![])), "p"), "");
    assert_eq!(return_type_bindings(&Some(ResolvedType::Bool), "p"), "-> bool");
    assert_eq!(
        wrap_return_from_user("f()", &Some(ResolvedType::Stream(Some(Box::new(ResolvedType::U8))))),
        "{ let _ = f(); let (_writer, reader) = bindings::wit_stream::new::<u8>(); reader }"
    );
}

#[test]
fn discovery_follows_definitions_transitively() {
    let mut d = TypeDiscovery::new();
    d.collect_external_types(vec![
        RustItem::Struct(StructDef {
            name: "Inner".to_string(),
            fields: FieldsDef::Unnamed(vec![ty("u32")]),
        }),
        RustItem::Struct(StructDef {
            name: "Outer".to_string(),
            fields: FieldsDef::Named(vec![(
                "items".to_string(),
                generic("Vec", vec![generic("Option", vec![ty("Inner")])]),
            )]),
        }),
    ]);
    d.process_items(vec![RustItem::Fn(FnItem {
        attrs: export(),
        sig: sig("load", vec![typed("o", RustType::Reference(Box::new(ty("Outer"))))], Some(ty("Missing"))),
    })]);
    let names: Vec<String> = d
        .type_defs
        .iter()
        .map(|t| match t {
            ResolvedTypeDef::Record(r) => r.name.clone(),
            ResolvedTypeDef::Enum(e) => e.name.clone(),
            ResolvedTypeDef::Variant(v) => v.name.clone(),
        })
        .collect();
    assert_eq!(names, vec!["Inner".to_string(), "Outer".to_string()]);
    assert_eq!(d.functions[0].return_type, Some(ResolvedType::Named("Missing".to_string())));
    assert!(d.visited_types.contains(&"Missing".to_string()));
}

#[test]
fn pascal_then_kebab_gives_the_name_back() {
    for k in ["hash-output", "base64-url", "ab-cd-e", "x"] {
        assert_eq!(witgenstein::wit_common::to_kebab_case(&pascal_case(k)), k);
    }
    assert_eq!(pascal_case("base64-url"), "Base64Url");
}

#[test]
fn discovery_records_only_reached_definitions_once() {
    let mut d = TypeDiscovery::new();
    d.process_items(vec![
        RustItem::Struct(StructDef { name: "Unused".to_string(), fields: FieldsDef::Unit }),
        RustItem::Enum(EnumDef {
            name: "PadSide".to_string(),
            variants: vec![("Left".to_string(), FieldsDef::Unit), ("Right".to_string(), FieldsDef::Unit)],
        }),
        RustItem::Struct(StructDef {
            name: "PadConfig".to_string(),
            fields: FieldsDef::Named(vec![("side".to_string(), ty("PadSide")), ("width".to_string(), ty("u32"))]),
        }),
        RustItem::Fn(FnItem { attrs: export(), sig: sig("pad", vec![typed("c", ty("PadConfig"))], Some(ty("PadConfig"))) }),
    ]);
    let names: Vec<String> = d
        .type_defs
        .iter()
        .map(|t| match t {
            ResolvedTypeDef::Record(r) => r.name.clone(),
            ResolvedTypeDef::Enum(e) => e.name.clone(),
            ResolvedTypeDef::Variant(v) => v.name.clone(),
        })
        .collect();
    assert_eq!(names, vec!["PadSide".to_string(), "PadConfig".to_string()]);
    let before = d.type_defs.len();
    let r = d.resolve_type(&ty("PadConfig"));
    assert_eq!(r, ResolvedType::Named("PadConfig".to_string()));
    assert_eq!(d.type_defs.len(), before);
}

#[test]
fn the_macro_input_definition_wins_over_a_scanned_one() {
    let mut d = TypeDiscovery::new();
    d.collect_external_types(vec![RustItem::Struct(StructDef {
        name: "Point".to_string(),
        fields: FieldsDef::Named(vec![("x".to_string(), ty("f64"))]),
    })]);
    d.process_items(vec![
        RustItem::Struct(StructDef {
            name: "Point".to_string(),
            fields: FieldsDef::Named(vec![("x".to_string(), ty("f64")), ("y".to_string(), ty("f64"))]),
        }),
        RustItem::Fn(FnItem { attrs: export(), sig: sig("origin", vec![], Some(ty("Point"))) }),
    ]);
    assert_eq!(d.functions.len(), 1);
    assert_eq!(d.functions[0].return_type, Some(ResolvedType::Named("Point".to_string())));
    assert_eq!(d.type_defs.len(), 1);
    match &d.type_defs[0] {
        ResolvedTypeDef::Record(r) => {
            assert_eq!(r.name, "Point");
            assert_eq!(r.fields.len(), 2);
            assert_eq!(r.fields[1].0, "y");
            assert_eq!(r.fields[1].1, ResolvedType::F64);
        },
        other => panic!("unexpected {other:?}"),
    }
}
