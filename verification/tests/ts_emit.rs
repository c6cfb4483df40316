use witgenstein::ts_emit::{
    emit_enum, emit_func, emit_package_header, emit_param_list, emit_record, emit_resource,
    emit_static_func, emit_type_alias, emit_type_def, emit_variant, emit_flags, emit_wit,
};
use witgenstein::ts_types::{
    WitEnum, WitFlags, WitFunc, WitInterface, WitPackage, WitRecord, WitResource, WitType,
    WitTypeAlias, WitTypeDef, WitVariant, WitWorld,
};

fn func(name: &str, params: Vec<(&str, WitType)>, result: Option<WitType>, is_async: bool) -> WitFunc {
    WitFunc {
        name: name.to_string(),
        params: params.into_iter().map(|(n, t)| (n.to_string(), t)).collect(),
        result,
        is_async,
    }
}

#[test]
fn wit_type_display() {
    assert_eq!(WitType::List(Box::new(WitType::U8)).to_string(), "list<u8>");
    assert_eq!(
        WitType::Result { ok: None, err: Some(Box::new(WitType::WitString)) }.to_string(),
        "result<_, string>"
    );
    assert_eq!(WitType::Result { ok: None, err: None }.to_string(), "result");
    assert_eq!(
        WitType::Tuple(vec![WitType::U32, WitType::Bool, WitType::Named("p".into())]).to_string(),
        "tuple<u32, bool, p>"
    );
    assert_eq!(WitType::Future(None).to_string(), "future");
    assert_eq!(WitType::Stream(Some(Box::new(WitType::S8))).to_string(), "stream<s8>");
    assert_eq!(WitType::Borrow("h".into()).to_string(), "borrow<h>");
    assert_eq!(WitType::Own("h".into()).to_string(), "own<h>");
}

#[test]
fn emit_package_header_with_and_without_version() {
    let mut pkg = WitPackage {
        namespace: "myorg".into(),
        name: "my-pkg".into(),
        version: Some("1.0.0".into()),
        world: WitWorld {
            name: "w".into(),
            exports: WitInterface { name: "api".into(), type_defs: vec![], functions: vec![] },
            imports: vec![],
        },
    };
    let mut out = String::new();
    emit_package_header(&mut out, &pkg);
    assert_eq!(out, "package myorg:my-pkg@1.0.0;\n");
    pkg.version = None;
    let mut out = String::new();
    emit_package_header(&mut out, &pkg);
    assert_eq!(out, "package myorg:my-pkg;\n");
}

#[test]
fn emit_type_definitions() {
    let mut out = String::new();
    emit_record(
        &mut out,
        &WitRecord { name: "point".into(), fields: vec![("x".into(), WitType::F64), ("y".into(), WitType::F64)] },
        "  ",
    );
    assert_eq!(out, "  record point {\n    x: f64,\n    y: f64,\n  }\n");

    let mut out = String::new();
    emit_enum(&mut out, &WitEnum { name: "color".into(), cases: vec!["red".into(), "green".into()] }, "");
    assert_eq!(out, "enum color {\n  red,\n  green,\n}\n");

    let mut out = String::new();
    emit_flags(&mut out, &WitFlags { name: "perms".into(), flags: vec!["read".into()] }, "");
    assert_eq!(out, "flags perms {\n  read,\n}\n");

    let mut out = String::new();
    emit_variant(
        &mut out,
        &WitVariant { name: "shape".into(), cases: vec![("circle".into(), Some(WitType::F64)), ("none".into(), None)] },
        "",
    );
    assert_eq!(out, "variant shape {\n  circle(f64),\n  none,\n}\n");

    let mut out = String::new();
    emit_type_alias(&mut out, &WitTypeAlias { name: "id".into(), target: WitType::U64 }, "  ");
    assert_eq!(out, "  type id = u64;\n");

    let mut out = String::new();
    emit_type_def(&mut out, &WitTypeDef::TypeAlias(WitTypeAlias { name: "id".into(), target: WitType::U64 }), "");
    assert_eq!(out, "type id = u64;\n");
}

#[test]
fn emit_functions_and_resources() {
    let mut out = String::new();
    emit_param_list(&mut out, &[("a".into(), WitType::U32), ("b".into(), WitType::WitString)]);
    assert_eq!(out, "a: u32, b: string");

    let mut out = String::new();
    emit_func(&mut out, &func("fetch", vec![("url", WitType::WitString)], Some(WitType::U32), true), "  ");
    assert_eq!(out, "  fetch: async func(url: string) -> u32;\n");

    let mut out = String::new();
    emit_static_func(&mut out, &func("make", vec![], None, false));
    assert_eq!(out, "make: static func();\n");

    let mut out = String::new();
    emit_resource(
        &mut out,
        &WitResource {
            name: "counter".into(),
            constructor_params: Some(vec![("initial".into(), WitType::U32)]),
            methods: vec![func("get", vec![], Some(WitType::U32), false)],
            static_funcs: vec![func("zero", vec![], Some(WitType::Own("counter".into())), false)],
        },
        "  ",
    );
    assert_eq!(
        out,
        "  resource counter {\n    constructor(initial: u32);\n    get: func() -> u32;\n    zero: static func() -> own<counter>;\n  }\n"
    );
}

#[test]
fn emit_whole_package() {
    let pkg = WitPackage {
        namespace: "acme".into(),
        name: "lib".into(),
        version: None,
        world: WitWorld {
            name: "acme-world".into(),
            exports: WitInterface {
                name: "types".into(),
                type_defs: vec![
                    WitTypeDef::Enum(WitEnum { name: "mode".into(), cases: vec!["fast".into()] }),
                    WitTypeDef::TypeAlias(WitTypeAlias { name: "id".into(), target: WitType::U64 }),
                ],
                functions: vec![func("run", vec![("m", WitType::Named("mode".into()))], None, false)],
            },
            imports: vec![WitInterface {
                name: "dep".into(),
                type_defs: vec![],
                functions: vec![func("ping", vec![], None, false)],
            }],
        },
    };
    assert_eq!(
        emit_wit(&pkg),
        "package acme:lib;\n\ninterface dep {\n  ping: func();\n}\n\ninterface types {\n  enum mode {\n    fast,\n  }\n\n  type id = u64;\n}\n\nworld acme-world {\n  import dep;\n  export types;\n  export run: func(m: mode);\n}\n"
    );
}

#[test]
fn emit_world_without_types_has_no_types_interface() {
    let pkg = WitPackage {
        namespace: "a".into(),
        name: "b".into(),
        version: Some("0.1.0".into()),
        world: WitWorld {
            name: "w".into(),
            exports: WitInterface { name: "api".into(), type_defs: vec![], functions: vec![] },
            imports: vec![],
        },
    };
    assert_eq!(emit_wit(&pkg), "package a:b@0.1.0;\n\nworld w {\n}\n");
}
