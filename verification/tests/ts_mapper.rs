use witgenstein::diagnostic::DiagnosticKind;
use witgenstein::ts_branded::{lookup_branded_name, BrandedTypeMap};
use witgenstein::ts_collect::{
    is_branded_type_name, EnumMemberInfo, ExportCollector, ExportedClass, ExportedEnum,
    ExportedFunction, ExportedInterface, ExportedItem, ExportedTypeAlias, KeywordType,
    MethodInfo, ParamInfo, PropertyInfo, TypeInfo,
};
use witgenstein::ts_mapper::{
    extract_literal_string_from_type, map_exports, map_typed_array, to_kebab_case, MapperConfig,
};
use witgenstein::ts_types::{WitType, WitTypeDef};

#[test]
fn test_lookup_branded_name() {
    assert_eq!(lookup_branded_name("u32"), Some(WitType::U32));
    assert_eq!(lookup_branded_name("s64"), Some(WitType::S64));
    assert_eq!(lookup_branded_name("f64"), Some(WitType::F64));
    assert_eq!(lookup_branded_name("char"), Some(WitType::Char));
    assert_eq!(lookup_branded_name("int"), None);
    assert_eq!(lookup_branded_name("string"), None);
}

#[test]
fn mapper_test_to_kebab_case() {
    assert_eq!(to_kebab_case("camelCase"), "camel-case");
    assert_eq!(to_kebab_case("PascalCase"), "pascal-case");
    assert_eq!(to_kebab_case("simpleword"), "simpleword");
    assert_eq!(to_kebab_case("HTMLParser"), "html-parser");
    assert_eq!(to_kebab_case("getHTTPResponse"), "get-http-response");
    assert_eq!(to_kebab_case("already-kebab"), "already-kebab");
    assert_eq!(to_kebab_case("snake_case"), "snake-case");
    assert_eq!(to_kebab_case("myFunc"), "my-func");
    assert_eq!(to_kebab_case("a"), "a");
    assert_eq!(to_kebab_case(""), "");
}

#[test]
fn test_map_typed_array() {
    assert_eq!(
        map_typed_array("Uint8Array"),
        Some(WitType::List(Box::new(WitType::U8)))
    );
    assert_eq!(
        map_typed_array("Int32Array"),
        Some(WitType::List(Box::new(WitType::S32)))
    );
    assert_eq!(
        map_typed_array("Float64Array"),
        Some(WitType::List(Box::new(WitType::F64)))
    );
    assert_eq!(
        map_typed_array("BigInt64Array"),
        Some(WitType::List(Box::new(WitType::S64)))
    );
    assert_eq!(map_typed_array("String"), None);
}

fn kw(k: KeywordType) -> TypeInfo {
    TypeInfo::Keyword(k)
}

fn reference(name: &str, args: Vec<TypeInfo>) -> TypeInfo {
    TypeInfo::Reference { name: name.to_string(), type_args: args }
}

fn prop(name: &str, t: TypeInfo, optional: bool) -> PropertyInfo {
    PropertyInfo { name: name.to_string(), type_info: t, optional }
}

fn param(name: &str, t: TypeInfo, optional: bool) -> ParamInfo {
    ParamInfo { name: name.to_string(), type_info: t, optional }
}

#[test]
fn branded_names_are_recognised() {
    assert!(is_branded_type_name("u8"));
    assert!(is_branded_type_name("char"));
    assert!(!is_branded_type_name("number"));
    assert!(ExportCollector::new().items.is_empty());
}

#[test]
fn function_with_branded_and_optional_params() {
    let mut branded = BrandedTypeMap::new();
    branded.insert("u32".to_string(), WitType::U32);
    let items = vec![ExportedItem::Function(ExportedFunction {
        name: "addNumbers".to_string(),
        params: vec![
            param("firstValue", reference("u32", vec![]), false),
            param("label", kw(KeywordType::String), true),
        ],
        return_type: Some(reference("u32", vec![])),
        is_async: false,
    })];
    let r = map_exports(&items, &branded, &MapperConfig { strict: false });
    assert!(r.diagnostics.is_empty());
    assert_eq!(r.functions.len(), 1);
    let f = &r.functions[0];
    assert_eq!(f.name, "add-numbers");
    assert_eq!(f.params[0].0, "first-value");
    assert_eq!(f.params[0].1, WitType::U32);
    assert_eq!(f.params[1].1, WitType::Option(Box::new(WitType::WitString)));
    assert_eq!(f.result, Some(WitType::U32));
}

#[test]
fn strict_number_is_diagnosed() {
    let items = vec![ExportedItem::Function(ExportedFunction {
        name: "f".to_string(),
        params: vec![param("x", kw(KeywordType::Number), false)],
        return_type: Some(kw(KeywordType::Void)),
        is_async: false,
    })];
    let r = map_exports(&items, &BrandedTypeMap::new(), &MapperConfig { strict: true });
    assert_eq!(r.diagnostics.len(), 1);
    assert_eq!(r.diagnostics[0].kind, DiagnosticKind::AmbiguousNumeric);
    assert_eq!(
        r.diagnostics[0].message,
        "ambiguous `number` type requires a WIT type annotation (in x)"
    );
    assert!(r.functions[0].params.is_empty());
    assert_eq!(r.functions[0].result, None);

    let lax = map_exports(&items, &BrandedTypeMap::new(), &MapperConfig { strict: false });
    assert_eq!(lax.functions[0].params[0].1, WitType::F64);
}

#[test]
fn async_promise_return_is_unwrapped() {
    let items = vec![ExportedItem::Function(ExportedFunction {
        name: "load".to_string(),
        params: vec![],
        return_type: Some(reference("Promise", vec![kw(KeywordType::String)])),
        is_async: true,
    })];
    let r = map_exports(&items, &BrandedTypeMap::new(), &MapperConfig { strict: false });
    assert_eq!(r.functions[0].result, Some(WitType::WitString));
    assert!(r.functions[0].is_async);
}

#[test]
fn unions_become_options_and_results() {
    let items = vec![
        ExportedItem::TypeAlias(ExportedTypeAlias {
            name: "MaybeName".to_string(),
            type_info: TypeInfo::Union(vec![kw(KeywordType::String), TypeInfo::Null]),
        }),
        ExportedItem::TypeAlias(ExportedTypeAlias {
            name: "Outcome".to_string(),
            type_info: TypeInfo::Union(vec![
                TypeInfo::ObjectLiteral(vec![prop("ok", kw(KeywordType::Boolean), false)]),
                TypeInfo::ObjectLiteral(vec![prop("err", kw(KeywordType::String), false)]),
            ]),
        }),
    ];
    let r = map_exports(&items, &BrandedTypeMap::new(), &MapperConfig { strict: false });
    assert_eq!(r.type_defs.len(), 2);
    match &r.type_defs[0] {
        WitTypeDef::TypeAlias(a) => {
            assert_eq!(a.name, "maybe-name");
            assert_eq!(a.target, WitType::Option(Box::new(WitType::WitString)));
        }
        other => panic!("unexpected {other:?}"),
    }
    match &r.type_defs[1] {
        WitTypeDef::TypeAlias(a) => {
            assert_eq!(
                a.target,
                WitType::Result {
                    ok: Some(Box::new(WitType::Bool)),
                    err: Some(Box::new(WitType::WitString))
                }
            );
            assert_eq!(a.target.to_string(), "result<bool, string>");
        }
        other => panic!("unexpected {other:?}"),
    }
}

#[test]
fn discriminated_union_becomes_variant() {
    let items = vec![ExportedItem::TypeAlias(ExportedTypeAlias {
        name: "Shape".to_string(),
        type_info: TypeInfo::Union(vec![
            TypeInfo::ObjectLiteral(vec![
                prop("kind", reference("circle", vec![]), false),
                prop("radius", kw(KeywordType::Number), false),
            ]),
            TypeInfo::ObjectLiteral(vec![
                prop("kind", reference("rect", vec![]), false),
                prop("w", kw(KeywordType::Number), false),
                prop("h", kw(KeywordType::Number), false),
            ]),
            TypeInfo::ObjectLiteral(vec![prop("kind", reference("none", vec![]), false)]),
        ]),
    })];
    let r = map_exports(&items, &BrandedTypeMap::new(), &MapperConfig { strict: false });
    assert_eq!(r.type_defs.len(), 2);
    match &r.type_defs[0] {
        WitTypeDef::Record(rec) => {
            assert_eq!(rec.name, "shape-rect");
            assert_eq!(rec.fields.len(), 2);
        }
        other => panic!("unexpected {other:?}"),
    }
    match &r.type_defs[1] {
        WitTypeDef::Variant(v) => {
            assert_eq!(v.name, "shape");
            assert_eq!(v.cases[0], ("circle".to_string(), Some(WitType::F64)));
            assert_eq!(v.cases[1], ("rect".to_string(), Some(WitType::Named("shape-rect".to_string()))));
            assert_eq!(v.cases[2], ("none".to_string(), None));
        }
        other => panic!("unexpected {other:?}"),
    }
}

#[test]
fn classes_interfaces_enums_and_references() {
    let items = vec![
        ExportedItem::Interface(ExportedInterface {
            name: "UserProfile".to_string(),
            properties: vec![
                prop("displayName", kw(KeywordType::String), false),
                prop("tags", TypeInfo::Array(Box::new(kw(KeywordType::String))), true),
            ],
        }),
        ExportedItem::Class(ExportedClass {
            name: "Counter".to_string(),
            constructor_params: Some(vec![param("start", reference("Uint8Array", vec![]), false)]),
            methods: vec![MethodInfo {
                name: "getProfile".to_string(),
                params: vec![],
                return_type: Some(reference("UserProfile", vec![])),
                is_async: false,
            }],
            static_methods: vec![],
            properties: vec![],
            decorators: vec![],
        }),
        ExportedItem::Enum(ExportedEnum {
            name: "Color".to_string(),
            members: vec![EnumMemberInfo { name: "DarkRed".to_string() }],
            has_flags_decorator: false,
        }),
        ExportedItem::Function(ExportedFunction {
            name: "bad".to_string(),
            params: vec![
                param("m", reference("Map", vec![kw(KeywordType::String)]), false),
                param("g", reference("Box", vec![kw(KeywordType::String)]), false),
                param("cb", TypeInfo::FunctionType, false),
            ],
            return_type: None,
            is_async: false,
        }),
    ];
    let r = map_exports(&items, &BrandedTypeMap::new(), &MapperConfig { strict: false });
    assert_eq!(r.type_defs.len(), 3);
    match &r.type_defs[0] {
        WitTypeDef::Record(rec) => {
            assert_eq!(rec.name, "user-profile");
            assert_eq!(rec.fields[0].0, "display-name");
            assert_eq!(
                rec.fields[1].1,
                WitType::Option(Box::new(WitType::List(Box::new(WitType::WitString))))
            );
        }
        other => panic!("unexpected {other:?}"),
    }
    match &r.type_defs[1] {
        WitTypeDef::Resource(res) => {
            assert_eq!(res.name, "counter");
            let ctor = res.constructor_params.as_ref().unwrap();
            assert_eq!(ctor[0].1, WitType::List(Box::new(WitType::U8)));
            assert_eq!(res.methods[0].name, "get-profile");
            assert_eq!(res.methods[0].result, Some(WitType::Named("user-profile".to_string())));
        }
        other => panic!("unexpected {other:?}"),
    }
    match &r.type_defs[2] {
        WitTypeDef::Enum(e) => assert_eq!(e.cases, vec!["dark-red".to_string()]),
        other => panic!("unexpected {other:?}"),
    }
    assert_eq!(r.diagnostics.len(), 3);
    assert_eq!(r.diagnostics[0].message, "`Map` has no direct WIT equivalent (in m)");
    assert_eq!(
        r.diagnostics[1].message,
        "user-defined generic type `Box<...>` cannot be mapped to WIT (in g)"
    );
    assert_eq!(r.diagnostics[2].kind, DiagnosticKind::UnsupportedType);
    assert_eq!(r.diagnostics[2].context, "cb");
}

#[test]
fn inline_object_literal_creates_record() {
    let items = vec![ExportedItem::Function(ExportedFunction {
        name: "mk".to_string(),
        params: vec![param(
            "opts",
            TypeInfo::ObjectLiteral(vec![prop("x", kw(KeywordType::Boolean), false)]),
            false,
        )],
        return_type: None,
        is_async: false,
    })];
    let r = map_exports(&items, &BrandedTypeMap::new(), &MapperConfig { strict: false });
    assert_eq!(r.functions[0].params[0].1, WitType::Named("opts-record".to_string()));
    assert_eq!(r.type_defs.len(), 1);
}

#[test]
fn literal_strings_come_from_plain_references() {
    assert_eq!(extract_literal_string_from_type(&reference("a", vec![])), Some("a".to_string()));
    assert_eq!(
        extract_literal_string_from_type(&reference("a", vec![kw(KeywordType::String)])),
        None
    );
    assert_eq!(extract_literal_string_from_type(&TypeInfo::Null), None);
}
