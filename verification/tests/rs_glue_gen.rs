use witgenstein::rs_glue_gen::{
    component_glue, gen_ctor_delegation, gen_enum_conversions, gen_fn_delegation, gen_method_delegation,
    gen_record_conversions, gen_static_delegation, gen_variant_conversions, generate_bindings_mod,
    generate_glue, generate_guest_impl, generate_resource_impls, generate_resource_wrappers,
    generate_type_conversions, is_config_attr, join_strings, parse_config, string_literal, ComponentConfig,
};
use witgenstein::rs_macros_extract::{
    ExportedFunction, ExportedImpl, ResolvedEnum, ResolvedRecord, ResolvedType, ResolvedTypeDef,
    ResolvedVariant, TypeDiscovery,
};

fn func(name: &str, params: Vec<(&str, ResolvedType)>, ret: Option<ResolvedType>) -> ExportedFunction {
    ExportedFunction {
        name: name.to_string(),
        params: params.into_iter().map(|(n, t)| (n.to_string(), t)).collect(),
        return_type: ret,
        is_async: false,
        is_mut_self: false,
    }
}

fn named(n: &str) -> ResolvedType {
    ResolvedType::Named(n.to_string())
}

#[test]
fn joins_with_separators() {
    let parts = vec!["a".to_string(), "b".to_string(), "c".to_string()];
    assert_eq!(join_strings(&parts, ", "), "a, b, c");
    assert_eq!(join_strings(&vec![], ", "), "");
    assert_eq!(join_strings(&vec!["x".to_string()], "+"), "x");
}

#[test]
fn free_function_delegation() {
    let f = func("add", vec![("a", ResolvedType::U32), ("b", ResolvedType::U32)], Some(ResolvedType::U32));
    assert_eq!(gen_fn_delegation(&f, "p"), "fn add(a: u32, b: u32) -> u32 {\nadd(a, b)\n}\n");
}

#[test]
fn delegation_converts_named_types_and_awaits() {
    let mut f = func("makePoint", vec![("originPoint", named("Point"))], Some(named("Point")));
    f.is_async = true;
    assert_eq!(
        gen_fn_delegation(&f, "p"),
        "async fn make_point(origin_point: p::Point) -> p::Point {\n\
         __cvt_point_from_user(makePoint(__cvt_point_to_user(origin_point)).await)\n}\n"
    );
}

#[test]
fn unit_result_has_no_return_annotation() {
    let f = func("reset", vec![], Some(ResolvedType::Tuple(vec![])));
    assert_eq!(gen_fn_delegation(&f, "p"), "fn reset()  {\nreset()\n}\n");
}

#[test]
fn method_static_and_constructor_delegations() {
    let mut m = func("increment", vec![("by", ResolvedType::U32)], Some(ResolvedType::U32));
    m.is_mut_self = true;
    assert_eq!(
        gen_method_delegation(&m, "Counter", "p"),
        "fn increment(&self, by: u32) -> u32 {\nCounter::increment(&mut *self.0.borrow_mut(), by)\n}\n"
    );
    let g = func("get", vec![], Some(ResolvedType::U32));
    assert_eq!(
        gen_method_delegation(&g, "Counter", "p"),
        "fn get(&self) -> u32 {\nCounter::get(&*self.0.borrow())\n}\n"
    );
    let s = func("zero", vec![], Some(ResolvedType::U32));
    assert_eq!(gen_static_delegation(&s, "Counter", "p"), "fn zero() -> u32 {\nCounter::zero()\n}\n");
    let c = func("new", vec![("start", ResolvedType::U32)], None);
    assert_eq!(
        gen_ctor_delegation(&c, "Counter", "p"),
        "fn new(start: u32) -> Self {\n__CounterWrapper(std::cell::RefCell::new(Counter::new(start)))\n}\n"
    );
}

#[test]
fn record_conversions() {
    let r = ResolvedRecord {
        name: "Point".to_string(),
        fields: vec![("x".to_string(), ResolvedType::F64), ("labelText".to_string(), ResolvedType::WitString)],
    };
    assert_eq!(
        gen_record_conversions(&r, "p"),
        "fn __cvt_point_to_user(v: p::Point) -> Point {\nPoint { x: v.x, labelText: v.label_text }\n}\n\
         fn __cvt_point_from_user(v: Point) -> p::Point {\np::Point { x: v.x, label_text: v.labelText }\n}\n"
    );
}

#[test]
fn enum_conversions() {
    let e = ResolvedEnum { name: "Color".to_string(), cases: vec!["Red".to_string(), "DarkBlue".to_string()] };
    assert_eq!(
        gen_enum_conversions(&e, "p"),
        "fn __cvt_color_to_user(v: p::Color) -> Color {\nmatch v { p::Color::Red => Color::Red, p::Color::DarkBlue => Color::DarkBlue }\n}\n\
         fn __cvt_color_from_user(v: Color) -> p::Color {\nmatch v { Color::Red => p::Color::Red, Color::DarkBlue => p::Color::DarkBlue }\n}\n"
    );
}

#[test]
fn variant_conversions() {
    let v = ResolvedVariant {
        name: "Shape".to_string(),
        cases: vec![("Circle".to_string(), Some(named("Point"))), ("Empty".to_string(), None)],
    };
    assert_eq!(
        gen_variant_conversions(&v, "p"),
        "fn __cvt_shape_to_user(v: p::Shape) -> Shape {\nmatch v { p::Shape::Circle(inner) => Shape::Circle(__cvt_point_to_user(inner)), p::Shape::Empty => Shape::Empty }\n}\n\
         fn __cvt_shape_from_user(v: Shape) -> p::Shape {\nmatch v { Shape::Circle(inner) => p::Shape::Circle(__cvt_point_from_user(inner)), Shape::Empty => p::Shape::Empty }\n}\n"
    );
}

#[test]
fn string_literal_escapes() {
    assert_eq!(string_literal("a\"b\\c\rd\ne"), "\"a\\\"b\\\\c\\rd\ne\"");
    assert_eq!(string_literal(""), "\"\"");
    assert!(generate_bindings_mod("x").contains("inline: \"x\","));
}

fn counter_discovery() -> TypeDiscovery {
    let mut d = TypeDiscovery::new();
    d.functions.push(func("origin", vec![], Some(named("Point"))));
    d.impls.push(ExportedImpl {
        impl_name: "Counter".to_string(),
        constructor: Some(func("new", vec![], None)),
        methods: vec![func("get", vec![], Some(ResolvedType::U32))],
        static_funcs: vec![],
    });
    d.type_defs.push(ResolvedTypeDef::Record(ResolvedRecord {
        name: "Point".to_string(),
        fields: vec![("x".to_string(), ResolvedType::S32)],
    }));
    d.type_defs.push(ResolvedTypeDef::Enum(ResolvedEnum { name: "Unused".to_string(), cases: vec!["A".to_string()] }));
    d
}

#[test]
fn wrappers_and_guest_impls() {
    let d = counter_discovery();
    assert_eq!(generate_resource_wrappers(&d), "struct __CounterWrapper(std::cell::RefCell<Counter>);\n");
    assert_eq!(
        generate_guest_impl(&d, "p"),
        "impl p::Guest for __WitgensteinComponent {\ntype Counter = __CounterWrapper;\n\
         fn origin() -> p::Point {\n__cvt_point_from_user(origin())\n}\n}\n"
    );
    assert_eq!(
        generate_resource_impls(&d, "p"),
        "impl p::GuestCounter for __CounterWrapper {\n\
         fn new() -> Self {\n__CounterWrapper(std::cell::RefCell::new(Counter::new()))\n}\n\
         fn get(&self) -> u32 {\nCounter::get(&*self.0.borrow())\n}\n}\n"
    );
}

#[test]
fn conversions_only_for_named_types() {
    let d = counter_discovery();
    let conv = generate_type_conversions(&d, "p", &vec!["Point".to_string()]);
    assert!(conv.contains("__cvt_point_to_user"));
    assert!(!conv.contains("Unused"));
    assert_eq!(generate_type_conversions(&d, "p", &vec![]), "");
}

#[test]
fn whole_glue_layout() {
    let d = counter_discovery();
    let glue = generate_glue(&d, "package a:b;", "a:b@1.0.0", "api");
    assert!(glue.starts_with("#[allow(warnings)]\nmod bindings {"));
    assert!(glue.contains("impl bindings::exports::a::b::api::Guest for __WitgensteinComponent"));
    assert!(glue.contains("fn __cvt_point_to_user(v: bindings::exports::a::b::api::Point) -> Point"));
    assert!(!glue.contains("__cvt_unused"));
    assert!(glue.ends_with("bindings::export!(__WitgensteinComponent with_types_in bindings);\n"));
}

#[test]
fn component_config_defaults_and_overrides() {
    let c = ComponentConfig::default();
    assert_eq!(c.package, "component:pkg");
    assert_eq!(c.interface, "exports");
    let c = parse_config(&vec![
        ("package".to_string(), "a:b".to_string()),
        ("package".to_string(), "myorg:my-pkg@1.0.0".to_string()),
    ]);
    assert_eq!(c.package, "myorg:my-pkg@1.0.0");
    assert_eq!(c.interface, "exports");
    assert!(is_config_attr("interface"));
    assert!(!is_config_attr("doc"));
}

#[test]
fn no_exports_no_glue() {
    let d = TypeDiscovery::new();
    assert!(component_glue(&d, &ComponentConfig::default()).is_none());
    let g = component_glue(&counter_discovery(), &ComponentConfig::default()).unwrap();
    assert!(g.contains("inline: \"package component:pkg;"));
}
