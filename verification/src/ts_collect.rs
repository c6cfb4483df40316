//! The descriptors of exported TypeScript declarations that the type mapper
//! reads: functions, classes, interfaces, type aliases, enums, and types.
use vstd::prelude::*;
use crate::text::str_chars;
use crate::ts_syntax::{
    TsType, TsTupleElement, TsTypeName, TsSignature, TsParam, TsFunction, TsExpr, TsMethodKind, TsMethod,
    TsPropertyDef, TsClassElement, TsClass, TsInterface, TsTypeAlias, TsEnumMemberName, TsEnum,
    TsDeclaration, TsDefaultDeclaration, TsExportDecl,
};

verus! {

/// A collected exported item from the TypeScript source.
#[derive(Debug)]
pub enum ExportedItem {
    Function(ExportedFunction),
    Class(ExportedClass),
    Interface(ExportedInterface),
    TypeAlias(ExportedTypeAlias),
    Enum(ExportedEnum),
}

/// An exported function.
#[derive(Debug)]
pub struct ExportedFunction {
    pub name: String,
    pub params: Vec<ParamInfo>,
    pub return_type: Option<TypeInfo>,
    pub is_async: bool,
}

/// An exported class (potentially a WIT resource).
#[derive(Debug)]
pub struct ExportedClass {
    pub name: String,
    pub constructor_params: Option<Vec<ParamInfo>>,
    pub methods: Vec<MethodInfo>,
    pub static_methods: Vec<MethodInfo>,
    pub properties: Vec<PropertyInfo>,
    pub decorators: Vec<String>,
}

/// An exported interface (maps to a WIT record).
#[derive(Debug)]
pub struct ExportedInterface {
    pub name: String,
    pub properties: Vec<PropertyInfo>,
}

/// An exported type alias.
#[derive(Debug)]
pub struct ExportedTypeAlias {
    pub name: String,
    pub type_info: TypeInfo,
}

/// An exported enum.
#[derive(Debug)]
pub struct ExportedEnum {
    pub name: String,
    pub members: Vec<EnumMemberInfo>,
    pub has_flags_decorator: bool,
}

/// Information about a function/method parameter.
#[derive(Debug)]
pub struct ParamInfo {
    pub name: String,
    pub type_info: TypeInfo,
    pub optional: bool,
}

/// Information about a class/interface method.
#[derive(Debug)]
pub struct MethodInfo {
    pub name: String,
    pub params: Vec<ParamInfo>,
    pub return_type: Option<TypeInfo>,
    pub is_async: bool,
}

/// Information about a class/interface property.
#[derive(Debug)]
pub struct PropertyInfo {
    pub name: String,
    pub type_info: TypeInfo,
    pub optional: bool,
}

/// Information about an enum member.
#[derive(Debug)]
pub struct EnumMemberInfo {
    pub name: String,
}

/// A lightweight description of a TypeScript type.
#[derive(Debug)]
pub enum TypeInfo {
    /// A keyword type (number, string, boolean, etc.)
    Keyword(KeywordType),
    /// A reference to a named type (e.g. `MyInterface`, `u32`)
    Reference { name: String, type_args: Vec<TypeInfo> },
    /// An array type: `T[]`
    Array(Box<TypeInfo>),
    /// A tuple type: `[T1, T2]`
    Tuple(Vec<TypeInfo>),
    /// A union type: `A | B`
    Union(Vec<TypeInfo>),
    /// An intersection type: `A & B` (payload elided; not mappable to WIT)
    Intersection,
    /// An object literal type: `{ foo: string, bar: number }`
    ObjectLiteral(Vec<PropertyInfo>),
    /// A function type (not mappable to WIT)
    FunctionType,
    /// null literal type
    Null,
    /// undefined literal type
    Undefined,
    /// A type we couldn't resolve
    Unknown(String),
}

/// TypeScript keyword types.
#[derive(Debug, Clone, Copy, PartialEq, Eq, Structural)]
pub enum KeywordType {
    Number,
    String,
    Boolean,
    BigInt,
    Void,
    Any,
    Unknown,
    Never,
    Symbol,
    Object,
}

/// Whether `b` is a copy of `a`: the same variant with the same names and,
/// recursively, copies of the same nested types and properties.
pub open spec fn same_ti(a: TypeInfo, b: TypeInfo) -> bool
    decreases a, 1nat,
{
    match a {
        TypeInfo::Keyword(k) => b == TypeInfo::Keyword(k),
        TypeInfo::Reference { name, type_args } => match b {
            TypeInfo::Reference { name: n2, type_args: a2 } => n2 == name && same_tis(type_args@, a2@),
            _ => false,
        },
        TypeInfo::Array(i) => match b {
            TypeInfo::Array(j) => same_ti(*i, *j),
            _ => false,
        },
        TypeInfo::Tuple(es) => match b {
            TypeInfo::Tuple(fs) => same_tis(es@, fs@),
            _ => false,
        },
        TypeInfo::Union(es) => match b {
            TypeInfo::Union(fs) => same_tis(es@, fs@),
            _ => false,
        },
        TypeInfo::Intersection => b is Intersection,
        TypeInfo::ObjectLiteral(ps) => match b {
            TypeInfo::ObjectLiteral(qs) => same_props(ps@, qs@),
            _ => false,
        },
        TypeInfo::FunctionType => b is FunctionType,
        TypeInfo::Null => b is Null,
        TypeInfo::Undefined => b is Undefined,
        TypeInfo::Unknown(d) => match b {
            TypeInfo::Unknown(e) => e == d,
            _ => false,
        },
    }
}

/// Whether `b` is an element-wise copy of `a`.
pub open spec fn same_tis(a: Seq<TypeInfo>, b: Seq<TypeInfo>) -> bool
    decreases a, 0nat,
{
    if a.len() == 0 {
        b.len() == 0
    } else {
        b.len() > 0 && same_ti(a[0], b[0]) && same_tis(a.drop_first(), b.drop_first())
    }
}

/// Whether `q` is a copy of the property `p`.
pub open spec fn same_prop(p: PropertyInfo, q: PropertyInfo) -> bool
    decreases p, 2nat,
{
    q.name == p.name && q.optional == p.optional && same_ti(p.type_info, q.type_info)
}

/// Whether `b` is an element-wise copy of the properties `a`.
pub open spec fn same_props(a: Seq<PropertyInfo>, b: Seq<PropertyInfo>) -> bool
    decreases a, 3nat,
{
    if a.len() == 0 {
        b.len() == 0
    } else {
        b.len() > 0 && same_prop(a[0], b[0]) && same_props(a.drop_first(), b.drop_first())
    }
}

proof fn lemma_same_tis(a: Seq<TypeInfo>, b: Seq<TypeInfo>)
    requires
        a.len() == b.len(),
        forall|j: int| 0 <= j < a.len() ==> same_ti(#[trigger] a[j], b[j]),
    ensures
        same_tis(a, b),
    decreases a.len(),
{
    if a.len() > 0 {
        assert forall|j: int| 0 <= j < a.drop_first().len() implies same_ti(#[trigger] a.drop_first()[j], b.drop_first()[j]) by {
            assert(a.drop_first()[j] == a[j + 1]);
            assert(b.drop_first()[j] == b[j + 1]);
        }
        lemma_same_tis(a.drop_first(), b.drop_first());
        assert(same_ti(a[0], b[0]));
    }
}

proof fn lemma_same_props(a: Seq<PropertyInfo>, b: Seq<PropertyInfo>)
    requires
        a.len() == b.len(),
        forall|j: int| 0 <= j < a.len() ==> same_prop(#[trigger] a[j], b[j]),
    ensures
        same_props(a, b),
    decreases a.len(),
{
    if a.len() > 0 {
        assert forall|j: int| 0 <= j < a.drop_first().len() implies same_prop(#[trigger] a.drop_first()[j], b.drop_first()[j]) by {
            assert(a.drop_first()[j] == a[j + 1]);
            assert(b.drop_first()[j] == b[j + 1]);
        }
        lemma_same_props(a.drop_first(), b.drop_first());
        assert(same_prop(a[0], b[0]));
    }
}

fn copy_type_infos(ts: &Vec<TypeInfo>) -> (r: Vec<TypeInfo>)
    ensures
        same_tis(ts@, r@),
    decreases *ts, 0nat,
{
    let mut r: Vec<TypeInfo> = Vec::new();
    let mut i: usize = 0;
    while i < ts.len()
        invariant
            i <= ts.len(),
            r@.len() == i,
            forall|j: int| 0 <= j < i ==> same_ti(#[trigger] ts@[j], r@[j]),
        decreases ts.len() - i,
    {
        proof { assert(decreases_to!(ts => ts@[i as int])); }
        r.push(copy_type_info(&ts[i]));
        i = i + 1;
    }
    proof { lemma_same_tis(ts@, r@); }
    r
}

fn copy_property(p: &PropertyInfo) -> (r: PropertyInfo)
    ensures
        same_prop(*p, r),
    decreases *p, 2nat,
{
    PropertyInfo { name: p.name.clone(), type_info: copy_type_info(&p.type_info), optional: p.optional }
}

fn copy_properties(ps: &Vec<PropertyInfo>) -> (r: Vec<PropertyInfo>)
    ensures
        same_props(ps@, r@),
    decreases *ps, 3nat,
{
    let mut r: Vec<PropertyInfo> = Vec::new();
    let mut i: usize = 0;
    while i < ps.len()
        invariant
            i <= ps.len(),
            r@.len() == i,
            forall|j: int| 0 <= j < i ==> same_prop(#[trigger] ps@[j], r@[j]),
        decreases ps.len() - i,
    {
        proof { assert(decreases_to!(ps => ps@[i as int])); }
        r.push(copy_property(&ps[i]));
        i = i + 1;
    }
    proof { lemma_same_props(ps@, r@); }
    r
}

fn copy_type_info(t: &TypeInfo) -> (r: TypeInfo)
    ensures
        same_ti(*t, r),
    decreases *t, 1nat,
{
    match t {
        TypeInfo::Keyword(k) => TypeInfo::Keyword(*k),
        TypeInfo::Reference { name, type_args } => TypeInfo::Reference {
            name: name.clone(),
            type_args: copy_type_infos(type_args),
        },
        TypeInfo::Array(inner) => TypeInfo::Array(Box::new(copy_type_info(&**inner))),
        TypeInfo::Tuple(elems) => TypeInfo::Tuple(copy_type_infos(elems)),
        TypeInfo::Union(members) => TypeInfo::Union(copy_type_infos(members)),
        TypeInfo::Intersection => TypeInfo::Intersection,
        TypeInfo::ObjectLiteral(props) => TypeInfo::ObjectLiteral(copy_properties(props)),
        TypeInfo::FunctionType => TypeInfo::FunctionType,
        TypeInfo::Null => TypeInfo::Null,
        TypeInfo::Undefined => TypeInfo::Undefined,
        TypeInfo::Unknown(desc) => TypeInfo::Unknown(desc.clone()),
    }
}

impl Clone for TypeInfo {
    fn clone(&self) -> Self {
        copy_type_info(self)
    }
}

impl Clone for PropertyInfo {
    fn clone(&self) -> Self {
        copy_property(self)
    }
}

/// Collects exported items from a program.
pub struct ExportCollector {
    pub items: Vec<ExportedItem>,
}

impl ExportCollector {
    /// A collector with no items.
    pub fn new() -> (c: Self)
        ensures
            c.items@.len() == 0,
    {
        ExportCollector { items: Vec::new() }
    }
}

/// The names of the well-known branded types.
pub open spec fn branded_type_names() -> Seq<Seq<char>> {
    seq!["u8"@, "u16"@, "u32"@, "u64"@, "s8"@, "s16"@, "s32"@, "s64"@, "f32"@, "f64"@, "char"@]
}

/// Check if a name is a well-known branded type name.
pub fn is_branded_type_name(name: &str) -> (b: bool)
    ensures
        b == branded_type_names().contains(name@),
{
    let names = branded_type_name_list();
    let mut i: usize = 0;
    while i < names.len()
        invariant
            i <= names.len(),
            names@.len() == branded_type_names().len(),
            forall|j: int| 0 <= j < names@.len() ==> #[trigger] names@[j]@ == branded_type_names()[j],
            forall|j: int| 0 <= j < i ==> branded_type_names()[j] != name@,
        decreases names.len() - i,
    {
        if crate::text::str_eq(names[i], name) {
            assert(branded_type_names()[i as int] == name@);
            return true;
        }
        i = i + 1;
    }
    false
}

/// The names of the well-known branded types, in order.
pub fn branded_type_name_list() -> (v: Vec<&'static str>)
    ensures
        v@.len() == branded_type_names().len(),
        forall|j: int| 0 <= j < v@.len() ==> #[trigger] v@[j]@ == branded_type_names()[j],
{
    let mut v: Vec<&'static str> = Vec::new();
    v.push("u8");
    v.push("u16");
    v.push("u32");
    v.push("u64");
    v.push("s8");
    v.push("s16");
    v.push("s32");
    v.push("s64");
    v.push("f32");
    v.push("f64");
    v.push("char");
    v
}

} // verus!

verus! {

// ---------------------------------------------------------------------------
// Type annotations
// ---------------------------------------------------------------------------

/// The text of a type reference's name: `ns.Foo` for a qualified name,
/// `this` for `this`.
pub open spec fn type_name_spec(n: TsTypeName) -> Seq<char>
    decreases n,
{
    match n {
        TsTypeName::Identifier(s) => s@,
        TsTypeName::Qualified(l, r) => type_name_spec(*l) + "."@ + r@,
        TsTypeName::This => "this"@,
    }
}

/// The text of a type reference's name.
pub fn extract_type_name(name: &TsTypeName) -> (r: String)
    ensures
        r@ == type_name_spec(*name),
    decreases name,
{
    match name {
        TsTypeName::Identifier(s) => s.clone(),
        TsTypeName::Qualified(l, right) => {
            let mut x = extract_type_name(&**l);
            x.push_str(".");
            x.push_str(right.as_str());
            x
        },
        TsTypeName::This => "this".to_string(),
    }
}

/// How a string literal type is described when it is not resolved: its
/// value in `StringLiteral("..")`.
pub open spec fn literal_desc(v: Seq<char>) -> Seq<char> {
    "StringLiteral(\""@ + v + "\")"@
}

/// The descriptor `r` describes the annotation `t`: keywords, `null` and
/// `undefined` as themselves; arrays, tuples, unions, references and object
/// literals element by element; parentheses dropped; intersections and
/// function types without payload; a string literal type as a reference
/// named by its value; anything else unknown, by its debug text.
pub open spec fn info_of(t: TsType, r: TypeInfo) -> bool
    decreases t, 1nat,
{
    match t {
        TsType::Keyword(k) => r == TypeInfo::Keyword(k),
        TsType::Null => r is Null,
        TsType::Undefined => r is Undefined,
        TsType::Array(e) => r matches TypeInfo::Array(b) && info_of(*e, *b),
        TsType::Tuple(es) => r matches TypeInfo::Tuple(v) && elems_info(es@, v@),
        TsType::Union(ms) => r matches TypeInfo::Union(v) && infos_of(ms@, v@),
        TsType::Intersection(_) => r is Intersection,
        TsType::Reference { name, type_args } => r matches TypeInfo::Reference { name: n, type_args: a }
            && n@ == type_name_spec(name)
            && (match type_args {
                Some(ts) => infos_of(ts@, a@),
                None => a@.len() == 0,
            }),
        TsType::TypeLiteral(ms) => r matches TypeInfo::ObjectLiteral(ps) && sig_props(ms@, ps@),
        TsType::Function => r is FunctionType,
        TsType::Parenthesized(i) => info_of(*i, r),
        TsType::Literal { string_value, debug } => match string_value {
            Some(v) => r matches TypeInfo::Unknown(s) && s@ == literal_desc(v@),
            None => r matches TypeInfo::Unknown(s) && s@ == debug@,
        },
        TsType::Other(d) => r matches TypeInfo::Unknown(s) && s@ == d@,
    }
}

/// Each descriptor describes the annotation at its position.
pub open spec fn infos_of(ts: Seq<TsType>, rs: Seq<TypeInfo>) -> bool
    decreases ts, 0nat,
{
    if ts.len() == 0 {
        rs.len() == 0
    } else {
        rs.len() > 0 && infos_of(ts.drop_last(), rs.drop_last()) && info_of(ts.last(), rs.last())
    }
}

/// The descriptor of a tuple element: a named member by its element, an
/// optional one as a union with `undefined`, a rest element by its type.
pub open spec fn elem_info(e: TsTupleElement, r: TypeInfo) -> bool
    decreases e, 1nat,
{
    match e {
        TsTupleElement::Named(inner) => elem_info(*inner, r),
        TsTupleElement::Optional(t) => r matches TypeInfo::Union(v) && v@.len() == 2 && info_of(t, v@[0]) && v@[1] is Undefined,
        TsTupleElement::Rest(t) => info_of(t, r),
        TsTupleElement::Type(t) => plain_elem_info(t, r),
    }
}

/// The descriptor of a plain tuple element type: keywords but `symbol` and
/// `object`, `null`, `undefined`, references, arrays and unions are read;
/// anything else is an unsupported tuple element.
pub open spec fn plain_elem_info(t: TsType, r: TypeInfo) -> bool
    decreases t, 2nat,
{
    match t {
        TsType::Keyword(k) => if k == KeywordType::Symbol || k == KeywordType::Object {
            r matches TypeInfo::Unknown(s) && s@ == "unsupported tuple element type"@
        } else {
            r == TypeInfo::Keyword(k)
        },
        TsType::Null => r is Null,
        TsType::Undefined => r is Undefined,
        TsType::Reference { name, type_args } => r matches TypeInfo::Reference { name: n, type_args: a }
            && n@ == type_name_spec(name)
            && (match type_args {
                Some(ts) => infos_of(ts@, a@),
                None => a@.len() == 0,
            }),
        TsType::Array(e) => r matches TypeInfo::Array(b) && info_of(*e, *b),
        TsType::Union(ms) => r matches TypeInfo::Union(v) && infos_of(ms@, v@),
        _ => r matches TypeInfo::Unknown(s) && s@ == "unsupported tuple element type"@,
    }
}

/// Each descriptor describes the tuple element at its position.
pub open spec fn elems_info(es: Seq<TsTupleElement>, rs: Seq<TypeInfo>) -> bool
    decreases es, 0nat,
{
    if es.len() == 0 {
        rs.len() == 0
    } else {
        rs.len() > 0 && elems_info(es.drop_last(), rs.drop_last()) && elem_info(es.last(), rs.last())
    }
}

/// The properties of an interface body or type literal: the property
/// signatures with identifier keys, in order.
pub open spec fn sig_props(ms: Seq<TsSignature>, ps: Seq<PropertyInfo>) -> bool
    decreases ms, 0nat,
{
    if ms.len() == 0 {
        ps.len() == 0
    } else {
        match ms.last() {
            TsSignature::Property { key: Some(k), type_annotation, optional } => {
                &&& ps.len() > 0
                &&& sig_props(ms.drop_last(), ps.drop_last())
                &&& ps.last().name@ == k@
                &&& ps.last().optional == optional
                &&& ann_info(type_annotation, ps.last().type_info)
            },
            _ => sig_props(ms.drop_last(), ps),
        }
    }
}

/// The descriptor of an optional annotation: unknown when it is missing.
pub open spec fn ann_info(a: Option<TsType>, r: TypeInfo) -> bool
    decreases a, 2nat,
{
    match a {
        Some(t) => info_of(t, r),
        None => r matches TypeInfo::Unknown(s) && s@ == "missing type annotation"@,
    }
}

/// Extract a type descriptor from a type annotation.
pub fn extract_type_info(ts_type: &TsType) -> (r: TypeInfo)
    ensures
        info_of(*ts_type, r),
    decreases *ts_type, 1nat,
{
    match ts_type {
        TsType::Keyword(k) => TypeInfo::Keyword(*k),
        TsType::Null => TypeInfo::Null,
        TsType::Undefined => TypeInfo::Undefined,
        TsType::Array(e) => TypeInfo::Array(Box::new(extract_type_info(&**e))),
        TsType::Tuple(es) => TypeInfo::Tuple(extract_elems(es)),
        TsType::Union(ms) => TypeInfo::Union(extract_infos(ms)),
        TsType::Intersection(_) => TypeInfo::Intersection,
        TsType::Reference { name, type_args } => {
            let n = extract_type_name(name);
            let a = match type_args {
                Some(ts) => extract_infos(ts),
                None => Vec::new(),
            };
            TypeInfo::Reference { name: n, type_args: a }
        },
        TsType::TypeLiteral(ms) => TypeInfo::ObjectLiteral(extract_sig_props(ms)),
        TsType::Function => TypeInfo::FunctionType,
        TsType::Parenthesized(i) => extract_type_info(&**i),
        TsType::Literal { string_value, debug } => match string_value {
            Some(v) => {
                let mut d = "StringLiteral(\"".to_string();
                d.push_str(v.as_str());
                d.push_str("\")");
                TypeInfo::Unknown(d)
            },
            None => TypeInfo::Unknown(debug.clone()),
        },
        TsType::Other(d) => TypeInfo::Unknown(d.clone()),
    }
}

fn extract_infos(ts: &Vec<TsType>) -> (r: Vec<TypeInfo>)
    ensures
        infos_of(ts@, r@),
    decreases *ts, 0nat,
{
    let mut r: Vec<TypeInfo> = Vec::new();
    let mut i: usize = 0;
    while i < ts.len()
        invariant
            i <= ts.len(),
            infos_of(ts@.take(i as int), r@),
        decreases ts.len() - i,
    {
        proof { assert(decreases_to!(ts => ts@[i as int])); }
        let x = extract_type_info(&ts[i]);
        let ghost old_r = r@;
        r.push(x);
        proof {
            assert(ts@.take(i + 1).drop_last() =~= ts@.take(i as int));
            assert(r@.drop_last() =~= old_r);
        }
        i = i + 1;
    }
    assert(ts@.take(ts.len() as int) =~= ts@);
    r
}

fn unsupported_element() -> (r: TypeInfo)
    ensures
        r matches TypeInfo::Unknown(s) && s@ == "unsupported tuple element type"@,
{
    TypeInfo::Unknown("unsupported tuple element type".to_string())
}

/// The descriptor of a tuple element.
pub fn extract_type_info_from_tuple_element(elem: &TsTupleElement) -> (r: TypeInfo)
    ensures
        elem_info(*elem, r),
    decreases *elem, 1nat,
{
    match elem {
        TsTupleElement::Named(inner) => extract_type_info_from_tuple_element(&**inner),
        TsTupleElement::Optional(t) => {
            let inner = extract_type_info(t);
            let mut v: Vec<TypeInfo> = Vec::new();
            v.push(inner);
            v.push(TypeInfo::Undefined);
            TypeInfo::Union(v)
        },
        TsTupleElement::Rest(t) => extract_type_info(t),
        TsTupleElement::Type(t) => extract_type_info_from_tuple_element_tstype(t),
    }
}

/// The descriptor of a plain tuple element type.
pub fn extract_type_info_from_tuple_element_tstype(t: &TsType) -> (r: TypeInfo)
    ensures
        plain_elem_info(*t, r),
    decreases *t, 2nat,
{
    match t {
        TsType::Keyword(k) => {
            match k {
                KeywordType::Symbol | KeywordType::Object => unsupported_element(),
                _ => TypeInfo::Keyword(*k),
            }
        },
        TsType::Null => TypeInfo::Null,
        TsType::Undefined => TypeInfo::Undefined,
        TsType::Reference { name, type_args } => {
            let n = extract_type_name(name);
            let a = match type_args {
                Some(ts) => extract_infos(ts),
                None => Vec::new(),
            };
            TypeInfo::Reference { name: n, type_args: a }
        },
        TsType::Array(e) => TypeInfo::Array(Box::new(extract_type_info(&**e))),
        TsType::Union(ms) => TypeInfo::Union(extract_infos(ms)),
        _ => unsupported_element(),
    }
}

fn extract_elems(es: &Vec<TsTupleElement>) -> (r: Vec<TypeInfo>)
    ensures
        elems_info(es@, r@),
    decreases *es, 0nat,
{
    let mut r: Vec<TypeInfo> = Vec::new();
    let mut i: usize = 0;
    while i < es.len()
        invariant
            i <= es.len(),
            elems_info(es@.take(i as int), r@),
        decreases es.len() - i,
    {
        proof { assert(decreases_to!(es => es@[i as int])); }
        let x = extract_type_info_from_tuple_element(&es[i]);
        let ghost old_r = r@;
        r.push(x);
        proof {
            assert(es@.take(i + 1).drop_last() =~= es@.take(i as int));
            assert(r@.drop_last() =~= old_r);
        }
        i = i + 1;
    }
    assert(es@.take(es.len() as int) =~= es@);
    r
}

/// The descriptor of an optional annotation.
pub fn extract_annotation(a: &Option<TsType>) -> (r: TypeInfo)
    ensures
        ann_info(*a, r),
    decreases *a, 2nat,
{
    match a {
        Some(t) => extract_type_info(t),
        None => TypeInfo::Unknown("missing type annotation".to_string()),
    }
}

fn extract_sig_props(ms: &Vec<TsSignature>) -> (r: Vec<PropertyInfo>)
    ensures
        sig_props(ms@, r@),
    decreases *ms, 0nat,
{
    let mut r: Vec<PropertyInfo> = Vec::new();
    let mut i: usize = 0;
    while i < ms.len()
        invariant
            i <= ms.len(),
            sig_props(ms@.take(i as int), r@),
        decreases ms.len() - i,
    {
        proof {
            assert(decreases_to!(ms => ms@[i as int]));
            assert(ms@.take(i + 1).drop_last() =~= ms@.take(i as int));
            assert(ms@.take(i + 1).last() == ms@[i as int]);
        }
        match &ms[i] {
            TsSignature::Property { key: Some(k), type_annotation, optional } => {
                let info = extract_annotation(type_annotation);
                let ghost old_r = r@;
                r.push(PropertyInfo { name: k.clone(), type_info: info, optional: *optional });
                proof { assert(r@.drop_last() =~= old_r); }
            },
            _ => {},
        }
        i = i + 1;
    }
    assert(ms@.take(ms.len() as int) =~= ms@);
    r
}

// ---------------------------------------------------------------------------
// Declarations
// ---------------------------------------------------------------------------

/// A name, empty when absent.
pub open spec fn opt_name(o: Option<String>) -> Seq<char> {
    match o {
        Some(s) => s@,
        None => Seq::empty(),
    }
}

/// The descriptor of a parameter: `_` names a destructuring pattern.
pub open spec fn param_info(p: TsParam, r: ParamInfo) -> bool {
    &&& r.name@ == (match p.name { Some(n) => n@, None => "_"@ })
    &&& ann_info(p.type_annotation, r.type_info)
    &&& r.optional == p.optional
}

/// Each descriptor describes the parameter at its position.
pub open spec fn params_info(ps: Seq<TsParam>, rs: Seq<ParamInfo>) -> bool {
    &&& ps.len() == rs.len()
    &&& forall|i: int| 0 <= i < ps.len() ==> #[trigger] param_info(ps[i], rs[i])
}

/// The descriptor of an optional return annotation.
pub open spec fn ret_info(t: Option<TsType>, r: Option<TypeInfo>) -> bool {
    match t {
        Some(x) => r matches Some(y) && info_of(x, y),
        None => r is None,
    }
}

/// The descriptor of a function, but for its name.
pub open spec fn function_body_info(f: TsFunction, r: ExportedFunction) -> bool {
    &&& params_info(f.params@, r.params@)
    &&& ret_info(f.return_type, r.return_type)
    &&& r.is_async == f.is_async
}

/// The descriptor of a function.
pub open spec fn function_info(f: TsFunction, r: ExportedFunction) -> bool {
    r.name@ == opt_name(f.id) && function_body_info(f, r)
}

/// Describe a parameter.
pub fn collect_param(param: &TsParam) -> (r: ParamInfo)
    ensures
        param_info(*param, r),
{
    let name = match &param.name {
        Some(n) => n.clone(),
        None => "_".to_string(),
    };
    ParamInfo { name, type_info: extract_annotation(&param.type_annotation), optional: param.optional }
}

/// Describe parameters, in order.
pub fn collect_params(params: &Vec<TsParam>) -> (r: Vec<ParamInfo>)
    ensures
        params_info(params@, r@),
{
    let mut r: Vec<ParamInfo> = Vec::new();
    let mut i: usize = 0;
    while i < params.len()
        invariant
            i <= params.len(),
            r@.len() == i,
            forall|j: int| 0 <= j < i ==> #[trigger] param_info(params@[j], r@[j]),
        decreases params.len() - i,
    {
        r.push(collect_param(&params[i]));
        i = i + 1;
    }
    r
}

fn collect_return(t: &Option<TsType>) -> (r: Option<TypeInfo>)
    ensures
        ret_info(*t, r),
{
    match t {
        Some(x) => Some(extract_type_info(x)),
        None => None,
    }
}

/// Describe a function declaration.
pub fn collect_function(func: &TsFunction) -> (r: Option<ExportedFunction>)
    ensures
        r matches Some(x) && function_info(*func, x),
{
    let name = match &func.id {
        Some(n) => n.clone(),
        None => String::new(),
    };
    Some(ExportedFunction {
        name,
        params: collect_params(&func.params),
        return_type: collect_return(&func.return_type),
        is_async: func.is_async,
    })
}

/// The name a decorator expression gives: `foo`, `foo.bar`, the callee of a call.
pub open spec fn deco_name(e: TsExpr) -> Option<Seq<char>>
    decreases e,
{
    match e {
        TsExpr::Identifier(s) => Some(s@),
        TsExpr::Member { object, property } => match deco_name(*object) {
            Some(o) => Some(o + "."@ + property@),
            None => None,
        },
        TsExpr::Call(c) => deco_name(*c),
        TsExpr::Other => None,
    }
}

/// The names of the decorators that have one, in order.
pub open spec fn deco_names(es: Seq<TsExpr>) -> Seq<Seq<char>>
    decreases es.len(),
{
    if es.len() == 0 {
        Seq::empty()
    } else {
        let rest = deco_names(es.drop_last());
        match deco_name(es.last()) {
            Some(n) => rest.push(n),
            None => rest,
        }
    }
}

/// Extract a decorator name from a decorator expression.
pub fn extract_decorator_name(expr: &TsExpr) -> (r: Option<String>)
    ensures
        match r {
            Some(s) => deco_name(*expr) == Some(s@),
            None => deco_name(*expr) is None,
        },
    decreases expr,
{
    match expr {
        TsExpr::Identifier(s) => Some(s.clone()),
        TsExpr::Member { object, property } => match extract_decorator_name(&**object) {
            Some(o) => {
                let mut x = o;
                x.push_str(".");
                x.push_str(property.as_str());
                Some(x)
            },
            None => None,
        },
        TsExpr::Call(c) => extract_decorator_name(&**c),
        TsExpr::Other => None,
    }
}

/// The last constructor among the class elements.
pub open spec fn last_ctor(es: Seq<TsClassElement>) -> Option<TsMethod>
    decreases es.len(),
{
    if es.len() == 0 {
        None
    } else {
        match es.last() {
            TsClassElement::Method(m) => if m.kind is Constructor { Some(m) } else { last_ctor(es.drop_last()) },
            _ => last_ctor(es.drop_last()),
        }
    }
}

/// The methods, getters and setters among the class elements that are
/// static (`statics`) or not, in order.
pub open spec fn class_methods(es: Seq<TsClassElement>, statics: bool) -> Seq<TsMethod>
    decreases es.len(),
{
    if es.len() == 0 {
        Seq::empty()
    } else {
        let rest = class_methods(es.drop_last(), statics);
        match es.last() {
            TsClassElement::Method(m) => if !(m.kind is Constructor) && m.is_static == statics { rest.push(m) } else { rest },
            _ => rest,
        }
    }
}

/// The property definitions with a static key among the class elements, in order.
pub open spec fn class_props(es: Seq<TsClassElement>) -> Seq<TsPropertyDef>
    decreases es.len(),
{
    if es.len() == 0 {
        Seq::empty()
    } else {
        let rest = class_props(es.drop_last());
        match es.last() {
            TsClassElement::Property(p) => if p.key is Some { rest.push(p) } else { rest },
            _ => rest,
        }
    }
}

/// The descriptor of a method.
pub open spec fn method_info(m: TsMethod, r: MethodInfo) -> bool {
    &&& r.name@ == opt_name(m.key)
    &&& params_info(m.params@, r.params@)
    &&& ret_info(m.return_type, r.return_type)
    &&& r.is_async == m.is_async
}

/// Each descriptor describes the method at its position.
pub open spec fn methods_info(ms: Seq<TsMethod>, rs: Seq<MethodInfo>) -> bool {
    &&& ms.len() == rs.len()
    &&& forall|i: int| 0 <= i < ms.len() ==> #[trigger] method_info(ms[i], rs[i])
}

/// The descriptor of a property definition with a static key.
pub open spec fn prop_def_info(p: TsPropertyDef, r: PropertyInfo) -> bool {
    &&& r.name@ == opt_name(p.key)
    &&& ann_info(p.type_annotation, r.type_info)
    &&& r.optional == p.optional
}

/// Each descriptor describes the property definition at its position.
pub open spec fn prop_defs_info(ps: Seq<TsPropertyDef>, rs: Seq<PropertyInfo>) -> bool {
    &&& ps.len() == rs.len()
    &&& forall|i: int| 0 <= i < ps.len() ==> #[trigger] prop_def_info(ps[i], rs[i])
}

/// The descriptor of a class, but for its name: decorator names, the last
/// constructor's parameters, instance and static methods, and properties.
pub open spec fn class_body_info(c: TsClass, r: ExportedClass) -> bool {
    &&& crate::ts_types::strs_of(r.decorators@) == deco_names(c.decorators@)
    &&& (match last_ctor(c.elements@) {
        Some(m) => r.constructor_params matches Some(ps) && params_info(m.params@, ps@),
        None => r.constructor_params is None,
    })
    &&& methods_info(class_methods(c.elements@, false), r.methods@)
    &&& methods_info(class_methods(c.elements@, true), r.static_methods@)
    &&& prop_defs_info(class_props(c.elements@), r.properties@)
}

/// The descriptor of a class.
pub open spec fn class_info(c: TsClass, r: ExportedClass) -> bool {
    r.name@ == opt_name(c.id) && class_body_info(c, r)
}

/// Describe a class method.
pub fn collect_method_info(method: &TsMethod) -> (r: MethodInfo)
    ensures
        method_info(*method, r),
{
    let name = match &method.key {
        Some(k) => k.clone(),
        None => String::new(),
    };
    MethodInfo {
        name,
        params: collect_params(&method.params),
        return_type: collect_return(&method.return_type),
        is_async: method.is_async,
    }
}

/// Describe a property definition, when its key is static.
pub fn collect_property_from_definition(prop: &TsPropertyDef) -> (r: Option<PropertyInfo>)
    ensures
        match r {
            Some(x) => prop.key is Some && prop_def_info(*prop, x),
            None => prop.key is None,
        },
{
    match &prop.key {
        Some(k) => Some(PropertyInfo {
            name: k.clone(),
            type_info: extract_annotation(&prop.type_annotation),
            optional: prop.optional,
        }),
        None => None,
    }
}

fn collect_decorators(ds: &Vec<TsExpr>) -> (r: Vec<String>)
    ensures
        crate::ts_types::strs_of(r@) == deco_names(ds@),
{
    let mut r: Vec<String> = Vec::new();
    let mut i: usize = 0;
    while i < ds.len()
        invariant
            i <= ds.len(),
            crate::ts_types::strs_of(r@) == deco_names(ds@.take(i as int)),
        decreases ds.len() - i,
    {
        proof {
            assert(ds@.take(i + 1).drop_last() =~= ds@.take(i as int));
            assert(ds@.take(i + 1).last() == ds@[i as int]);
        }
        match extract_decorator_name(&ds[i]) {
            Some(n) => {
                let ghost old_r = r@;
                r.push(n);
                proof { assert(crate::ts_types::strs_of(r@) =~= crate::ts_types::strs_of(old_r).push(r@.last()@)); }
            },
            None => {},
        }
        i = i + 1;
    }
    assert(ds@.take(ds.len() as int) =~= ds@);
    r
}

/// Describe a class declaration.
pub fn collect_class(class: &TsClass) -> (r: Option<ExportedClass>)
    ensures
        r matches Some(x) && class_info(*class, x),
{
    let name = match &class.id {
        Some(n) => n.clone(),
        None => String::new(),
    };
    let decorators = collect_decorators(&class.decorators);
    let es = &class.elements;
    let mut constructor_params: Option<Vec<ParamInfo>> = None;
    let mut methods: Vec<MethodInfo> = Vec::new();
    let mut static_methods: Vec<MethodInfo> = Vec::new();
    let mut properties: Vec<PropertyInfo> = Vec::new();
    let mut i: usize = 0;
    while i < es.len()
        invariant
            i <= es.len(),
            match last_ctor(es@.take(i as int)) {
                Some(m) => constructor_params matches Some(ps) && params_info(m.params@, ps@),
                None => constructor_params is None,
            },
            methods_info(class_methods(es@.take(i as int), false), methods@),
            methods_info(class_methods(es@.take(i as int), true), static_methods@),
            prop_defs_info(class_props(es@.take(i as int)), properties@),
        decreases es.len() - i,
    {
        let ghost pre = es@.take(i as int);
        let ghost post = es@.take(i + 1);
        proof {
            assert(post.drop_last() =~= pre);
            assert(post.last() == es@[i as int]);
        }
        match &es[i] {
            TsClassElement::Method(m) => {
                match m.kind {
                    TsMethodKind::Constructor => {
                        constructor_params = Some(collect_params(&m.params));
                    },
                    _ => {
                        let info = collect_method_info(m);
                        if m.is_static {
                            let ghost ms = class_methods(pre, true);
                            static_methods.push(info);
                            proof {
                                assert(class_methods(post, true) == ms.push(*m));
                                assert forall|j: int| 0 <= j < class_methods(post, true).len()
                                    implies #[trigger] method_info(class_methods(post, true)[j], static_methods@[j]) by {
                                    if j < ms.len() {
                                        assert(method_info(ms[j], static_methods@[j]));
                                    }
                                }
                            }
                        } else {
                            let ghost ms = class_methods(pre, false);
                            methods.push(info);
                            proof {
                                assert(class_methods(post, false) == ms.push(*m));
                                assert forall|j: int| 0 <= j < class_methods(post, false).len()
                                    implies #[trigger] method_info(class_methods(post, false)[j], methods@[j]) by {
                                    if j < ms.len() {
                                        assert(method_info(ms[j], methods@[j]));
                                    }
                                }
                            }
                        }
                    },
                }
            },
            TsClassElement::Property(p) => {
                match collect_property_from_definition(p) {
                    Some(info) => {
                        let ghost ps = class_props(pre);
                        properties.push(info);
                        proof {
                            assert(class_props(post) == ps.push(*p));
                            assert forall|j: int| 0 <= j < class_props(post).len()
                                implies #[trigger] prop_def_info(class_props(post)[j], properties@[j]) by {
                                if j < ps.len() {
                                    assert(prop_def_info(ps[j], properties@[j]));
                                }
                            }
                        }
                    },
                    None => {},
                }
            },
            TsClassElement::Other => {},
        }
        i = i + 1;
    }
    assert(es@.take(es.len() as int) =~= es@);
    Some(ExportedClass {
        name,
        constructor_params,
        methods,
        static_methods,
        properties,
        decorators,
    })
}

/// Describe an interface declaration.
pub fn collect_interface(iface: &TsInterface) -> (r: Option<ExportedInterface>)
    ensures
        r matches Some(x) && x.name@ == iface.name@ && sig_props(iface.body@, x.properties@),
{
    Some(ExportedInterface { name: iface.name.clone(), properties: extract_sig_props(&iface.body) })
}

/// Describe a type alias declaration; branded aliases are left to the
/// branded-type detector.
pub fn collect_type_alias(alias: &TsTypeAlias) -> (r: Option<ExportedTypeAlias>)
    ensures
        match r {
            Some(x) => !branded_type_names().contains(alias.name@) && x.name@ == alias.name@
                && info_of(alias.type_annotation, x.type_info),
            None => branded_type_names().contains(alias.name@),
        },
{
    if is_branded_type_name(alias.name.as_str()) {
        return None;
    }
    Some(ExportedTypeAlias { name: alias.name.clone(), type_info: extract_type_info(&alias.type_annotation) })
}

/// The name of an enum member; a computed template is `<computed>`.
pub open spec fn member_name_spec(m: TsEnumMemberName) -> Seq<char> {
    match m {
        TsEnumMemberName::Identifier(s) => s@,
        TsEnumMemberName::Str(s) => s@,
        TsEnumMemberName::ComputedString(s) => s@,
        TsEnumMemberName::ComputedTemplate => "<computed>"@,
    }
}

/// The descriptor of an enum: its members' names, and no flags decorator.
pub open spec fn enum_info(e: TsEnum, r: ExportedEnum) -> bool {
    &&& r.name@ == e.name@
    &&& r.members@.len() == e.members@.len()
    &&& forall|i: int| 0 <= i < e.members@.len() ==> #[trigger] r.members@[i].name@ == member_name_spec(e.members@[i])
    &&& !r.has_flags_decorator
}

/// Describe an enum declaration.
pub fn collect_enum(enumeration: &TsEnum) -> (r: Option<ExportedEnum>)
    ensures
        r matches Some(x) && enum_info(*enumeration, x),
{
    let ms = &enumeration.members;
    let mut members: Vec<EnumMemberInfo> = Vec::new();
    let mut i: usize = 0;
    while i < ms.len()
        invariant
            i <= ms.len(),
            members@.len() == i,
            forall|j: int| 0 <= j < i ==> #[trigger] members@[j].name@ == member_name_spec(ms@[j]),
        decreases ms.len() - i,
    {
        let name = match &ms[i] {
            TsEnumMemberName::Identifier(s) => s.clone(),
            TsEnumMemberName::Str(s) => s.clone(),
            TsEnumMemberName::ComputedString(s) => s.clone(),
            TsEnumMemberName::ComputedTemplate => "<computed>".to_string(),
        };
        let ghost before = members@;
        proof { assert(name@ == member_name_spec(ms@[i as int])); }
        members.push(EnumMemberInfo { name });
        proof {
            assert forall|j: int| 0 <= j < i + 1 implies #[trigger] members@[j].name@ == member_name_spec(ms@[j]) by {
                if j < i {
                    assert(before[j].name@ == member_name_spec(ms@[j]));
                    assert(members@[j] == before[j]);
                } else {
                    assert(members@[j].name@ == name@);
                }
            }
        }
        i = i + 1;
    }
    Some(ExportedEnum { name: enumeration.name.clone(), members, has_flags_decorator: false })
}

// ---------------------------------------------------------------------------
// Exports
// ---------------------------------------------------------------------------

/// The name of a default export: `default` when the declaration has none.
pub open spec fn default_name(n: Seq<char>) -> Seq<char> {
    if n.len() == 0 { "default"@ } else { n }
}

/// Whether an export declaration yields an item: every declaration of a
/// function, class, interface or enum, a type alias unless it has a branded
/// name, and a default function, class or interface.
pub open spec fn decl_yields(d: TsExportDecl) -> bool {
    match d {
        TsExportDecl::Named(Some(decl)) => match decl {
            TsDeclaration::TypeAlias(a) => !branded_type_names().contains(a.name@),
            TsDeclaration::Other => false,
            _ => true,
        },
        TsExportDecl::Named(None) => false,
        TsExportDecl::Default(def) => !(def is Other),
    }
}

/// The item an export declaration yields.
pub open spec fn export_item(d: TsExportDecl, it: ExportedItem) -> bool {
    match d {
        TsExportDecl::Named(Some(decl)) => match decl {
            TsDeclaration::Function(f) => it matches ExportedItem::Function(x) && function_info(f, x),
            TsDeclaration::Class(c) => it matches ExportedItem::Class(x) && class_info(c, x),
            TsDeclaration::Interface(i) => it matches ExportedItem::Interface(x) && x.name@ == i.name@
                && sig_props(i.body@, x.properties@),
            TsDeclaration::TypeAlias(a) => it matches ExportedItem::TypeAlias(x) && x.name@ == a.name@
                && info_of(a.type_annotation, x.type_info),
            TsDeclaration::Enum(e) => it matches ExportedItem::Enum(x) && enum_info(e, x),
            TsDeclaration::Other => false,
        },
        TsExportDecl::Named(None) => false,
        TsExportDecl::Default(def) => match def {
            TsDefaultDeclaration::Function(f) => it matches ExportedItem::Function(x)
                && x.name@ == default_name(opt_name(f.id)) && function_body_info(f, x),
            TsDefaultDeclaration::Class(c) => it matches ExportedItem::Class(x)
                && x.name@ == default_name(opt_name(c.id)) && class_body_info(c, x),
            TsDefaultDeclaration::Interface(i) => it matches ExportedItem::Interface(x)
                && x.name@ == default_name(i.name@) && sig_props(i.body@, x.properties@),
            TsDefaultDeclaration::Other => false,
        },
    }
}

/// The items of a sequence of export declarations, in order.
pub open spec fn exports_items(ds: Seq<TsExportDecl>, its: Seq<ExportedItem>) -> bool
    decreases ds.len(),
{
    if ds.len() == 0 {
        its.len() == 0
    } else if decl_yields(ds.last()) {
        its.len() > 0 && exports_items(ds.drop_last(), its.drop_last()) && export_item(ds.last(), its.last())
    } else {
        exports_items(ds.drop_last(), its)
    }
}

fn named_or_default(name: String) -> (r: String)
    ensures
        r@ == default_name(name@),
{
    if name.as_str().is_empty() { "default".to_string() } else { name }
}

impl ExportCollector {
    /// Record the item of `export <declaration>`.
    pub fn visit_export_named_declaration(&mut self, decl: &TsExportDecl)
        requires
            decl is Named,
        ensures
            decl_yields(*decl) ==> final(self).items@.len() == old(self).items@.len() + 1
                && final(self).items@.drop_last() == old(self).items@
                && export_item(*decl, final(self).items@.last()),
            !decl_yields(*decl) ==> final(self).items@ == old(self).items@,
    {
        let ghost before = self.items@;
        match decl {
            TsExportDecl::Named(Some(declaration)) => {
                match declaration {
                    TsDeclaration::Function(func) => {
                        if let Some(item) = collect_function(func) {
                            self.items.push(ExportedItem::Function(item));
                        }
                    },
                    TsDeclaration::Class(class) => {
                        if let Some(item) = collect_class(class) {
                            self.items.push(ExportedItem::Class(item));
                        }
                    },
                    TsDeclaration::Interface(iface) => {
                        if let Some(item) = collect_interface(iface) {
                            self.items.push(ExportedItem::Interface(item));
                        }
                    },
                    TsDeclaration::TypeAlias(alias) => {
                        if let Some(item) = collect_type_alias(alias) {
                            self.items.push(ExportedItem::TypeAlias(item));
                        }
                    },
                    TsDeclaration::Enum(enumeration) => {
                        if let Some(item) = collect_enum(enumeration) {
                            self.items.push(ExportedItem::Enum(item));
                        }
                    },
                    TsDeclaration::Other => {},
                }
            },
            _ => {},
        }
        proof {
            if decl_yields(*decl) {
                assert(self.items@.drop_last() =~= before);
            }
        }
    }

    /// Record the item of `export default <declaration>`; an anonymous
    /// declaration is named `default`.
    pub fn visit_export_default_declaration(&mut self, decl: &TsExportDecl)
        requires
            decl is Default,
        ensures
            decl_yields(*decl) ==> final(self).items@.len() == old(self).items@.len() + 1
                && final(self).items@.drop_last() == old(self).items@
                && export_item(*decl, final(self).items@.last()),
            !decl_yields(*decl) ==> final(self).items@ == old(self).items@,
    {
        let ghost before = self.items@;
        match decl {
            TsExportDecl::Default(def) => {
                match def {
                    TsDefaultDeclaration::Function(func) => {
                        if let Some(item) = collect_function(func) {
                            let mut item = item;
                            item.name = named_or_default(item.name);
                            self.items.push(ExportedItem::Function(item));
                        }
                    },
                    TsDefaultDeclaration::Class(class) => {
                        if let Some(item) = collect_class(class) {
                            let mut item = item;
                            item.name = named_or_default(item.name);
                            self.items.push(ExportedItem::Class(item));
                        }
                    },
                    TsDefaultDeclaration::Interface(iface) => {
                        if let Some(item) = collect_interface(iface) {
                            let mut item = item;
                            item.name = named_or_default(item.name);
                            self.items.push(ExportedItem::Interface(item));
                        }
                    },
                    TsDefaultDeclaration::Other => {},
                }
            },
            _ => {},
        }
        proof {
            if decl_yields(*decl) {
                assert(self.items@.drop_last() =~= before);
            }
        }
    }

    /// Collect the exported items of a module from its export declarations,
    /// in the order they are met.
    pub fn collect(decls: &Vec<TsExportDecl>) -> (r: Vec<ExportedItem>)
        ensures
            exports_items(decls@, r@),
    {
        let mut collector = ExportCollector::new();
        let mut i: usize = 0;
        while i < decls.len()
            invariant
                i <= decls.len(),
                exports_items(decls@.take(i as int), collector.items@),
            decreases decls.len() - i,
        {
            proof {
                assert(decls@.take(i + 1).drop_last() =~= decls@.take(i as int));
                assert(decls@.take(i + 1).last() == decls@[i as int]);
            }
            match &decls[i] {
                TsExportDecl::Named(_) => collector.visit_export_named_declaration(&decls[i]),
                TsExportDecl::Default(_) => collector.visit_export_default_declaration(&decls[i]),
            }
            i = i + 1;
        }
        assert(decls@.take(decls.len() as int) =~= decls@);
        collector.items
    }
}

} // verus!
