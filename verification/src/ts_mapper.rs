//! The type mapper: turns the collected TypeScript descriptors into WIT IR,
//! with diagnostics for what WIT cannot express.
use vstd::prelude::*;
use crate::diagnostic::{diags_of, DiagModel, Diagnostic, DiagnosticKind};
use crate::text::{str_eq, string_from_chars, str_chars};
use crate::ts_branded::{branded_entry, BrandedTypeMap};
use crate::ts_collect::{
    EnumMemberInfo, ExportedClass, ExportedEnum, ExportedFunction, ExportedInterface,
    ExportedItem, ExportedTypeAlias, KeywordType, MethodInfo, ParamInfo, PropertyInfo, TypeInfo,
};
use crate::ts_types::{
    opt_wit, funcs_of, type_defs_of, AliasModel, CaseModel, EnumModel, FlagsModel, FuncModel, NamedTy,
    RecordModel, ResourceModel, TypeDefModel, VariantModel, WitEnum, WitFlags, WitFunc, WitRecord,
    WitResource, WitTy, WitType, WitTypeAlias, WitTypeDef, WitVariant,
};
use crate::wit_common::kebab_case;
pub use crate::wit_common::to_kebab_case;

verus! {

broadcast use crate::ts_types::lemma_opt_ty;

/// What the mapping reads: the branded names, whether bare `number` is an
/// error, and the names of the exported types.
pub struct MapEnv {
    pub branded: Seq<(Seq<char>, WitTy)>,
    pub strict: bool,
    pub known: Seq<Seq<char>>,
}

/// What the mapping accumulates: type definitions, exported functions, and
/// diagnostics, in the order they were produced.
pub struct MapState {
    pub type_defs: Seq<TypeDefModel>,
    pub functions: Seq<FuncModel>,
    pub diags: Seq<DiagModel>,
}

/// `st` with one more diagnostic.
pub open spec fn with_diag(st: MapState, kind: DiagnosticKind, message: Seq<char>, context: Seq<char>) -> MapState {
    MapState { diags: st.diags.push((kind, message, context)), ..st }
}

/// `st` with one more type definition.
pub open spec fn with_def(st: MapState, d: TypeDefModel) -> MapState {
    MapState { type_defs: st.type_defs.push(d), ..st }
}

/// `(in context)`.
pub open spec fn in_context(ctx: Seq<char>) -> Seq<char> {
    " (in "@ + ctx + ")"@
}

/// The mapping of a keyword type.
pub open spec fn map_keyword_spec(env: MapEnv, st: MapState, kw: KeywordType, ctx: Seq<char>) -> (MapState, Option<WitTy>) {
    match kw {
        KeywordType::String => (st, Some(WitTy::Str)),
        KeywordType::Boolean => (st, Some(WitTy::Bool)),
        KeywordType::BigInt => (st, Some(WitTy::S64)),
        KeywordType::Void => (st, None),
        KeywordType::Never => (st, None),
        KeywordType::Number => if env.strict {
            (with_diag(st, DiagnosticKind::AmbiguousNumeric,
                "ambiguous `number` type requires a WIT type annotation"@ + in_context(ctx), ctx), None)
        } else {
            (st, Some(WitTy::F64))
        },
        KeywordType::Any => (with_diag(st, DiagnosticKind::UnsupportedType,
            "`any` has no WIT equivalent"@ + in_context(ctx), ctx), None),
        KeywordType::Unknown => (with_diag(st, DiagnosticKind::UnsupportedType,
            "`unknown` has no WIT equivalent"@ + in_context(ctx), ctx), None),
        KeywordType::Symbol => (with_diag(st, DiagnosticKind::UnsupportedType,
            "`symbol` has no WIT equivalent"@ + in_context(ctx), ctx), None),
        KeywordType::Object => (with_diag(st, DiagnosticKind::UnsupportedType,
            "`object` is too broad for WIT — use a specific interface or type"@ + in_context(ctx), ctx), None),
    }
}

/// The WIT list type of a typed array name.
pub open spec fn typed_array_spec(name: Seq<char>) -> Option<WitTy> {
    if name == "Uint8Array"@ || name == "Uint8ClampedArray"@ {
        Some(WitTy::List(Box::new(WitTy::U8)))
    } else if name == "Uint16Array"@ {
        Some(WitTy::List(Box::new(WitTy::U16)))
    } else if name == "Uint32Array"@ {
        Some(WitTy::List(Box::new(WitTy::U32)))
    } else if name == "Int8Array"@ {
        Some(WitTy::List(Box::new(WitTy::S8)))
    } else if name == "Int16Array"@ {
        Some(WitTy::List(Box::new(WitTy::S16)))
    } else if name == "Int32Array"@ {
        Some(WitTy::List(Box::new(WitTy::S32)))
    } else if name == "Float32Array"@ {
        Some(WitTy::List(Box::new(WitTy::F32)))
    } else if name == "Float64Array"@ {
        Some(WitTy::List(Box::new(WitTy::F64)))
    } else if name == "BigInt64Array"@ {
        Some(WitTy::List(Box::new(WitTy::S64)))
    } else if name == "BigUint64Array"@ {
        Some(WitTy::List(Box::new(WitTy::U64)))
    } else {
        None
    }
}

/// The JavaScript typed-array names.
pub open spec fn js_typed_array_names() -> Seq<Seq<char>> {
    seq!["Int8Array"@, "Uint8Array"@, "Uint8ClampedArray"@, "Int16Array"@, "Uint16Array"@, "Int32Array"@, "Uint32Array"@, "Float32Array"@, "Float64Array"@, "BigInt64Array"@, "BigUint64Array"@]
}

/// `s` without the prefix `p`, when it starts with it.
pub open spec fn after_prefix(s: Seq<char>, p: Seq<char>) -> Option<Seq<char>> {
    if p.len() <= s.len() && s.take(p.len() as int) == p { Some(s.skip(p.len() as int)) } else { None }
}

/// The WIT keyword of the element a typed-array name spells. The name is
/// `<kind><bits>Array`: the kind `Int` or `BigInt` is signed (`s`), `Uint` or
/// `BigUint` unsigned (`u`), `Float` floating point (`f`), followed by the
/// width; `Uint8ClampedArray` holds `u8`.
pub open spec fn typed_array_elem_keyword(n: Seq<char>) -> Option<Seq<char>> {
    if n == "Uint8ClampedArray"@ {
        Some("u8"@)
    } else if n.len() >= 5 && n.skip(n.len() - 5) == "Array"@ {
        let body = n.take(n.len() - 5);
        if after_prefix(body, "BigUint"@) is Some {
            Some(seq!['u'] + after_prefix(body, "BigUint"@)->0)
        } else if after_prefix(body, "BigInt"@) is Some {
            Some(seq!['s'] + after_prefix(body, "BigInt"@)->0)
        } else if after_prefix(body, "Uint"@) is Some {
            Some(seq!['u'] + after_prefix(body, "Uint"@)->0)
        } else if after_prefix(body, "Int"@) is Some {
            Some(seq!['s'] + after_prefix(body, "Int"@)->0)
        } else if after_prefix(body, "Float"@) is Some {
            Some(seq!['f'] + after_prefix(body, "Float"@)->0)
        } else {
            None
        }
    } else {
        None
    }
}

proof fn lemma_typed_array_literals()
    ensures
        "Int8Array"@ == seq!['I', 'n', 't', '8', 'A', 'r', 'r', 'a', 'y'],
        "Uint8Array"@ == seq!['U', 'i', 'n', 't', '8', 'A', 'r', 'r', 'a', 'y'],
        "Uint8ClampedArray"@ == seq!['U', 'i', 'n', 't', '8', 'C', 'l', 'a', 'm', 'p', 'e', 'd', 'A', 'r', 'r', 'a', 'y'],
        "Int16Array"@ == seq!['I', 'n', 't', '1', '6', 'A', 'r', 'r', 'a', 'y'],
        "Uint16Array"@ == seq!['U', 'i', 'n', 't', '1', '6', 'A', 'r', 'r', 'a', 'y'],
        "Int32Array"@ == seq!['I', 'n', 't', '3', '2', 'A', 'r', 'r', 'a', 'y'],
        "Uint32Array"@ == seq!['U', 'i', 'n', 't', '3', '2', 'A', 'r', 'r', 'a', 'y'],
        "Float32Array"@ == seq!['F', 'l', 'o', 'a', 't', '3', '2', 'A', 'r', 'r', 'a', 'y'],
        "Float64Array"@ == seq!['F', 'l', 'o', 'a', 't', '6', '4', 'A', 'r', 'r', 'a', 'y'],
        "BigInt64Array"@ == seq!['B', 'i', 'g', 'I', 'n', 't', '6', '4', 'A', 'r', 'r', 'a', 'y'],
        "BigUint64Array"@ == seq!['B', 'i', 'g', 'U', 'i', 'n', 't', '6', '4', 'A', 'r', 'r', 'a', 'y'],
        "Array"@ == seq!['A', 'r', 'r', 'a', 'y'],
        "BigUint"@ == seq!['B', 'i', 'g', 'U', 'i', 'n', 't'],
        "BigInt"@ == seq!['B', 'i', 'g', 'I', 'n', 't'],
        "Uint"@ == seq!['U', 'i', 'n', 't'],
        "Int"@ == seq!['I', 'n', 't'],
        "Float"@ == seq!['F', 'l', 'o', 'a', 't'],
        "u8"@ == seq!['u', '8'],
        "u16"@ == seq!['u', '1', '6'],
        "u32"@ == seq!['u', '3', '2'],
        "u64"@ == seq!['u', '6', '4'],
        "s8"@ == seq!['s', '8'],
        "s16"@ == seq!['s', '1', '6'],
        "s32"@ == seq!['s', '3', '2'],
        "s64"@ == seq!['s', '6', '4'],
        "f32"@ == seq!['f', '3', '2'],
        "f64"@ == seq!['f', '6', '4'],
{
    reveal_strlit("Int8Array");
    reveal_strlit("Uint8Array");
    reveal_strlit("Uint8ClampedArray");
    reveal_strlit("Int16Array");
    reveal_strlit("Uint16Array");
    reveal_strlit("Int32Array");
    reveal_strlit("Uint32Array");
    reveal_strlit("Float32Array");
    reveal_strlit("Float64Array");
    reveal_strlit("BigInt64Array");
    reveal_strlit("BigUint64Array");
    reveal_strlit("Array");
    reveal_strlit("BigUint");
    reveal_strlit("BigInt");
    reveal_strlit("Uint");
    reveal_strlit("Int");
    reveal_strlit("Float");
    reveal_strlit("u8");
    reveal_strlit("u16");
    reveal_strlit("u32");
    reveal_strlit("u64");
    reveal_strlit("s8");
    reveal_strlit("s16");
    reveal_strlit("s32");
    reveal_strlit("s64");
    reveal_strlit("f32");
    reveal_strlit("f64");
    assert("Int8Array"@ =~= seq!['I', 'n', 't', '8', 'A', 'r', 'r', 'a', 'y']);
    assert("Uint8Array"@ =~= seq!['U', 'i', 'n', 't', '8', 'A', 'r', 'r', 'a', 'y']);
    assert("Uint8ClampedArray"@ =~= seq!['U', 'i', 'n', 't', '8', 'C', 'l', 'a', 'm', 'p', 'e', 'd', 'A', 'r', 'r', 'a', 'y']);
    assert("Int16Array"@ =~= seq!['I', 'n', 't', '1', '6', 'A', 'r', 'r', 'a', 'y']);
    assert("Uint16Array"@ =~= seq!['U', 'i', 'n', 't', '1', '6', 'A', 'r', 'r', 'a', 'y']);
    assert("Int32Array"@ =~= seq!['I', 'n', 't', '3', '2', 'A', 'r', 'r', 'a', 'y']);
    assert("Uint32Array"@ =~= seq!['U', 'i', 'n', 't', '3', '2', 'A', 'r', 'r', 'a', 'y']);
    assert("Float32Array"@ =~= seq!['F', 'l', 'o', 'a', 't', '3', '2', 'A', 'r', 'r', 'a', 'y']);
    assert("Float64Array"@ =~= seq!['F', 'l', 'o', 'a', 't', '6', '4', 'A', 'r', 'r', 'a', 'y']);
    assert("BigInt64Array"@ =~= seq!['B', 'i', 'g', 'I', 'n', 't', '6', '4', 'A', 'r', 'r', 'a', 'y']);
    assert("BigUint64Array"@ =~= seq!['B', 'i', 'g', 'U', 'i', 'n', 't', '6', '4', 'A', 'r', 'r', 'a', 'y']);
    assert("Array"@ =~= seq!['A', 'r', 'r', 'a', 'y']);
    assert("BigUint"@ =~= seq!['B', 'i', 'g', 'U', 'i', 'n', 't']);
    assert("BigInt"@ =~= seq!['B', 'i', 'g', 'I', 'n', 't']);
    assert("Uint"@ =~= seq!['U', 'i', 'n', 't']);
    assert("Int"@ =~= seq!['I', 'n', 't']);
    assert("Float"@ =~= seq!['F', 'l', 'o', 'a', 't']);
    assert("u8"@ =~= seq!['u', '8']);
    assert("u16"@ =~= seq!['u', '1', '6']);
    assert("u32"@ =~= seq!['u', '3', '2']);
    assert("u64"@ =~= seq!['u', '6', '4']);
    assert("s8"@ =~= seq!['s', '8']);
    assert("s16"@ =~= seq!['s', '1', '6']);
    assert("s32"@ =~= seq!['s', '3', '2']);
    assert("s64"@ =~= seq!['s', '6', '4']);
    assert("f32"@ =~= seq!['f', '3', '2']);
    assert("f64"@ =~= seq!['f', '6', '4']);
}

/// Law: exactly the JavaScript typed arrays map, each to a list of the WIT
/// number type its name spells, of the same width and signedness
/// (`Int16Array` to `list<s16>`, `BigUint64Array` to `list<u64>`, ...).
pub proof fn lemma_typed_array_element_matches_name(n: Seq<char>)
    ensures
        typed_array_spec(n) is Some <==> js_typed_array_names().contains(n),
        typed_array_spec(n) matches Some(t) ==> (t matches WitTy::List(e)
            && typed_array_elem_keyword(n) == Some(crate::ts_types::ty_text(*e))),
{
    lemma_typed_array_literals();
    let names = js_typed_array_names();
    if names.contains(n) {
        let j = choose|j: int| 0 <= j < names.len() && names[j] == n;
        assert(n == names[j]);
        let body = n.take(n.len() - 5);
        assert(n.skip(n.len() - 5) =~= "Array"@);
        if j == 0 {
            assert(body =~= seq!['I', 'n', 't', '8']);
            assert(body.take(3) =~= "Int"@);
            assert(body.skip(3) =~= seq!['8']);
            assert(after_prefix(body, "Int"@) == Some(seq!['8']));
        } else if j == 1 {
            assert(body =~= seq!['U', 'i', 'n', 't', '8']);
            assert(body.take(4) =~= "Uint"@);
            assert(body.skip(4) =~= seq!['8']);
            assert(after_prefix(body, "Uint"@) == Some(seq!['8']));
        } else if j == 2 {
        } else if j == 3 {
            assert(body =~= seq!['I', 'n', 't', '1', '6']);
            assert(body.take(3) =~= "Int"@);
            assert(body.skip(3) =~= seq!['1', '6']);
            assert(after_prefix(body, "Int"@) == Some(seq!['1', '6']));
        } else if j == 4 {
            assert(body =~= seq!['U', 'i', 'n', 't', '1', '6']);
            assert(body.take(4) =~= "Uint"@);
            assert(body.skip(4) =~= seq!['1', '6']);
            assert(after_prefix(body, "Uint"@) == Some(seq!['1', '6']));
        } else if j == 5 {
            assert(body =~= seq!['I', 'n', 't', '3', '2']);
            assert(body.take(3) =~= "Int"@);
            assert(body.skip(3) =~= seq!['3', '2']);
            assert(after_prefix(body, "Int"@) == Some(seq!['3', '2']));
        } else if j == 6 {
            assert(body =~= seq!['U', 'i', 'n', 't', '3', '2']);
            assert(body.take(4) =~= "Uint"@);
            assert(body.skip(4) =~= seq!['3', '2']);
            assert(after_prefix(body, "Uint"@) == Some(seq!['3', '2']));
        } else if j == 7 {
            assert(body =~= seq!['F', 'l', 'o', 'a', 't', '3', '2']);
            assert(body.take(5) =~= "Float"@);
            assert(body.skip(5) =~= seq!['3', '2']);
            assert(after_prefix(body, "Float"@) == Some(seq!['3', '2']));
        } else if j == 8 {
            assert(body =~= seq!['F', 'l', 'o', 'a', 't', '6', '4']);
            assert(body.take(5) =~= "Float"@);
            assert(body.skip(5) =~= seq!['6', '4']);
            assert(after_prefix(body, "Float"@) == Some(seq!['6', '4']));
        } else if j == 9 {
            assert(body =~= seq!['B', 'i', 'g', 'I', 'n', 't', '6', '4']);
            assert(body.take(6) =~= "BigInt"@);
            assert(body.skip(6) =~= seq!['6', '4']);
            assert(after_prefix(body, "BigInt"@) == Some(seq!['6', '4']));
        } else {
            assert(body =~= seq!['B', 'i', 'g', 'U', 'i', 'n', 't', '6', '4']);
            assert(body.take(7) =~= "BigUint"@);
            assert(body.skip(7) =~= seq!['6', '4']);
            assert(after_prefix(body, "BigUint"@) == Some(seq!['6', '4']));
        }
        assert(typed_array_elem_keyword(n) == Some(crate::ts_types::ty_text(*typed_array_spec(n)->0->List_0)));
    }
}

/// `t` wrapped by `f` when present.
pub open spec fn wrap_list(r: Option<WitTy>) -> Option<WitTy> {
    match r {
        Some(t) => Some(WitTy::List(Box::new(t))),
        None => None,
    }
}

/// `t` wrapped in `option<..>` when present.
pub open spec fn wrap_option(r: Option<WitTy>) -> Option<WitTy> {
    match r {
        Some(t) => Some(WitTy::Option(Box::new(t))),
        None => None,
    }
}

/// Null and undefined members of a union make it optional.
pub open spec fn is_nullish(t: TypeInfo) -> bool {
    t is Null || t is Undefined
}

/// The number of members that are neither null nor undefined.
pub open spec fn count_non_null(ms: Seq<TypeInfo>) -> nat
    decreases ms.len(),
{
    if ms.len() == 0 {
        0
    } else {
        count_non_null(ms.drop_last()) + if is_nullish(ms.last()) { 0nat } else { 1nat }
    }
}

/// The index of the first member at or after `start` that is neither null
/// nor undefined, or -1.
pub open spec fn first_non_null_from(ms: Seq<TypeInfo>, start: int) -> int
    decreases ms.len() - start,
{
    if start < 0 || start >= ms.len() {
        -1
    } else if !is_nullish(ms[start]) {
        start
    } else {
        first_non_null_from(ms, start + 1)
    }
}

/// The mapping of a type: the new state and the WIT type, if any.
pub open spec fn map_ti(env: MapEnv, st: MapState, t: TypeInfo, ctx: Seq<char>) -> (MapState, Option<WitTy>)
    decreases t, 0nat,
{
    match t {
        TypeInfo::Keyword(kw) => map_keyword_spec(env, st, kw, ctx),
        TypeInfo::Reference { name, type_args } => map_ref(env, st, name@, type_args@, ctx),
        TypeInfo::Array(elem) => {
            let (s1, r) = map_ti(env, st, *elem, ctx);
            (s1, wrap_list(r))
        },
        TypeInfo::Tuple(elems) => {
            let (s1, ts) = map_elems(env, st, elems@, elems@.len(), ctx);
            (s1, Some(WitTy::Tuple(ts)))
        },
        TypeInfo::Union(members) => map_union(env, st, members@, ctx),
        TypeInfo::ObjectLiteral(props) => {
            let (s1, fields) = map_props(env, st, props@, props@.len(), true);
            let wit_name = kebab_case(ctx + "-record"@);
            (with_def(s1, TypeDefModel::Record(RecordModel { name: wit_name, fields })), Some(WitTy::Named(wit_name)))
        },
        TypeInfo::Intersection => (with_diag(st, DiagnosticKind::UnsupportedType,
            "intersection types cannot be mapped to WIT"@ + in_context(ctx), ctx), None),
        TypeInfo::FunctionType => (with_diag(st, DiagnosticKind::UnsupportedType,
            "function types cannot be mapped to WIT — WIT has no first-class functions"@ + in_context(ctx), ctx), None),
        TypeInfo::Null => (st, None),
        TypeInfo::Undefined => (st, None),
        TypeInfo::Unknown(desc) => (with_diag(st, DiagnosticKind::UnresolvableType,
            "could not resolve type in "@ + ctx + ": "@ + desc@, ctx), None),
    }
}

/// The mapped types of the first `n` elements, skipping unmappable ones.
pub open spec fn map_elems(env: MapEnv, st: MapState, elems: Seq<TypeInfo>, n: nat, ctx: Seq<char>) -> (MapState, Seq<WitTy>)
    decreases elems, n,
{
    if n == 0 || n > elems.len() {
        (st, Seq::empty())
    } else {
        let (s1, acc) = map_elems(env, st, elems, (n - 1) as nat, ctx);
        let (s2, r) = map_ti(env, s1, elems[n - 1], ctx);
        (s2, match r {
            Some(t) => acc.push(t),
            None => acc,
        })
    }
}

/// The mapped fields of the first `n` properties, each named in kebab case,
/// optional ones wrapped in `option<..>` when `wrap` holds, unmappable ones skipped.
pub open spec fn map_props(env: MapEnv, st: MapState, props: Seq<PropertyInfo>, n: nat, wrap: bool) -> (MapState, Seq<NamedTy>)
    decreases props, n,
{
    if n == 0 || n > props.len() {
        (st, Seq::empty())
    } else {
        let (s1, acc) = map_props(env, st, props, (n - 1) as nat, wrap);
        let p = props[n - 1];
        let (s2, r) = map_ti(env, s1, p.type_info, p.name@);
        (s2, match r {
            Some(t) => acc.push((kebab_case(p.name@), if wrap && p.optional { WitTy::Option(Box::new(t)) } else { t })),
            None => acc,
        })
    }
}

/// The mapping of a reference to a named type.
pub open spec fn map_ref(env: MapEnv, st: MapState, name: Seq<char>, args: Seq<TypeInfo>, ctx: Seq<char>) -> (MapState, Option<WitTy>)
    decreases args, 0nat,
{
    match branded_entry(env.branded, name) {
        Some(t) => (st, Some(t)),
        None => if (name == "Array"@ || name == "ReadonlyArray"@) && args.len() == 1 {
            let (s1, r) = map_ti(env, st, args[0], ctx);
            (s1, wrap_list(r))
        } else if name == "Promise"@ {
            if args.len() == 1 {
                let (s1, r) = map_ti(env, st, args[0], ctx);
                (s1, match r {
                    Some(t) => Some(WitTy::Future(Some(Box::new(t)))),
                    None => None,
                })
            } else {
                (st, Some(WitTy::Future(None)))
            }
        } else if name == "AsyncIterable"@ || name == "ReadableStream"@ {
            if args.len() == 1 {
                let (s1, r) = map_ti(env, st, args[0], ctx);
                (s1, match r {
                    Some(t) => Some(WitTy::Stream(Some(Box::new(t)))),
                    None => None,
                })
            } else {
                (st, Some(WitTy::Stream(None)))
            }
        } else if name == "Map"@ || name == "Set"@ || name == "WeakMap"@ || name == "WeakSet"@ {
            (with_diag(st, DiagnosticKind::UnsupportedType,
                "`"@ + name + "` has no direct WIT equivalent"@ + in_context(ctx), ctx), None)
        } else if typed_array_spec(name) is Some {
            (st, typed_array_spec(name))
        } else if env.known.contains(name) {
            (st, Some(WitTy::Named(kebab_case(name))))
        } else if args.len() > 0 {
            (with_diag(st, DiagnosticKind::UnsupportedType,
                "user-defined generic type `"@ + name + "<...>` cannot be mapped to WIT"@ + in_context(ctx), ctx), None)
        } else {
            (st, Some(WitTy::Named(kebab_case(name))))
        },
    }
}

/// The mapping of a union: `T | null` and `T | undefined` become `option<T>`,
/// `{ ok: T } | { err: E }` becomes `result<T, E>`, anything else is reported.
pub open spec fn map_union(env: MapEnv, st: MapState, ms: Seq<TypeInfo>, ctx: Seq<char>) -> (MapState, Option<WitTy>)
    decreases ms, 3nat,
{
    let k = count_non_null(ms);
    if k < ms.len() {
        if k == 1 {
            let i = first_non_null_from(ms, 0);
            if 0 <= i < ms.len() {
                let (s1, r) = map_ti(env, st, ms[i], ctx);
                (s1, wrap_option(r))
            } else {
                (st, None)
            }
        } else {
            let (s1, r) = union_rest(env, st, ms, k, ctx);
            (s1, wrap_option(r))
        }
    } else {
        union_rest(env, st, ms, k, ctx)
    }
}

/// The mapping of the `k` non-null members of a union: a result type when
/// there are two and they make one, a diagnostic otherwise.
pub open spec fn union_rest(env: MapEnv, st: MapState, ms: Seq<TypeInfo>, k: nat, ctx: Seq<char>) -> (MapState, Option<WitTy>)
    decreases ms, 2nat,
{
    let (s1, r) = if k == 2 {
        let i0 = first_non_null_from(ms, 0);
        result_pair(env, st, ms, i0, if i0 >= 0 { first_non_null_from(ms, i0 + 1) } else { -1 })
    } else {
        (st, None)
    };
    match r {
        Some(t) => (s1, Some(t)),
        None => (with_diag(s1, DiagnosticKind::UnsupportedType,
            "inline union types should be extracted to a named type alias for WIT variant mapping"@
                + in_context(ctx), ctx), None),
    }
}

/// The result type made of the members `i0` and `i1`, if either is a
/// one-property object literal `{ ok: T }` or `{ err: E }` that maps.
pub open spec fn result_pair(env: MapEnv, st: MapState, ms: Seq<TypeInfo>, i0: int, i1: int) -> (MapState, Option<WitTy>)
    decreases ms, 1nat,
{
    let (s1, ok1, err1) = result_step(env, st, ms, i0, None, None);
    let (s2, ok2, err2) = result_step(env, s1, ms, i1, ok1, err1);
    if ok2 is Some || err2 is Some {
        (s2, Some(WitTy::Result {
            ok: match ok2 { Some(t) => Some(Box::new(t)), None => None },
            err: match err2 { Some(t) => Some(Box::new(t)), None => None },
        }))
    } else {
        (s2, None)
    }
}

/// One member of a candidate result union: a `{ ok: T }` sets the ok type and
/// a `{ err: E }` the error type, to what they map to.
pub open spec fn result_step(env: MapEnv, st: MapState, ms: Seq<TypeInfo>, i: int, ok: Option<WitTy>, err: Option<WitTy>) -> (MapState, Option<WitTy>, Option<WitTy>)
    decreases ms, 0nat,
{
    if 0 <= i < ms.len() {
        match ms[i] {
            TypeInfo::ObjectLiteral(props) => if props@.len() == 1 {
                let p = props@[0];
                if p.name@ == "ok"@ {
                    let (s1, r) = map_ti(env, st, p.type_info, "result-ok"@);
                    (s1, r, err)
                } else if p.name@ == "err"@ {
                    let (s1, r) = map_ti(env, st, p.type_info, "result-err"@);
                    (s1, ok, r)
                } else {
                    (st, ok, err)
                }
            } else {
                (st, ok, err)
            },
            _ => (st, ok, err),
        }
    } else {
        (st, ok, err)
    }
}

} // verus!

verus! {

/// The mapping of a return type: an async function's `Promise<T>` gives `T`,
/// `void` gives no result.
pub open spec fn map_return_spec(env: MapEnv, st: MapState, t: TypeInfo, is_async: bool) -> (MapState, Option<WitTy>) {
    match t {
        TypeInfo::Reference { name, type_args } => if is_async && name@ == "Promise"@ && type_args@.len() == 1 {
            map_ti(env, st, type_args@[0], "return"@)
        } else {
            map_ti(env, st, t, "return"@)
        },
        TypeInfo::Keyword(KeywordType::Void) => (st, None),
        _ => map_ti(env, st, t, "return"@),
    }
}

/// The mapped parameters among the first `n`, as for `map_props`.
pub open spec fn map_params(env: MapEnv, st: MapState, ps: Seq<ParamInfo>, n: nat, wrap: bool) -> (MapState, Seq<NamedTy>)
    decreases n,
{
    if n == 0 || n > ps.len() {
        (st, Seq::empty())
    } else {
        let (s1, acc) = map_params(env, st, ps, (n - 1) as nat, wrap);
        let p = ps[n - 1];
        let (s2, r) = map_ti(env, s1, p.type_info, p.name@);
        (s2, match r {
            Some(t) => acc.push((kebab_case(p.name@), if wrap && p.optional { WitTy::Option(Box::new(t)) } else { t })),
            None => acc,
        })
    }
}

/// The mapped result of an optional return type.
pub open spec fn map_opt_return(env: MapEnv, st: MapState, rt: Option<TypeInfo>, is_async: bool) -> (MapState, Option<WitTy>) {
    match rt {
        Some(t) => map_return_spec(env, st, t, is_async),
        None => (st, None),
    }
}

/// The WIT function of a method.
pub open spec fn map_method_spec(env: MapEnv, st: MapState, m: MethodInfo) -> (MapState, FuncModel) {
    let (s1, params) = map_params(env, st, m.params@, m.params@.len(), false);
    let (s2, result) = map_opt_return(env, s1, m.return_type, m.is_async);
    (s2, FuncModel { name: kebab_case(m.name@), params, result, is_async: m.is_async })
}

/// The WIT functions of the first `n` methods.
pub open spec fn map_methods(env: MapEnv, st: MapState, ms: Seq<MethodInfo>, n: nat) -> (MapState, Seq<FuncModel>)
    decreases n,
{
    if n == 0 || n > ms.len() {
        (st, Seq::empty())
    } else {
        let (s1, acc) = map_methods(env, st, ms, (n - 1) as nat);
        let (s2, f) = map_method_spec(env, s1, ms[n - 1]);
        (s2, acc.push(f))
    }
}

/// An exported function becomes a WIT function; optional parameters are
/// wrapped in `option<..>`.
pub open spec fn map_function_spec(env: MapEnv, st: MapState, f: ExportedFunction) -> MapState {
    let (s1, params) = map_params(env, st, f.params@, f.params@.len(), true);
    let (s2, result) = map_opt_return(env, s1, f.return_type, f.is_async);
    MapState {
        functions: s2.functions.push(FuncModel { name: kebab_case(f.name@), params, result, is_async: f.is_async }),
        ..s2
    }
}

/// The kebab-case names of properties.
pub open spec fn kebab_names_of_props(ps: Seq<PropertyInfo>) -> Seq<Seq<char>> {
    ps.map_values(|p: PropertyInfo| kebab_case(p.name@))
}

/// The kebab-case names of enum members.
pub open spec fn kebab_names_of_members(ms: Seq<EnumMemberInfo>) -> Seq<Seq<char>> {
    ms.map_values(|m: EnumMemberInfo| kebab_case(m.name@))
}

/// An exported class becomes flags when decorated `@wit.flags`, a resource otherwise.
pub open spec fn map_class_spec(env: MapEnv, st: MapState, c: ExportedClass) -> MapState {
    if c.decorators@.map_values(|d: String| d@).contains("wit.flags"@) {
        with_def(st, TypeDefModel::Flags(FlagsModel { name: kebab_case(c.name@), flags: kebab_names_of_props(c.properties@) }))
    } else {
        let (s1, ctor) = match c.constructor_params {
            Some(ps) => {
                let (s, v) = map_params(env, st, ps@, ps@.len(), false);
                (s, Some(v))
            },
            None => (st, None),
        };
        let (s2, methods) = map_methods(env, s1, c.methods@, c.methods@.len());
        let (s3, statics) = map_methods(env, s2, c.static_methods@, c.static_methods@.len());
        with_def(s3, TypeDefModel::Resource(ResourceModel {
            name: kebab_case(c.name@),
            constructor_params: ctor,
            methods,
            static_funcs: statics,
        }))
    }
}

/// An exported interface becomes a record.
pub open spec fn map_interface_spec(env: MapEnv, st: MapState, i: ExportedInterface) -> MapState {
    let (s1, fields) = map_props(env, st, i.properties@, i.properties@.len(), true);
    with_def(s1, TypeDefModel::Record(RecordModel { name: kebab_case(i.name@), fields }))
}

/// An exported enum becomes flags when so decorated, an enum otherwise.
pub open spec fn map_enum_spec(st: MapState, e: ExportedEnum) -> MapState {
    if e.has_flags_decorator {
        with_def(st, TypeDefModel::Flags(FlagsModel { name: kebab_case(e.name@), flags: kebab_names_of_members(e.members@) }))
    } else {
        with_def(st, TypeDefModel::Enum(EnumModel { name: kebab_case(e.name@), cases: kebab_names_of_members(e.members@) }))
    }
}

/// Whether every member is an object literal.
pub open spec fn all_object_literals(ms: Seq<TypeInfo>) -> bool {
    forall|i: int| 0 <= i < ms.len() ==> (#[trigger] ms[i]) is ObjectLiteral
}

/// The properties of an object literal member.
pub open spec fn props_of(t: TypeInfo) -> Seq<PropertyInfo> {
    match t {
        TypeInfo::ObjectLiteral(props) => props@,
        _ => Seq::empty(),
    }
}

/// Whether `props` has a property named `field`.
pub open spec fn has_prop(props: Seq<PropertyInfo>, field: Seq<char>) -> bool {
    exists|j: int| 0 <= j < props.len() && (#[trigger] props[j]).name@ == field
}

/// Whether every member has a property named `field`.
pub open spec fn all_have_prop(ms: Seq<TypeInfo>, field: Seq<char>) -> bool {
    forall|i: int| 0 <= i < ms.len() ==> has_prop(props_of(#[trigger] ms[i]), field)
}

/// The first of `kind`, `type`, `tag`, `_tag` that every member has.
pub open spec fn discriminant_spec(ms: Seq<TypeInfo>) -> Option<Seq<char>> {
    if all_have_prop(ms, "kind"@) {
        Some("kind"@)
    } else if all_have_prop(ms, "type"@) {
        Some("type"@)
    } else if all_have_prop(ms, "tag"@) {
        Some("tag"@)
    } else if all_have_prop(ms, "_tag"@) {
        Some("_tag"@)
    } else {
        None
    }
}

/// The index of the first property at or after `start` whose name is
/// `field` (when `named`) or is not `field` (otherwise), or -1.
pub open spec fn first_prop_from(props: Seq<PropertyInfo>, field: Seq<char>, start: int, named: bool) -> int
    decreases props.len() - start,
{
    if start < 0 || start >= props.len() {
        -1
    } else if (props[start].name@ == field) == named {
        start
    } else {
        first_prop_from(props, field, start + 1, named)
    }
}

/// The index of the first property named `field`, or -1.
pub open spec fn first_prop_named(props: Seq<PropertyInfo>, field: Seq<char>) -> int {
    first_prop_from(props, field, 0, true)
}

/// The index of the first property not named `field`, or -1.
pub open spec fn first_other_prop(props: Seq<PropertyInfo>, field: Seq<char>) -> int {
    first_prop_from(props, field, 0, false)
}

/// The number of properties not named `field`.
pub open spec fn count_other_props(props: Seq<PropertyInfo>, field: Seq<char>) -> nat
    decreases props.len(),
{
    if props.len() == 0 {
        0
    } else {
        count_other_props(props.drop_last(), field) + if props.last().name@ == field { 0nat } else { 1nat }
    }
}

proof fn lemma_first_prop_from(props: Seq<PropertyInfo>, field: Seq<char>, start: int, named: bool)
    requires
        0 <= start,
    ensures
        first_prop_from(props, field, start, named) == -1 || (start <= first_prop_from(props, field, start, named) < props.len()
            && (props[first_prop_from(props, field, start, named)].name@ == field) == named),
        first_prop_from(props, field, start, named) == -1 ==> forall|j: int| start <= j < props.len() ==> (#[trigger] props[j].name@ == field) != named,
    decreases props.len() - start,
{
    if start < props.len() && (props[start].name@ == field) != named {
        lemma_first_prop_from(props, field, start + 1, named);
    }
}

/// The value a literal description `StringLiteral("..")` holds.
pub open spec fn literal_value(d: Seq<char>) -> Option<Seq<char>> {
    let p = "StringLiteral(\""@;
    let q = "\")"@;
    if d.len() >= p.len() + q.len() && d.take(p.len() as int) == p && d.skip(d.len() - q.len()) == q {
        Some(d.subrange(p.len() as int, d.len() - q.len()))
    } else {
        None
    }
}

/// The string literal a discriminant type stands for: the name of a
/// reference without type arguments, or the value of an unresolved string
/// literal type.
pub open spec fn literal_string_spec(t: TypeInfo) -> Option<Seq<char>> {
    match t {
        TypeInfo::Reference { name, type_args } => if type_args@.len() == 0 { Some(name@) } else { None },
        TypeInfo::Unknown(d) => literal_value(d@),
        _ => None,
    }
}

/// An unresolved string literal type's description gives its value back.
pub proof fn lemma_literal_value_of_desc(v: Seq<char>)
    ensures
        literal_value(crate::ts_collect::literal_desc(v)) == Some(v),
{
    let p = "StringLiteral(\""@;
    let q = "\")"@;
    let d = p + v + q;
    assert(d == crate::ts_collect::literal_desc(v));
    assert(d.take(p.len() as int) =~= p);
    assert(d.skip(d.len() - q.len()) =~= q);
    assert(d.subrange(p.len() as int, d.len() - q.len()) =~= v);
}

/// The value of a literal description, as `literal_value` gives it.
fn literal_value_of(d: &str) -> (r: Option<String>)
    ensures
        match r {
            Some(s) => literal_value(d@) == Some(s@),
            None => literal_value(d@) is None,
        },
{
    let cs = crate::text::str_chars(d);
    let p = crate::text::str_chars("StringLiteral(\"");
    let q = crate::text::str_chars("\")");
    if cs.len() < p.len() || cs.len() - p.len() < q.len() {
        return None;
    }
    let head = crate::text::slice_chars(&cs, 0, p.len());
    let tail = crate::text::slice_chars(&cs, cs.len() - q.len(), cs.len());
    proof {
        assert(cs@.take(p@.len() as int) == head@);
        assert(cs@.skip(cs@.len() - q@.len()) =~= tail@);
    }
    if crate::text::chars_eq(&head, &p) && crate::text::chars_eq(&tail, &q) {
        Some(crate::text::slice_string(&cs, p.len(), cs.len() - q.len()))
    } else {
        None
    }
}

/// The mapped fields among the first `n` properties not named `field`.
pub open spec fn record_fields_spec(env: MapEnv, st: MapState, props: Seq<PropertyInfo>, field: Seq<char>, n: nat) -> (MapState, Seq<NamedTy>)
    decreases n,
{
    if n == 0 || n > props.len() {
        (st, Seq::empty())
    } else {
        let (s1, acc) = record_fields_spec(env, st, props, field, (n - 1) as nat);
        let p = props[n - 1];
        if p.name@ == field {
            (s1, acc)
        } else {
            let (s2, r) = map_ti(env, s1, p.type_info, p.name@);
            (s2, match r {
                Some(t) => acc.push((kebab_case(p.name@), t)),
                None => acc,
            })
        }
    }
}

/// The case of one member of a variant union, if its discriminant is a string
/// literal; the payload is the other field, or a record `name-case` of them.
pub open spec fn variant_case_spec(env: MapEnv, st: MapState, name: Seq<char>, props: Seq<PropertyInfo>, field: Seq<char>) -> (MapState, Option<CaseModel>) {
    let dp = first_prop_named(props, field);
    if !(0 <= dp < props.len()) {
        (st, None)
    } else {
        match literal_string_spec(props[dp].type_info) {
            None => (st, None),
            Some(case_name) => {
                let others = count_other_props(props, field);
                let (s1, payload) = if others == 0 {
                    (st, None)
                } else if others == 1 {
                    let j = first_other_prop(props, field);
                    if 0 <= j < props.len() {
                        map_ti(env, st, props[j].type_info, case_name)
                    } else {
                        (st, None)
                    }
                } else {
                    let record_name = name + "-"@ + case_name;
                    let (s, fields) = record_fields_spec(env, st, props, field, props.len());
                    (with_def(s, TypeDefModel::Record(RecordModel { name: record_name, fields })),
                        Some(WitTy::Named(record_name)))
                };
                (s1, Some((kebab_case(case_name), payload)))
            },
        }
    }
}

/// The cases of the first `n` members.
pub open spec fn variant_cases_spec(env: MapEnv, st: MapState, name: Seq<char>, ms: Seq<TypeInfo>, field: Seq<char>, n: nat) -> (MapState, Seq<CaseModel>)
    decreases n,
{
    if n == 0 || n > ms.len() {
        (st, Seq::empty())
    } else {
        let (s1, acc) = variant_cases_spec(env, st, name, ms, field, (n - 1) as nat);
        let (s2, c) = variant_case_spec(env, s1, name, props_of(ms[n - 1]), field);
        (s2, match c {
            Some(case) => acc.push(case),
            None => acc,
        })
    }
}

/// A union of object literals sharing a discriminant field becomes a variant.
pub open spec fn variant_spec(env: MapEnv, st: MapState, name: Seq<char>, ms: Seq<TypeInfo>) -> (MapState, Option<VariantModel>) {
    if !all_object_literals(ms) || ms.len() == 0 {
        (st, None)
    } else {
        match discriminant_spec(ms) {
            None => (st, None),
            Some(field) => {
                let (s1, cases) = variant_cases_spec(env, st, name, ms, field, ms.len());
                if cases.len() == 0 {
                    (s1, None)
                } else {
                    (s1, Some(VariantModel { name, cases }))
                }
            },
        }
    }
}

/// `st` with a type alias for `target`, when it maps.
pub open spec fn with_alias(st: MapState, name: Seq<char>, target: Option<WitTy>) -> MapState {
    match target {
        Some(t) => with_def(st, TypeDefModel::TypeAlias(AliasModel { name, target: t })),
        None => st,
    }
}

/// An exported type alias becomes a variant, a record, or a type alias.
pub open spec fn map_type_alias_spec(env: MapEnv, st: MapState, a: ExportedTypeAlias) -> MapState {
    let wit_name = kebab_case(a.name@);
    match a.type_info {
        TypeInfo::Union(members) => {
            let (s1, v) = variant_spec(env, st, wit_name, members@);
            match v {
                Some(vm) => with_def(s1, TypeDefModel::Variant(vm)),
                None => {
                    let (s2, r) = map_ti(env, s1, a.type_info, a.name@);
                    with_alias(s2, wit_name, r)
                },
            }
        },
        TypeInfo::ObjectLiteral(props) => {
            let (s1, fields) = map_props(env, st, props@, props@.len(), true);
            with_def(s1, TypeDefModel::Record(RecordModel { name: wit_name, fields }))
        },
        _ => {
            let (s1, r) = map_ti(env, st, a.type_info, a.name@);
            with_alias(s1, wit_name, r)
        },
    }
}

/// The mapping of one exported item.
pub open spec fn map_item_spec(env: MapEnv, st: MapState, item: ExportedItem) -> MapState {
    match item {
        ExportedItem::Function(f) => map_function_spec(env, st, f),
        ExportedItem::Class(c) => map_class_spec(env, st, c),
        ExportedItem::Interface(i) => map_interface_spec(env, st, i),
        ExportedItem::TypeAlias(a) => map_type_alias_spec(env, st, a),
        ExportedItem::Enum(e) => map_enum_spec(st, e),
    }
}

/// The state after mapping the first `n` items.
pub open spec fn map_items_spec(env: MapEnv, st: MapState, items: Seq<ExportedItem>, n: nat) -> MapState
    decreases n,
{
    if n == 0 || n > items.len() {
        st
    } else {
        map_item_spec(env, map_items_spec(env, st, items, (n - 1) as nat), items[n - 1])
    }
}

/// The name an item registers as a known type, if any.
pub open spec fn known_name(item: ExportedItem) -> Option<Seq<char>> {
    match item {
        ExportedItem::Interface(i) => Some(i.name@),
        ExportedItem::TypeAlias(a) => Some(a.name@),
        ExportedItem::Enum(e) => Some(e.name@),
        ExportedItem::Class(c) => Some(c.name@),
        ExportedItem::Function(_) => None,
    }
}

/// The names of the interfaces, type aliases, enums and classes among the
/// first `n` items, in order.
pub open spec fn known_names(items: Seq<ExportedItem>, n: nat) -> Seq<Seq<char>>
    decreases n,
{
    if n == 0 || n > items.len() {
        Seq::empty()
    } else {
        match known_name(items[n - 1]) {
            Some(name) => known_names(items, (n - 1) as nat).push(name),
            None => known_names(items, (n - 1) as nat),
        }
    }
}

/// The state before any item is mapped.
pub open spec fn empty_map_state() -> MapState {
    MapState { type_defs: Seq::empty(), functions: Seq::empty(), diags: Seq::empty() }
}

/// The mapping of all exported items, with every interface, type alias, enum
/// and class name known beforehand.
pub open spec fn map_exports_spec(items: Seq<ExportedItem>, branded: Seq<(Seq<char>, WitTy)>, strict: bool) -> MapState {
    let env = MapEnv { branded, strict, known: known_names(items, items.len()) };
    map_items_spec(env, empty_map_state(), items, items.len())
}

} // verus!

verus! {

/// Result of mapping TypeScript exports to WIT IR.
pub struct MapResult {
    pub type_defs: Vec<WitTypeDef>,
    pub functions: Vec<WitFunc>,
    pub diagnostics: Vec<Diagnostic>,
}

/// Configuration for the type mapper.
pub struct MapperConfig {
    pub strict: bool,
}

/// The mapping in progress.
pub struct MapContext<'a> {
    branded: &'a BrandedTypeMap,
    config: &'a MapperConfig,
    type_defs: Vec<WitTypeDef>,
    functions: Vec<WitFunc>,
    diagnostics: Vec<Diagnostic>,
    /// The TypeScript names of the exported types.
    known_types: Vec<String>,
}

/// The models of a sequence of strings.
pub open spec fn names_of(s: Seq<String>) -> Seq<Seq<char>> {
    s.map_values(|x: String| x@)
}

impl<'a> MapContext<'a> {
    /// What the mapping reads.
    pub closed spec fn env(&self) -> MapEnv {
        MapEnv { branded: self.branded@, strict: self.config.strict, known: names_of(self.known_types@) }
    }

    /// What the mapping has produced so far.
    pub closed spec fn state(&self) -> MapState {
        MapState {
            type_defs: type_defs_of(self.type_defs@),
            functions: funcs_of(self.functions@),
            diags: diags_of(self.diagnostics@),
        }
    }

    fn push_diag(&mut self, kind: DiagnosticKind, message: String, context: &str)
        ensures
            final(self).env() == old(self).env(),
            final(self).state() == with_diag(old(self).state(), kind, message@, context@),
    {
        let mut ctx = String::new();
        ctx.push_str(context);
        let d = Diagnostic { kind, message, context: ctx };
        proof {
            assert(diags_of(self.diagnostics@.push(d)) == diags_of(self.diagnostics@).push(d@));
        }
        self.diagnostics.push(d);
    }

    fn push_def(&mut self, d: WitTypeDef)
        ensures
            final(self).env() == old(self).env(),
            final(self).state() == with_def(old(self).state(), d@),
    {
        proof {
            assert(type_defs_of(self.type_defs@.push(d)) == type_defs_of(self.type_defs@).push(d@));
        }
        self.type_defs.push(d);
    }

    fn is_known(&self, name: &str) -> (b: bool)
        ensures
            b == self.env().known.contains(name@),
    {
        let mut i: usize = 0;
        while i < self.known_types.len()
            invariant
                i <= self.known_types.len(),
                forall|j: int| 0 <= j < i ==> names_of(self.known_types@)[j] != name@,
            decreases self.known_types.len() - i,
        {
            if str_eq(self.known_types[i].as_str(), name) {
                assert(names_of(self.known_types@)[i as int] == name@);
                return true;
            }
            i = i + 1;
        }
        false
    }
}

/// `msg (in context)`.
fn with_context(msg: &str, context: &str) -> (s: String)
    ensures
        s@ == msg@ + in_context(context@),
{
    let mut s = String::new();
    s.push_str(msg);
    s.push_str(" (in ");
    s.push_str(context);
    s.push_str(")");
    s
}

/// Map typed array names to WIT list types.
pub fn map_typed_array(name: &str) -> (r: Option<WitType>)
    ensures
        match r {
            Some(t) => typed_array_spec(name@) == Some(t@),
            None => typed_array_spec(name@) is None,
        },
{
    proof {
        reveal_with_fuel(crate::ts_types::ty_of, 2);
        reveal_strlit("Uint8Array");
        reveal_strlit("Uint8ClampedArray");
        reveal_strlit("Uint16Array");
        reveal_strlit("Uint32Array");
        reveal_strlit("Int8Array");
        reveal_strlit("Int16Array");
        reveal_strlit("Int32Array");
        reveal_strlit("Float32Array");
        reveal_strlit("Float64Array");
        reveal_strlit("BigInt64Array");
        reveal_strlit("BigUint64Array");
    }
    if str_eq(name, "Uint8Array") || str_eq(name, "Uint8ClampedArray") {
        Some(WitType::List(Box::new(WitType::U8)))
    } else if str_eq(name, "Uint16Array") {
        Some(WitType::List(Box::new(WitType::U16)))
    } else if str_eq(name, "Uint32Array") {
        Some(WitType::List(Box::new(WitType::U32)))
    } else if str_eq(name, "Int8Array") {
        Some(WitType::List(Box::new(WitType::S8)))
    } else if str_eq(name, "Int16Array") {
        Some(WitType::List(Box::new(WitType::S16)))
    } else if str_eq(name, "Int32Array") {
        Some(WitType::List(Box::new(WitType::S32)))
    } else if str_eq(name, "Float32Array") {
        Some(WitType::List(Box::new(WitType::F32)))
    } else if str_eq(name, "Float64Array") {
        Some(WitType::List(Box::new(WitType::F64)))
    } else if str_eq(name, "BigInt64Array") {
        Some(WitType::List(Box::new(WitType::S64)))
    } else if str_eq(name, "BigUint64Array") {
        Some(WitType::List(Box::new(WitType::U64)))
    } else {
        None
    }
}

impl<'a> MapContext<'a> {
    fn map_keyword(&mut self, kw: KeywordType, context: &str) -> (r: Option<WitType>)
        ensures
            final(self).env() == old(self).env(),
            (final(self).state(), opt_wit(r)) == map_keyword_spec(old(self).env(), old(self).state(), kw, context@),
    {
        match kw {
            KeywordType::String => Some(WitType::WitString),
            KeywordType::Boolean => Some(WitType::Bool),
            KeywordType::BigInt => Some(WitType::S64),
            KeywordType::Void => None,
            KeywordType::Never => None,
            KeywordType::Number => {
                if self.config.strict {
                    let msg = with_context("ambiguous `number` type requires a WIT type annotation", context);
                    self.push_diag(DiagnosticKind::AmbiguousNumeric, msg, context);
                    None
                } else {
                    Some(WitType::F64)
                }
            },
            KeywordType::Any => {
                let msg = with_context("`any` has no WIT equivalent", context);
                self.push_diag(DiagnosticKind::UnsupportedType, msg, context);
                None
            },
            KeywordType::Unknown => {
                let msg = with_context("`unknown` has no WIT equivalent", context);
                self.push_diag(DiagnosticKind::UnsupportedType, msg, context);
                None
            },
            KeywordType::Symbol => {
                let msg = with_context("`symbol` has no WIT equivalent", context);
                self.push_diag(DiagnosticKind::UnsupportedType, msg, context);
                None
            },
            KeywordType::Object => {
                let msg = with_context(
                    "`object` is too broad for WIT — use a specific interface or type",
                    context,
                );
                self.push_diag(DiagnosticKind::UnsupportedType, msg, context);
                None
            },
        }
    }
}

} // verus!

verus! {

fn is_nullish_exec(t: &TypeInfo) -> (b: bool)
    ensures
        b == is_nullish(*t),
{
    match t {
        TypeInfo::Null => true,
        TypeInfo::Undefined => true,
        _ => false,
    }
}

fn count_non_null_exec(ms: &Vec<TypeInfo>) -> (k: usize)
    ensures
        k == count_non_null(ms@),
{
    let mut k: usize = 0;
    let mut i: usize = 0;
    while i < ms.len()
        invariant
            i <= ms.len(),
            k <= i,
            k == count_non_null(ms@.take(i as int)),
        decreases ms.len() - i,
    {
        proof {
            assert(ms@.take(i + 1).drop_last() == ms@.take(i as int));
            assert(ms@.take(i + 1).last() == ms@[i as int]);
        }
        if !is_nullish_exec(&ms[i]) {
            k = k + 1;
        }
        i = i + 1;
    }
    assert(ms@.take(ms.len() as int) == ms@);
    k
}

fn first_non_null_exec(ms: &Vec<TypeInfo>, start: usize) -> (r: usize)
    ensures
        first_non_null_from(ms@, start as int) < 0 ==> r == ms.len(),
        first_non_null_from(ms@, start as int) >= 0 ==> r == first_non_null_from(ms@, start as int),
        r <= ms.len(),
{
    if start >= ms.len() {
        return ms.len();
    }
    let mut i = start;
    while i < ms.len()
        invariant
            start <= i <= ms.len(),
            first_non_null_from(ms@, start as int) == first_non_null_from(ms@, i as int),
        decreases ms.len() - i,
    {
        if !is_nullish_exec(&ms[i]) {
            return i;
        }
        i = i + 1;
    }
    i
}

impl<'a> MapContext<'a> {
    /// Map a TypeInfo to a WitType, recording diagnostics for unmappable types.
    fn map_type_info(&mut self, type_info: &TypeInfo, context: &str) -> (r: Option<WitType>)
        ensures
            final(self).env() == old(self).env(),
            (final(self).state(), opt_wit(r)) == map_ti(old(self).env(), old(self).state(), *type_info, context@),
        decreases *type_info, 0nat,
    {
        match type_info {
            TypeInfo::Keyword(kw) => self.map_keyword(*kw, context),
            TypeInfo::Reference { name, type_args } => self.map_type_reference(name.as_str(), type_args, context),
            TypeInfo::Array(elem) => {
                match self.map_type_info(&**elem, context) {
                    Some(inner) => Some(WitType::List(Box::new(inner))),
                    None => None,
                }
            },
            TypeInfo::Tuple(elems) => {
                let mapped = self.map_elems(elems, context);
                Some(WitType::Tuple(mapped))
            },
            TypeInfo::Union(members) => self.map_union(members, context),
            TypeInfo::ObjectLiteral(props) => {
                let fields = self.map_props(props, true);
                let mut name = String::new();
                name.push_str(context);
                name.push_str("-record");
                let wit_name = to_kebab_case(name.as_str());
                let named = wit_name.clone();
                self.push_def(WitTypeDef::Record(WitRecord { name: wit_name, fields }));
                Some(WitType::Named(named))
            },
            TypeInfo::Intersection => {
                let msg = with_context("intersection types cannot be mapped to WIT", context);
                self.push_diag(DiagnosticKind::UnsupportedType, msg, context);
                None
            },
            TypeInfo::FunctionType => {
                let msg = with_context(
                    "function types cannot be mapped to WIT — WIT has no first-class functions",
                    context,
                );
                self.push_diag(DiagnosticKind::UnsupportedType, msg, context);
                None
            },
            TypeInfo::Null => None,
            TypeInfo::Undefined => None,
            TypeInfo::Unknown(desc) => {
                let mut msg = String::new();
                msg.push_str("could not resolve type in ");
                msg.push_str(context);
                msg.push_str(": ");
                msg.push_str(desc.as_str());
                self.push_diag(DiagnosticKind::UnresolvableType, msg, context);
                None
            },
        }
    }

    fn map_elems(&mut self, elems: &Vec<TypeInfo>, context: &str) -> (r: Vec<WitType>)
        ensures
            final(self).env() == old(self).env(),
            (final(self).state(), crate::ts_types::tys_of(r@)) == map_elems(old(self).env(), old(self).state(), elems@, elems@.len(), context@),
        decreases *elems, 1nat,
    {
        let mut mapped: Vec<WitType> = Vec::new();
        let mut i: usize = 0;
        while i < elems.len()
            invariant
                i <= elems.len(),
                self.env() == old(self).env(),
                (self.state(), crate::ts_types::tys_of(mapped@)) == map_elems(old(self).env(), old(self).state(), elems@, i as nat, context@),
            decreases elems.len() - i,
        {
            proof { assert(decreases_to!(elems => elems@[i as int])); }
            match self.map_type_info(&elems[i], context) {
                Some(t) => {
                    proof { crate::ts_types::lemma_tys_of_push(mapped@, t); }
                    mapped.push(t);
                },
                None => {},
            }
            i = i + 1;
        }
        mapped
    }

    fn map_props(&mut self, props: &Vec<PropertyInfo>, wrap: bool) -> (r: Vec<(String, WitType)>)
        ensures
            final(self).env() == old(self).env(),
            (final(self).state(), crate::ts_types::named_tys(r@)) == map_props(old(self).env(), old(self).state(), props@, props@.len(), wrap),
        decreases *props, 1nat,
    {
        let mut fields: Vec<(String, WitType)> = Vec::new();
        let mut i: usize = 0;
        while i < props.len()
            invariant
                i <= props.len(),
                self.env() == old(self).env(),
                (self.state(), crate::ts_types::named_tys(fields@)) == map_props(old(self).env(), old(self).state(), props@, i as nat, wrap),
            decreases props.len() - i,
        {
            let p = &props[i];
            proof { assert(decreases_to!(props => props@[i as int])); }
            match self.map_type_info(&p.type_info, p.name.as_str()) {
                Some(t) => {
                    let t2 = if wrap && p.optional { WitType::Option(Box::new(t)) } else { t };
                    let entry = (to_kebab_case(p.name.as_str()), t2);
                    proof {
                        assert(crate::ts_types::named_tys(fields@.push(entry)) == crate::ts_types::named_tys(fields@).push((entry.0@, entry.1@)));
                    }
                    fields.push(entry);
                },
                None => {},
            }
            i = i + 1;
        }
        fields
    }

    fn map_type_reference(&mut self, name: &str, type_args: &Vec<TypeInfo>, context: &str) -> (r: Option<WitType>)
        ensures
            final(self).env() == old(self).env(),
            (final(self).state(), opt_wit(r)) == map_ref(old(self).env(), old(self).state(), name@, type_args@, context@),
        decreases *type_args, 0nat,
    {
        proof {
            reveal_strlit("Array");
            reveal_strlit("ReadonlyArray");
            reveal_strlit("Promise");
            reveal_strlit("AsyncIterable");
            reveal_strlit("ReadableStream");
            reveal_strlit("Map");
            reveal_strlit("Set");
            reveal_strlit("WeakMap");
            reveal_strlit("WeakSet");
            reveal_with_fuel(crate::ts_types::ty_of, 3);
        }
        match self.branded.get(name) {
            Some(t) => { return Some(t); },
            None => {},
        }
        if (str_eq(name, "Array") || str_eq(name, "ReadonlyArray")) && type_args.len() == 1 {
            proof { assert(decreases_to!(type_args => type_args@[0])); }
            return match self.map_type_info(&type_args[0], context) {
                Some(inner) => Some(WitType::List(Box::new(inner))),
                None => None,
            };
        }
        if str_eq(name, "Promise") {
            if type_args.len() == 1 {
                proof { assert(decreases_to!(type_args => type_args@[0])); }
                return match self.map_type_info(&type_args[0], context) {
                    Some(inner) => Some(WitType::Future(Some(Box::new(inner)))),
                    None => None,
                };
            } else {
                return Some(WitType::Future(None));
            }
        }
        if str_eq(name, "AsyncIterable") || str_eq(name, "ReadableStream") {
            if type_args.len() == 1 {
                proof { assert(decreases_to!(type_args => type_args@[0])); }
                return match self.map_type_info(&type_args[0], context) {
                    Some(inner) => Some(WitType::Stream(Some(Box::new(inner)))),
                    None => None,
                };
            } else {
                return Some(WitType::Stream(None));
            }
        }
        if str_eq(name, "Map") || str_eq(name, "Set") || str_eq(name, "WeakMap") || str_eq(name, "WeakSet") {
            let mut prefix = String::new();
            prefix.push_str("`");
            prefix.push_str(name);
            prefix.push_str("` has no direct WIT equivalent");
            let msg = with_context(prefix.as_str(), context);
            self.push_diag(DiagnosticKind::UnsupportedType, msg, context);
            return None;
        }
        match map_typed_array(name) {
            Some(t) => { return Some(t); },
            None => {},
        }
        if self.is_known(name) {
            return Some(WitType::Named(to_kebab_case(name)));
        }
        if type_args.len() > 0 {
            let mut prefix = String::new();
            prefix.push_str("user-defined generic type `");
            prefix.push_str(name);
            prefix.push_str("<...>` cannot be mapped to WIT");
            let msg = with_context(prefix.as_str(), context);
            self.push_diag(DiagnosticKind::UnsupportedType, msg, context);
            return None;
        }
        Some(WitType::Named(to_kebab_case(name)))
    }

    fn map_union(&mut self, members: &Vec<TypeInfo>, context: &str) -> (r: Option<WitType>)
        ensures
            final(self).env() == old(self).env(),
            (final(self).state(), opt_wit(r)) == map_union(old(self).env(), old(self).state(), members@, context@),
        decreases *members, 3nat,
    {
        let k = count_non_null_exec(members);
        if k < members.len() {
            if k == 1 {
                let i = first_non_null_exec(members, 0);
                if i < members.len() {
                    proof { assert(decreases_to!(members => members@[i as int])); }
                    return match self.map_type_info(&members[i], context) {
                        Some(inner) => Some(WitType::Option(Box::new(inner))),
                        None => None,
                    };
                } else {
                    return None;
                }
            }
            return match self.union_rest(members, k, context) {
                Some(inner) => Some(WitType::Option(Box::new(inner))),
                None => None,
            };
        }
        self.union_rest(members, k, context)
    }

    fn union_rest(&mut self, members: &Vec<TypeInfo>, k: usize, context: &str) -> (r: Option<WitType>)
        ensures
            final(self).env() == old(self).env(),
            (final(self).state(), opt_wit(r)) == union_rest(old(self).env(), old(self).state(), members@, k as nat, context@),
        decreases *members, 2nat,
    {
        let res = if k == 2 {
            let i0 = first_non_null_exec(members, 0);
            let i1 = if i0 < members.len() { first_non_null_exec(members, i0 + 1) } else { members.len() };
            try_map_result(members, i0, i1, self)
        } else {
            None
        };
        match res {
            Some(t) => Some(t),
            None => {
                let msg = with_context(
                    "inline union types should be extracted to a named type alias for WIT variant mapping",
                    context,
                );
                self.push_diag(DiagnosticKind::UnsupportedType, msg, context);
                None
            },
        }
    }
}

} // verus!

verus! {

/// Try to map the two members `i0` and `i1` of a union to a result type:
/// `{ ok: T } | { err: E }`.
fn try_map_result(members: &Vec<TypeInfo>, i0: usize, i1: usize, ctx: &mut MapContext) -> (r: Option<WitType>)
    ensures
        final(ctx).env() == old(ctx).env(),
        (final(ctx).state(), opt_wit(r)) == result_pair(
            old(ctx).env(),
            old(ctx).state(),
            members@,
            if i0 < members.len() { i0 as int } else { -1 },
            if i1 < members.len() { i1 as int } else { -1 },
        ),
    decreases *members, 1nat,
{
    let (ok1, err1) = map_result_member(members, i0, None, None, ctx);
    let (ok2, err2) = map_result_member(members, i1, ok1, err1, ctx);
    if ok2.is_some() || err2.is_some() {
        let ok = match ok2 { Some(t) => Some(Box::new(t)), None => None };
        let err = match err2 { Some(t) => Some(Box::new(t)), None => None };
        proof {
            reveal_with_fuel(crate::ts_types::ty_of, 3);
        }
        Some(WitType::Result { ok, err })
    } else {
        None
    }
}

fn map_result_member(members: &Vec<TypeInfo>, i: usize, ok: Option<WitType>, err: Option<WitType>, ctx: &mut MapContext) -> (r: (Option<WitType>, Option<WitType>))
    ensures
        final(ctx).env() == old(ctx).env(),
        (final(ctx).state(), opt_wit(r.0), opt_wit(r.1)) == result_step(
            old(ctx).env(),
            old(ctx).state(),
            members@,
            if i < members.len() { i as int } else { -1 },
            opt_wit(ok),
            opt_wit(err),
        ),
    decreases *members, 0nat,
{
    if i >= members.len() {
        return (ok, err);
    }
    proof { assert(decreases_to!(members => members@[i as int])); }
    match &members[i] {
        TypeInfo::ObjectLiteral(props) => {
            if props.len() == 1 {
                let prop = &props[0];
                if str_eq(prop.name.as_str(), "ok") {
                    let r = ctx.map_type_info(&prop.type_info, "result-ok");
                    (r, err)
                } else if str_eq(prop.name.as_str(), "err") {
                    let r = ctx.map_type_info(&prop.type_info, "result-err");
                    (ok, r)
                } else {
                    (ok, err)
                }
            } else {
                (ok, err)
            }
        },
        _ => (ok, err),
    }
}

} // verus!

verus! {

fn find_prop_from(props: &Vec<PropertyInfo>, field: &str, start: usize, named: bool) -> (r: usize)
    ensures
        first_prop_from(props@, field@, start as int, named) < 0 ==> r == props.len(),
        first_prop_from(props@, field@, start as int, named) >= 0 ==> r == first_prop_from(props@, field@, start as int, named),
        r <= props.len(),
{
    if start >= props.len() {
        return props.len();
    }
    let mut i = start;
    while i < props.len()
        invariant
            start <= i <= props.len(),
            first_prop_from(props@, field@, start as int, named) == first_prop_from(props@, field@, i as int, named),
        decreases props.len() - i,
    {
        if str_eq(props[i].name.as_str(), field) == named {
            return i;
        }
        i = i + 1;
    }
    i
}

fn count_other_props_exec(props: &Vec<PropertyInfo>, field: &str) -> (k: usize)
    ensures
        k == count_other_props(props@, field@),
{
    let mut k: usize = 0;
    let mut i: usize = 0;
    while i < props.len()
        invariant
            i <= props.len(),
            k <= i,
            k == count_other_props(props@.take(i as int), field@),
        decreases props.len() - i,
    {
        proof {
            assert(props@.take(i + 1).drop_last() == props@.take(i as int));
            assert(props@.take(i + 1).last() == props@[i as int]);
        }
        if !str_eq(props[i].name.as_str(), field) {
            k = k + 1;
        }
        i = i + 1;
    }
    assert(props@.take(props.len() as int) == props@);
    k
}

fn all_have_prop_exec(members: &Vec<TypeInfo>, field: &str) -> (b: bool)
    ensures
        b == all_have_prop(members@, field@),
{
    let mut i: usize = 0;
    while i < members.len()
        invariant
            i <= members.len(),
            forall|j: int| 0 <= j < i ==> has_prop(props_of(#[trigger] members@[j]), field@),
        decreases members.len() - i,
    {
        let ok = match &members[i] {
            TypeInfo::ObjectLiteral(props) => {
                let r = find_prop_from(props, field, 0, true);
                proof { lemma_first_prop_from(props@, field@, 0, true); }
                if r < props.len() {
                    assert(props@[r as int].name@ == field@);
                    true
                } else {
                    false
                }
            },
            _ => false,
        };
        if !ok {
            assert(!has_prop(props_of(members@[i as int]), field@));
            return false;
        }
        i = i + 1;
    }
    true
}

fn all_object_literals_exec(members: &Vec<TypeInfo>) -> (b: bool)
    ensures
        b == all_object_literals(members@),
{
    let mut i: usize = 0;
    while i < members.len()
        invariant
            i <= members.len(),
            forall|j: int| 0 <= j < i ==> (#[trigger] members@[j]) is ObjectLiteral,
        decreases members.len() - i,
    {
        match &members[i] {
            TypeInfo::ObjectLiteral(_) => {},
            _ => { return false; },
        }
        i = i + 1;
    }
    true
}

/// Try to extract a string literal value from a TypeInfo: the name of a
/// reference without type arguments, or the value an unresolved string
/// literal type holds.
pub fn extract_literal_string_from_type(type_info: &TypeInfo) -> (r: Option<String>)
    ensures
        match r {
            Some(s) => literal_string_spec(*type_info) == Some(s@),
            None => literal_string_spec(*type_info) is None,
        },
{
    match type_info {
        TypeInfo::Reference { name, type_args } => {
            if type_args.len() == 0 {
                Some(name.clone())
            } else {
                None
            }
        },
        TypeInfo::Unknown(d) => literal_value_of(d.as_str()),
        _ => None,
    }
}

fn record_fields(props: &Vec<PropertyInfo>, field: &str, ctx: &mut MapContext) -> (r: Vec<(String, WitType)>)
    ensures
        final(ctx).env() == old(ctx).env(),
        (final(ctx).state(), crate::ts_types::named_tys(r@)) == record_fields_spec(old(ctx).env(), old(ctx).state(), props@, field@, props@.len()),
{
    let mut fields: Vec<(String, WitType)> = Vec::new();
    let mut i: usize = 0;
    while i < props.len()
        invariant
            i <= props.len(),
            ctx.env() == old(ctx).env(),
            (ctx.state(), crate::ts_types::named_tys(fields@)) == record_fields_spec(old(ctx).env(), old(ctx).state(), props@, field@, i as nat),
        decreases props.len() - i,
    {
        let p = &props[i];
        if !str_eq(p.name.as_str(), field) {
            match ctx.map_type_info(&p.type_info, p.name.as_str()) {
                Some(t) => {
                    let entry = (to_kebab_case(p.name.as_str()), t);
                    proof {
                        assert(crate::ts_types::named_tys(fields@.push(entry)) == crate::ts_types::named_tys(fields@).push((entry.0@, entry.1@)));
                    }
                    fields.push(entry);
                },
                None => {},
            }
        }
        i = i + 1;
    }
    fields
}

fn variant_case(name: &str, props: &Vec<PropertyInfo>, field: &str, ctx: &mut MapContext) -> (r: Option<(String, Option<WitType>)>)
    ensures
        final(ctx).env() == old(ctx).env(),
        ({
            let (s, c) = variant_case_spec(old(ctx).env(), old(ctx).state(), name@, props@, field@);
            &&& final(ctx).state() == s
            &&& match r {
                Some(rc) => c == Some((rc.0@, opt_wit(rc.1))),
                None => c is None,
            }
        }),
{
    let dp = find_prop_from(props, field, 0, true);
    if dp >= props.len() {
        return None;
    }
    let case_name = match extract_literal_string_from_type(&props[dp].type_info) {
        Some(c) => c,
        None => { return None; },
    };
    let others = count_other_props_exec(props, field);
    let payload = if others == 0 {
        None
    } else if others == 1 {
        let j = find_prop_from(props, field, 0, false);
        if j < props.len() {
            ctx.map_type_info(&props[j].type_info, case_name.as_str())
        } else {
            None
        }
    } else {
        let mut record_name = String::new();
        record_name.push_str(name);
        record_name.push_str("-");
        record_name.push_str(case_name.as_str());
        let fields = record_fields(props, field, ctx);
        let named = record_name.clone();
        ctx.push_def(WitTypeDef::Record(WitRecord { name: record_name, fields }));
        Some(WitType::Named(named))
    };
    Some((to_kebab_case(case_name.as_str()), payload))
}

/// Try to map a union of object literals to a WIT variant: every member must
/// be an object literal with a common discriminant field.
fn try_map_variant(name: &str, members: &Vec<TypeInfo>, ctx: &mut MapContext) -> (r: Option<WitVariant>)
    ensures
        final(ctx).env() == old(ctx).env(),
        ({
            let (s, v) = variant_spec(old(ctx).env(), old(ctx).state(), name@, members@);
            &&& final(ctx).state() == s
            &&& match r {
                Some(rv) => v == Some(rv@),
                None => v is None,
            }
        }),
{
    if !all_object_literals_exec(members) || members.len() == 0 {
        return None;
    }
    proof {
        reveal_strlit("kind");
        reveal_strlit("type");
        reveal_strlit("tag");
        reveal_strlit("_tag");
    }
    let field: &str = if all_have_prop_exec(members, "kind") {
        "kind"
    } else if all_have_prop_exec(members, "type") {
        "type"
    } else if all_have_prop_exec(members, "tag") {
        "tag"
    } else if all_have_prop_exec(members, "_tag") {
        "_tag"
    } else {
        return None;
    };
    assert(discriminant_spec(members@) == Some(field@));
    let mut cases: Vec<(String, Option<WitType>)> = Vec::new();
    let mut i: usize = 0;
    while i < members.len()
        invariant
            i <= members.len(),
            all_object_literals(members@),
            ctx.env() == old(ctx).env(),
            (ctx.state(), crate::ts_types::cases_of(cases@)) == variant_cases_spec(old(ctx).env(), old(ctx).state(), name@, members@, field@, i as nat),
        decreases members.len() - i,
    {
        match &members[i] {
            TypeInfo::ObjectLiteral(props) => {
                match variant_case(name, props, field, ctx) {
                    Some(c) => {
                        proof {
                            assert(crate::ts_types::cases_of(cases@.push(c)) == crate::ts_types::cases_of(cases@).push((c.0@, opt_wit(c.1))));
                        }
                        cases.push(c);
                    },
                    None => {},
                }
            },
            _ => {
                assert(members@[i as int] is ObjectLiteral);
            },
        }
        i = i + 1;
    }
    if cases.len() == 0 {
        return None;
    }
    let mut vname = String::new();
    vname.push_str(name);
    Some(WitVariant { name: vname, cases })
}

} // verus!

verus! {

impl<'a> MapContext<'a> {
    fn map_params(&mut self, params: &Vec<ParamInfo>, wrap: bool) -> (r: Vec<(String, WitType)>)
        ensures
            final(self).env() == old(self).env(),
            (final(self).state(), crate::ts_types::named_tys(r@)) == map_params(old(self).env(), old(self).state(), params@, params@.len(), wrap),
    {
        let mut out: Vec<(String, WitType)> = Vec::new();
        let mut i: usize = 0;
        while i < params.len()
            invariant
                i <= params.len(),
                self.env() == old(self).env(),
                (self.state(), crate::ts_types::named_tys(out@)) == map_params(old(self).env(), old(self).state(), params@, i as nat, wrap),
            decreases params.len() - i,
        {
            let p = &params[i];
            match self.map_type_info(&p.type_info, p.name.as_str()) {
                Some(t) => {
                    let t2 = if wrap && p.optional { WitType::Option(Box::new(t)) } else { t };
                    let entry = (to_kebab_case(p.name.as_str()), t2);
                    proof {
                        assert(crate::ts_types::named_tys(out@.push(entry)) == crate::ts_types::named_tys(out@).push((entry.0@, entry.1@)));
                    }
                    out.push(entry);
                },
                None => {},
            }
            i = i + 1;
        }
        out
    }

    fn map_return_type(&mut self, type_info: &TypeInfo, is_async: bool) -> (r: Option<WitType>)
        ensures
            final(self).env() == old(self).env(),
            (final(self).state(), opt_wit(r)) == map_return_spec(old(self).env(), old(self).state(), *type_info, is_async),
    {
        proof { reveal_strlit("Promise"); }
        match type_info {
            TypeInfo::Reference { name, type_args } => {
                if is_async && str_eq(name.as_str(), "Promise") && type_args.len() == 1 {
                    return self.map_type_info(&type_args[0], "return");
                }
            },
            TypeInfo::Keyword(KeywordType::Void) => { return None; },
            _ => {},
        }
        self.map_type_info(type_info, "return")
    }

    fn map_opt_return(&mut self, rt: &Option<TypeInfo>, is_async: bool) -> (r: Option<WitType>)
        ensures
            final(self).env() == old(self).env(),
            (final(self).state(), opt_wit(r)) == map_opt_return(old(self).env(), old(self).state(), *rt, is_async),
    {
        match rt {
            Some(t) => self.map_return_type(t, is_async),
            None => None,
        }
    }

    fn map_function(&mut self, func: &ExportedFunction)
        ensures
            final(self).env() == old(self).env(),
            final(self).state() == map_function_spec(old(self).env(), old(self).state(), *func),
    {
        let params = self.map_params(&func.params, true);
        let result = self.map_opt_return(&func.return_type, func.is_async);
        let f = WitFunc { name: to_kebab_case(func.name.as_str()), params, result, is_async: func.is_async };
        proof {
            assert(funcs_of(self.functions@.push(f)) == funcs_of(self.functions@).push(f@));
        }
        self.functions.push(f);
    }

    fn map_method(&mut self, method: &MethodInfo) -> (r: WitFunc)
        ensures
            final(self).env() == old(self).env(),
            (final(self).state(), r@) == map_method_spec(old(self).env(), old(self).state(), *method),
    {
        let params = self.map_params(&method.params, false);
        let result = self.map_opt_return(&method.return_type, method.is_async);
        WitFunc { name: to_kebab_case(method.name.as_str()), params, result, is_async: method.is_async }
    }

    fn map_methods(&mut self, methods: &Vec<MethodInfo>) -> (r: Vec<WitFunc>)
        ensures
            final(self).env() == old(self).env(),
            (final(self).state(), funcs_of(r@)) == map_methods(old(self).env(), old(self).state(), methods@, methods@.len()),
    {
        let mut out: Vec<WitFunc> = Vec::new();
        let mut i: usize = 0;
        while i < methods.len()
            invariant
                i <= methods.len(),
                self.env() == old(self).env(),
                (self.state(), funcs_of(out@)) == map_methods(old(self).env(), old(self).state(), methods@, i as nat),
            decreases methods.len() - i,
        {
            let f = self.map_method(&methods[i]);
            proof {
                assert(funcs_of(out@.push(f)) == funcs_of(out@).push(f@));
            }
            out.push(f);
            i = i + 1;
        }
        out
    }

    fn map_class(&mut self, class: &ExportedClass)
        ensures
            final(self).env() == old(self).env(),
            final(self).state() == map_class_spec(old(self).env(), old(self).state(), *class),
    {
        let mut is_flags = false;
        let mut i: usize = 0;
        while i < class.decorators.len()
            invariant
                i <= class.decorators.len(),
                is_flags == class.decorators@.take(i as int).map_values(|d: String| d@).contains("wit.flags"@),
            decreases class.decorators.len() - i,
        {
            proof {
                let ds = class.decorators@;
                assert(ds.take(i + 1).map_values(|d: String| d@) == ds.take(i as int).map_values(|d: String| d@).push(ds[i as int]@));
                crate::text::lemma_push_contains(ds.take(i as int).map_values(|d: String| d@), ds[i as int]@, "wit.flags"@);
            }
            if str_eq(class.decorators[i].as_str(), "wit.flags") {
                is_flags = true;
            }
            i = i + 1;
        }
        assert(class.decorators@.take(class.decorators.len() as int) == class.decorators@);
        if is_flags {
            let mut flags: Vec<String> = Vec::new();
            let mut j: usize = 0;
            while j < class.properties.len()
                invariant
                    j <= class.properties.len(),
                    crate::ts_types::strs_of(flags@) == kebab_names_of_props(class.properties@.take(j as int)),
                decreases class.properties.len() - j,
            {
                let k = to_kebab_case(class.properties[j].name.as_str());
                proof {
                    let ps = class.properties@;
                    assert(ps.take(j + 1) == ps.take(j as int).push(ps[j as int]));
                    assert(crate::ts_types::strs_of(flags@.push(k)) == crate::ts_types::strs_of(flags@).push(k@));
                }
                flags.push(k);
                j = j + 1;
            }
            assert(class.properties@.take(class.properties.len() as int) == class.properties@);
            self.push_def(WitTypeDef::Flags(WitFlags { name: to_kebab_case(class.name.as_str()), flags }));
            return;
        }
        let constructor_params = match &class.constructor_params {
            Some(params) => Some(self.map_params(params, false)),
            None => None,
        };
        let methods = self.map_methods(&class.methods);
        let static_funcs = self.map_methods(&class.static_methods);
        self.push_def(WitTypeDef::Resource(WitResource {
            name: to_kebab_case(class.name.as_str()),
            constructor_params,
            methods,
            static_funcs,
        }));
    }

    fn map_interface(&mut self, iface: &ExportedInterface)
        ensures
            final(self).env() == old(self).env(),
            final(self).state() == map_interface_spec(old(self).env(), old(self).state(), *iface),
    {
        let fields = self.map_props(&iface.properties, true);
        self.push_def(WitTypeDef::Record(WitRecord { name: to_kebab_case(iface.name.as_str()), fields }));
    }

    fn map_type_alias(&mut self, alias: &ExportedTypeAlias)
        ensures
            final(self).env() == old(self).env(),
            final(self).state() == map_type_alias_spec(old(self).env(), old(self).state(), *alias),
    {
        let wit_name = to_kebab_case(alias.name.as_str());
        match &alias.type_info {
            TypeInfo::Union(members) => {
                match try_map_variant(wit_name.as_str(), members, self) {
                    Some(variant) => {
                        self.push_def(WitTypeDef::Variant(variant));
                        return;
                    },
                    None => {},
                }
                match self.map_type_info(&alias.type_info, alias.name.as_str()) {
                    Some(t) => self.push_def(WitTypeDef::TypeAlias(WitTypeAlias { name: wit_name, target: t })),
                    None => {},
                }
            },
            TypeInfo::ObjectLiteral(props) => {
                let fields = self.map_props(props, true);
                self.push_def(WitTypeDef::Record(WitRecord { name: wit_name, fields }));
            },
            _ => {
                match self.map_type_info(&alias.type_info, alias.name.as_str()) {
                    Some(t) => self.push_def(WitTypeDef::TypeAlias(WitTypeAlias { name: wit_name, target: t })),
                    None => {},
                }
            },
        }
    }

    fn map_enum(&mut self, e: &ExportedEnum)
        ensures
            final(self).env() == old(self).env(),
            final(self).state() == map_enum_spec(old(self).state(), *e),
    {
        let wit_name = to_kebab_case(e.name.as_str());
        let mut cases: Vec<String> = Vec::new();
        let mut j: usize = 0;
        while j < e.members.len()
            invariant
                j <= e.members.len(),
                crate::ts_types::strs_of(cases@) == kebab_names_of_members(e.members@.take(j as int)),
            decreases e.members.len() - j,
        {
            let k = to_kebab_case(e.members[j].name.as_str());
            proof {
                let ms = e.members@;
                assert(ms.take(j + 1) == ms.take(j as int).push(ms[j as int]));
                assert(crate::ts_types::strs_of(cases@.push(k)) == crate::ts_types::strs_of(cases@).push(k@));
            }
            cases.push(k);
            j = j + 1;
        }
        assert(e.members@.take(e.members.len() as int) == e.members@);
        if e.has_flags_decorator {
            self.push_def(WitTypeDef::Flags(WitFlags { name: wit_name, flags: cases }));
        } else {
            self.push_def(WitTypeDef::Enum(WitEnum { name: wit_name, cases }));
        }
    }
}

} // verus!

verus! {

impl MapResult {
    /// The mapping state that this result holds.
    pub open spec fn state_of(&self) -> MapState {
        MapState {
            type_defs: type_defs_of(self.type_defs@),
            functions: funcs_of(self.functions@),
            diags: diags_of(self.diagnostics@),
        }
    }
}

/// Map collected TypeScript exports to WIT IR: every interface, type alias,
/// enum and class name is known before any item is mapped, then the items are
/// mapped in order.
pub fn map_exports(items: &[ExportedItem], branded: &BrandedTypeMap, config: &MapperConfig) -> (r: MapResult)
    ensures
        r.state_of() == map_exports_spec(items@, branded@, config.strict),
{
    let mut known_types: Vec<String> = Vec::new();
    let mut i: usize = 0;
    while i < items.len()
        invariant
            i <= items.len(),
            names_of(known_types@) == known_names(items@, i as nat),
        decreases items.len() - i,
    {
        let name = match &items[i] {
            ExportedItem::Interface(iface) => Some(iface.name.clone()),
            ExportedItem::TypeAlias(alias) => Some(alias.name.clone()),
            ExportedItem::Enum(e) => Some(e.name.clone()),
            ExportedItem::Class(c) => Some(c.name.clone()),
            ExportedItem::Function(_) => None,
        };
        match name {
            Some(n) => {
                proof {
                    assert(names_of(known_types@.push(n)) == names_of(known_types@).push(n@));
                }
                known_types.push(n);
            },
            None => {},
        }
        i = i + 1;
    }
    let mut ctx = MapContext {
        branded,
        config,
        type_defs: Vec::new(),
        functions: Vec::new(),
        diagnostics: Vec::new(),
        known_types,
    };
    let ghost env = ctx.env();
    proof {
        assert(type_defs_of(ctx.type_defs@) =~= Seq::<TypeDefModel>::empty());
        assert(funcs_of(ctx.functions@) =~= Seq::<FuncModel>::empty());
        assert(diags_of(ctx.diagnostics@) =~= Seq::<DiagModel>::empty());
        assert(ctx.state() == empty_map_state());
    }
    let mut j: usize = 0;
    while j < items.len()
        invariant
            j <= items.len(),
            ctx.env() == env,
            env == (MapEnv { branded: branded@, strict: config.strict, known: known_names(items@, items@.len()) }),
            ctx.state() == map_items_spec(env, empty_map_state(), items@, j as nat),
        decreases items.len() - j,
    {
        match &items[j] {
            ExportedItem::Function(func) => ctx.map_function(func),
            ExportedItem::Class(class) => ctx.map_class(class),
            ExportedItem::Interface(iface) => ctx.map_interface(iface),
            ExportedItem::TypeAlias(alias) => ctx.map_type_alias(alias),
            ExportedItem::Enum(e) => ctx.map_enum(e),
        }
        j = j + 1;
    }
    MapResult { type_defs: ctx.type_defs, functions: ctx.functions, diagnostics: ctx.diagnostics }
}

} // verus!
