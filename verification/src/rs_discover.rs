//! Export discovery over Rust syntax: which functions and `impl` blocks are
//! exported, what their types resolve to, and which struct and enum
//! definitions they reach.
use vstd::prelude::*;
use crate::text::str_eq;
use crate::ts_types::{strs_of, WitTy};
use crate::rs_syntax::{EnumDef, FieldsDef, FnInput, FnSig, GenericArg, PathArgs, RustType, StructDef};
use crate::rs_macros_extract::{
    opt_rty, rty_of, rtys_of, lemma_rtys_of, lemma_rtys_of_push, ResolvedRecord, ResolvedEnum,
    ResolvedType, ResolvedTypeDef, ResolvedVariant,
};
use crate::rs_resolve::{combine, lemma_combine_assoc, lemma_combine_empty, no_parts, tuple_field_name, DefModel, FnModel, ImplModel, ImplParts};
use crate::rs_syntax::{AttrDef, FnItem, ImplItem, ImplItemDef, RustItem};
use crate::rs_macros_extract::{replace_self_spec, replace_self_type, ExportedFunction, ExportedImpl, TypeDiscovery};
use crate::rs_glue::{names_all, names_in, opt_names};

verus! {

// ---------------------------------------------------------------------------
// What a written type resolves to
// ---------------------------------------------------------------------------

/// The WIT type of a path whose last segment is `n` and is not a container.
pub open spec fn ident_ty(resources: Set<Seq<char>>, n: Seq<char>) -> WitTy {
    if n == "bool"@ { WitTy::Bool }
    else if n == "u8"@ { WitTy::U8 }
    else if n == "u16"@ { WitTy::U16 }
    else if n == "u32"@ { WitTy::U32 }
    else if n == "u64"@ { WitTy::U64 }
    else if n == "i8"@ { WitTy::S8 }
    else if n == "i16"@ { WitTy::S16 }
    else if n == "i32"@ { WitTy::S32 }
    else if n == "i64"@ { WitTy::S64 }
    else if n == "f32"@ { WitTy::F32 }
    else if n == "f64"@ { WitTy::F64 }
    else if n == "char"@ { WitTy::Char }
    else if n == "String"@ || n == "str"@ { WitTy::Str }
    else if n == "Self"@ { WitTy::Named("Self"@) }
    else if resources.contains(n) { WitTy::Own(n) }
    else { WitTy::Named(n) }
}

/// Law: a written Rust primitive resolves to the WIT type its name spells,
/// of the same width and signedness: `uN` to `uN`, `iN` to `sN`, `fN` to
/// `fN`, `bool` and `char` to themselves, `str` and `String` to `string`.
pub proof fn lemma_rust_primitive_resolves_to_its_keyword(res: Set<Seq<char>>, t: RustType)
    ensures
        t matches RustType::Path { ident, args } ==> (crate::rs_syntax::rust_prim_names().contains(ident@)
            ==> crate::ts_types::ty_text(sty(res, t)) == crate::rs_syntax::rust_prim_keyword(ident@)),
{
    if let RustType::Path { ident, args } = t {
        let n = ident@;
        let names = crate::rs_syntax::rust_prim_names();
        if names.contains(n) {
            crate::rs_syntax::lemma_prim_literals();
            let j = choose|j: int| 0 <= j < names.len() && names[j] == n;
            assert(n == names[j]);
            assert(names[j] == crate::rs_syntax::rust_prim_names()[j]);
            assert(crate::ts_types::ty_text(sty(res, t)) =~= crate::rs_syntax::rust_prim_keyword(n));
        }
    }
}

/// Whether a path's last segment names a primitive, `String`, `str` or `Self`.
pub open spec fn is_builtin_ident(n: Seq<char>) -> bool {
    n == "bool"@ || n == "u8"@ || n == "u16"@ || n == "u32"@ || n == "u64"@ || n == "i8"@ || n == "i16"@
        || n == "i32"@ || n == "i64"@ || n == "f32"@ || n == "f64"@ || n == "char"@ || n == "String"@
        || n == "str"@ || n == "Self"@
}

/// Whether a path's last segment names a container whose arguments resolve.
pub open spec fn is_container_ident(n: Seq<char>) -> bool {
    n == "Vec"@ || n == "Option"@ || n == "Result"@ || n == "Box"@ || n == "Arc"@ || n == "Rc"@
        || n == "HashMap"@ || n == "BTreeMap"@ || n == "HashSet"@ || n == "BTreeSet"@ || n == "Stream"@
        || n == "Future"@
}

/// The type of the first generic argument, when it is a type.
pub open spec fn first_arg_ty(res: Set<Seq<char>>, args: PathArgs) -> Option<WitTy>
    decreases args, 1nat,
{
    match args {
        PathArgs::AngleBracketed(v) => if v@.len() > 0 {
            match v@[0] {
                GenericArg::Type(t) => Some(sty(res, t)),
                GenericArg::Other => None,
            }
        } else {
            None
        },
        _ => None,
    }
}

/// A `Result` argument: the type of the `i`-th generic argument, unless it
/// is not a type or is `()`.
pub open spec fn result_arg(res: Set<Seq<char>>, args: PathArgs, i: int) -> Option<Box<WitTy>>
    decreases args, 1nat,
{
    match args {
        PathArgs::AngleBracketed(v) => if 0 <= i < v@.len() {
            match v@[i] {
                GenericArg::Type(t) => {
                    let r = sty(res, t);
                    if r == WitTy::Tuple(Seq::empty()) { None } else { Some(Box::new(r)) }
                },
                GenericArg::Other => None,
            }
        } else {
            None
        },
        _ => None,
    }
}

/// The types of the type arguments among `v`, in order.
pub open spec fn gtys(res: Set<Seq<char>>, v: Seq<GenericArg>) -> Seq<WitTy>
    decreases v, 0nat,
{
    if v.len() == 0 {
        Seq::empty()
    } else {
        let rest = gtys(res, v.drop_first());
        match v[0] {
            GenericArg::Type(t) => seq![sty(res, t)] + rest,
            GenericArg::Other => rest,
        }
    }
}

/// The types of all type arguments of a path.
pub open spec fn all_arg_tys(res: Set<Seq<char>>, args: PathArgs) -> Seq<WitTy>
    decreases args, 1nat,
{
    match args {
        PathArgs::AngleBracketed(v) => gtys(res, v@),
        _ => Seq::empty(),
    }
}

/// The first two elements of `s`, or all of them when there are fewer.
pub open spec fn at_most_two(s: Seq<WitTy>) -> Seq<WitTy> {
    if s.len() <= 2 { s } else { s.take(2) }
}

/// `string` when there is no type.
pub open spec fn or_string(o: Option<WitTy>) -> WitTy {
    match o {
        Some(t) => t,
        None => WitTy::Str,
    }
}

/// A boxed optional type.
pub open spec fn boxed(o: Option<WitTy>) -> Option<Box<WitTy>> {
    match o {
        Some(t) => Some(Box::new(t)),
        None => None,
    }
}

/// The WIT type a written Rust type resolves to, given the resource types.
pub open spec fn sty(res: Set<Seq<char>>, t: RustType) -> WitTy
    decreases t, 2nat,
{
    match t {
        RustType::Path { ident, args } => {
            let n = ident@;
            if n == "Vec"@ || n == "HashSet"@ || n == "BTreeSet"@ {
                WitTy::List(Box::new(or_string(first_arg_ty(res, args))))
            } else if n == "Option"@ {
                WitTy::Option(Box::new(or_string(first_arg_ty(res, args))))
            } else if n == "Result"@ {
                WitTy::Result { ok: result_arg(res, args, 0), err: result_arg(res, args, 1) }
            } else if n == "Box"@ || n == "Arc"@ || n == "Rc"@ {
                or_string(first_arg_ty(res, args))
            } else if n == "HashMap"@ || n == "BTreeMap"@ {
                WitTy::List(Box::new(WitTy::Tuple(at_most_two(all_arg_tys(res, args)))))
            } else if n == "Stream"@ {
                WitTy::Stream(boxed(first_arg_ty(res, args)))
            } else if n == "Future"@ {
                WitTy::Future(boxed(first_arg_ty(res, args)))
            } else {
                ident_ty(res, n)
            }
        },
        RustType::Reference(e) => match *e {
            RustType::Path { ident, args } => if ident@ == "str"@ {
                WitTy::Str
            } else if res.contains(ident@) {
                WitTy::Borrow(ident@)
            } else {
                sty(res, *e)
            },
            _ => sty(res, *e),
        },
        RustType::Slice(e) => WitTy::List(Box::new(sty(res, *e))),
        RustType::Tuple(es) => WitTy::Tuple(stys(res, es@)),
        RustType::Other => WitTy::Str,
    }
}

/// The types of a sequence of written types.
pub open spec fn stys(res: Set<Seq<char>>, ts: Seq<RustType>) -> Seq<WitTy>
    decreases ts, 0nat,
{
    if ts.len() == 0 {
        Seq::empty()
    } else {
        seq![sty(res, ts[0])] + stys(res, ts.drop_first())
    }
}

/// The size of a written type.
pub open spec fn rt_size(t: RustType) -> nat
    decreases t, 2nat,
{
    match t {
        RustType::Path { ident, args } => pa_size(args) + 4,
        RustType::Reference(e) => rt_size(*e) + 1,
        RustType::Slice(e) => rt_size(*e) + 1,
        RustType::Tuple(es) => rts_size(es@) + 2,
        RustType::Other => 1,
    }
}

/// The size of path arguments.
pub open spec fn pa_size(a: PathArgs) -> nat
    decreases a, 1nat,
{
    match a {
        PathArgs::AngleBracketed(v) => gas_size(v@),
        _ => 0,
    }
}

/// The size of generic arguments.
pub open spec fn gas_size(v: Seq<GenericArg>) -> nat
    decreases v, 0nat,
{
    if v.len() == 0 {
        0
    } else {
        (match v[0] {
            GenericArg::Type(t) => rt_size(t),
            GenericArg::Other => 0,
        }) + gas_size(v.drop_first())
    }
}

/// The size of a sequence of written types.
pub open spec fn rts_size(ts: Seq<RustType>) -> nat
    decreases ts, 0nat,
{
    if ts.len() == 0 {
        0
    } else {
        rt_size(ts[0]) + rts_size(ts.drop_first())
    }
}

// ---------------------------------------------------------------------------
// Definitions
// ---------------------------------------------------------------------------

/// The last struct definition named `n`.
pub open spec fn struct_named(s: Seq<StructDef>, n: Seq<char>) -> Option<StructDef>
    decreases s.len(),
{
    if s.len() == 0 {
        None
    } else if s.last().name@ == n {
        Some(s.last())
    } else {
        struct_named(s.drop_last(), n)
    }
}

/// The last enum definition named `n`.
pub open spec fn enum_named(s: Seq<EnumDef>, n: Seq<char>) -> Option<EnumDef>
    decreases s.len(),
{
    if s.len() == 0 {
        None
    } else if s.last().name@ == n {
        Some(s.last())
    } else {
        enum_named(s.drop_last(), n)
    }
}

/// The names of struct definitions.
pub open spec fn struct_names(s: Seq<StructDef>) -> Seq<Seq<char>> {
    s.map_values(|d: StructDef| d.name@)
}

/// The names of enum definitions.
pub open spec fn enum_names(s: Seq<EnumDef>) -> Seq<Seq<char>> {
    s.map_values(|d: EnumDef| d.name@)
}

/// The names of the known struct and enum definitions.
pub open spec fn known_names(structs: Seq<StructDef>, enums: Seq<EnumDef>) -> Set<Seq<char>> {
    struct_names(structs).to_set() + enum_names(enums).to_set()
}

/// The record fields of named fields.
pub open spec fn named_fields(res: Set<Seq<char>>, fs: Seq<(String, RustType)>) -> Seq<(Seq<char>, WitTy)>
    decreases fs.len(),
{
    if fs.len() == 0 {
        Seq::empty()
    } else {
        seq![(fs[0].0@, sty(res, fs[0].1))] + named_fields(res, fs.drop_first())
    }
}

/// The record fields of unnamed fields, named `f<i>` from `i0`.
pub open spec fn unnamed_fields(res: Set<Seq<char>>, ts: Seq<RustType>, i0: nat) -> Seq<(Seq<char>, WitTy)>
    decreases ts.len(),
{
    if ts.len() == 0 {
        Seq::empty()
    } else {
        seq![(tuple_field_name(i0), sty(res, ts[0]))] + unnamed_fields(res, ts.drop_first(), i0 + 1)
    }
}

/// The record a struct gives.
pub open spec fn struct_model(res: Set<Seq<char>>, s: StructDef) -> DefModel {
    match s.fields {
        FieldsDef::Named(fs) => DefModel::Record(s.name@, named_fields(res, fs@)),
        FieldsDef::Unnamed(ts) => DefModel::Record(s.name@, unnamed_fields(res, ts@, 0)),
        FieldsDef::Unit => DefModel::Record(s.name@, Seq::empty()),
    }
}

/// The types of named fields.
pub open spec fn named_tys(res: Set<Seq<char>>, fs: Seq<(String, RustType)>) -> Seq<WitTy>
    decreases fs.len(),
{
    if fs.len() == 0 {
        Seq::empty()
    } else {
        seq![sty(res, fs[0].1)] + named_tys(res, fs.drop_first())
    }
}

/// A payload: none, the single type, or a tuple.
pub open spec fn payload_from(tys: Seq<WitTy>) -> Option<WitTy> {
    if tys.len() == 0 { None } else if tys.len() == 1 { Some(tys[0]) } else { Some(WitTy::Tuple(tys)) }
}

/// The payload of a variant's fields.
pub open spec fn fields_payload(res: Set<Seq<char>>, f: FieldsDef) -> Option<WitTy> {
    match f {
        FieldsDef::Unit => None,
        FieldsDef::Unnamed(ts) => payload_from(stys(res, ts@)),
        FieldsDef::Named(fs) => payload_from(named_tys(res, fs@)),
    }
}

/// The cases of a data-carrying enum.
pub open spec fn enum_cases(res: Set<Seq<char>>, vs: Seq<(String, FieldsDef)>) -> Seq<(Seq<char>, Option<WitTy>)>
    decreases vs.len(),
{
    if vs.len() == 0 {
        Seq::empty()
    } else {
        seq![(vs[0].0@, fields_payload(res, vs[0].1))] + enum_cases(res, vs.drop_first())
    }
}

/// Whether every variant is a unit.
pub open spec fn variants_unit(vs: Seq<(String, FieldsDef)>) -> bool {
    forall|i: int| 0 <= i < vs.len() ==> (#[trigger] vs[i]).1 matches FieldsDef::Unit
}

/// The definition an enum gives.
pub open spec fn enum_model(res: Set<Seq<char>>, e: EnumDef) -> DefModel {
    if variants_unit(e.variants@) {
        DefModel::Enum(e.name@, e.variants@.map_values(|v: (String, FieldsDef)| v.0@))
    } else {
        DefModel::Variant(e.name@, enum_cases(res, e.variants@))
    }
}

/// The models of named fields.
pub open spec fn rfields_of(s: Seq<(String, ResolvedType)>) -> Seq<(Seq<char>, WitTy)> {
    s.map_values(|f: (String, ResolvedType)| (f.0@, f.1@))
}

/// The model of an optional type.
pub open spec fn opt_ty_of(o: Option<ResolvedType>) -> Option<WitTy> {
    match o {
        Some(t) => Some(t@),
        None => None,
    }
}

/// The model of a definition.
pub open spec fn def_of(d: ResolvedTypeDef) -> DefModel {
    match d {
        ResolvedTypeDef::Record(r) => DefModel::Record(r.name@, rfields_of(r.fields@)),
        ResolvedTypeDef::Enum(e) => DefModel::Enum(e.name@, strs_of(e.cases@)),
        ResolvedTypeDef::Variant(v) => DefModel::Variant(
            v.name@,
            v.cases@.map_values(|c: (String, Option<ResolvedType>)| (c.0@, opt_ty_of(c.1))),
        ),
    }
}

/// The models of a sequence of definitions.
pub open spec fn sdefs_of(s: Seq<ResolvedTypeDef>) -> Seq<DefModel> {
    s.map_values(|d: ResolvedTypeDef| def_of(d))
}


// ---------------------------------------------------------------------------
// Resolution
// ---------------------------------------------------------------------------

/// The definitions and resource types that resolution reads.
pub struct KnownTypes<'a> {
    pub structs: &'a Vec<StructDef>,
    pub enums: &'a Vec<EnumDef>,
    pub resources: &'a Vec<String>,
}

/// The resource types, as a set.
pub open spec fn res_set(cx: KnownTypes) -> Set<Seq<char>> {
    strs_of(cx.resources@).to_set()
}

/// How many known definitions are not yet visited.
pub open spec fn unvisited_in(cx: KnownTypes, visited: Seq<String>) -> nat {
    known_names(cx.structs@, cx.enums@).difference(strs_of(visited).to_set()).len()
}

/// The discovery state moved on: more names visited, definitions only appended.
pub open spec fn stepped(v0: Seq<String>, d0: Seq<ResolvedTypeDef>, v1: Seq<String>, d1: Seq<ResolvedTypeDef>) -> bool {
    &&& strs_of(v0).to_set().subset_of(strs_of(v1).to_set())
    &&& sdefs_of(d0).is_prefix_of(sdefs_of(d1))
}

proof fn lemma_stepped_refl(v: Seq<String>, d: Seq<ResolvedTypeDef>)
    ensures
        stepped(v, d, v, d),
{
    assert(sdefs_of(d).is_prefix_of(sdefs_of(d)));
}

proof fn lemma_stepped_trans(
    v0: Seq<String>, d0: Seq<ResolvedTypeDef>,
    v1: Seq<String>, d1: Seq<ResolvedTypeDef>,
    v2: Seq<String>, d2: Seq<ResolvedTypeDef>,
)
    requires
        stepped(v0, d0, v1, d1),
        stepped(v1, d1, v2, d2),
    ensures
        stepped(v0, d0, v2, d2),
{
    let (a, b, c) = (sdefs_of(d0), sdefs_of(d1), sdefs_of(d2));
    assert forall|i: int| 0 <= i < a.len() implies a[i] == c[i] by {
        assert(a[i] == b[i]);
    }
}

proof fn lemma_known_finite(cx: KnownTypes)
    ensures
        known_names(cx.structs@, cx.enums@).finite(),
{
    vstd::seq_lib::seq_to_set_is_finite(struct_names(cx.structs@));
    vstd::seq_lib::seq_to_set_is_finite(enum_names(cx.enums@));
}

proof fn lemma_stepped_unvisited(cx: KnownTypes, v0: Seq<String>, d0: Seq<ResolvedTypeDef>, v1: Seq<String>, d1: Seq<ResolvedTypeDef>)
    requires
        stepped(v0, d0, v1, d1),
    ensures
        unvisited_in(cx, v1) <= unvisited_in(cx, v0),
{
    lemma_known_finite(cx);
    let k = known_names(cx.structs@, cx.enums@);
    vstd::set_lib::lemma_len_subset(k.difference(strs_of(v1).to_set()), k.difference(strs_of(v0).to_set()));
}

proof fn lemma_visit_name(cx: KnownTypes, v: Seq<String>, s: String)
    requires
        known_names(cx.structs@, cx.enums@).contains(s@),
        !strs_of(v).to_set().contains(s@),
    ensures
        unvisited_in(cx, v.push(s)) < unvisited_in(cx, v),
        strs_of(v.push(s)).to_set() == strs_of(v).to_set().insert(s@),
{
    lemma_known_finite(cx);
    let k = known_names(cx.structs@, cx.enums@);
    assert(strs_of(v.push(s)) =~= strs_of(v).push(s@));
    strs_of(v).lemma_push_to_set_commute(s@);
    assert(k.difference(strs_of(v.push(s)).to_set()) =~= k.difference(strs_of(v).to_set()).remove(s@));
}

/// The last struct definition named `name`.
fn find_struct<'a>(structs: &'a Vec<StructDef>, name: &str) -> (r: Option<&'a StructDef>)
    ensures
        match r {
            Some(s) => struct_named(structs@, name@) == Some(*s),
            None => struct_named(structs@, name@) is None,
        },
{
    let mut i: usize = structs.len();
    assert(structs@.take(structs.len() as int) == structs@);
    while i > 0
        invariant
            i <= structs.len(),
            struct_named(structs@, name@) == struct_named(structs@.take(i as int), name@),
        decreases i,
    {
        proof {
            assert(structs@.take(i as int).last() == structs@[i - 1]);
            assert(structs@.take(i as int).drop_last() == structs@.take(i - 1));
        }
        if str_eq(structs[i - 1].name.as_str(), name) {
            return Some(&structs[i - 1]);
        }
        i = i - 1;
    }
    None
}

/// The last enum definition named `name`.
fn find_enum<'a>(enums: &'a Vec<EnumDef>, name: &str) -> (r: Option<&'a EnumDef>)
    ensures
        match r {
            Some(e) => enum_named(enums@, name@) == Some(*e),
            None => enum_named(enums@, name@) is None,
        },
{
    let mut i: usize = enums.len();
    assert(enums@.take(enums.len() as int) == enums@);
    while i > 0
        invariant
            i <= enums.len(),
            enum_named(enums@, name@) == enum_named(enums@.take(i as int), name@),
        decreases i,
    {
        proof {
            assert(enums@.take(i as int).last() == enums@[i - 1]);
            assert(enums@.take(i as int).drop_last() == enums@.take(i - 1));
        }
        if str_eq(enums[i - 1].name.as_str(), name) {
            return Some(&enums[i - 1]);
        }
        i = i - 1;
    }
    None
}

proof fn lemma_struct_named_known(s: Seq<StructDef>, n: Seq<char>)
    requires
        struct_named(s, n) is Some,
    ensures
        struct_names(s).to_set().contains(n),
    decreases s.len(),
{
    if s.last().name@ == n {
        assert(struct_names(s)[s.len() - 1] == n);
    } else {
        lemma_struct_named_known(s.drop_last(), n);
        let j = choose|j: int| 0 <= j < s.drop_last().len() && #[trigger] struct_names(s.drop_last())[j] == n;
        assert(struct_names(s)[j] == n);
    }
}

proof fn lemma_enum_named_known(s: Seq<EnumDef>, n: Seq<char>)
    requires
        enum_named(s, n) is Some,
    ensures
        enum_names(s).to_set().contains(n),
    decreases s.len(),
{
    if s.last().name@ == n {
        assert(enum_names(s)[s.len() - 1] == n);
    } else {
        lemma_enum_named_known(s.drop_last(), n);
        let j = choose|j: int| 0 <= j < s.drop_last().len() && #[trigger] enum_names(s.drop_last())[j] == n;
        assert(enum_names(s)[j] == n);
    }
}

proof fn lemma_struct_named_name(s: Seq<StructDef>, n: Seq<char>)
    ensures
        struct_named(s, n) matches Some(sd) ==> sd.name@ == n,
        struct_named(s, n) is None ==> !struct_names(s).to_set().contains(n),
    decreases s.len(),
{
    if s.len() > 0 {
        lemma_struct_named_name(s.drop_last(), n);
        if struct_named(s, n) is None {
            assert forall|j: int| 0 <= j < s.len() implies #[trigger] struct_names(s)[j] != n by {
                if j < s.len() - 1 {
                    assert(struct_names(s.drop_last())[j] == struct_names(s)[j]);
                }
            }
        }
    }
}

proof fn lemma_enum_named_name(s: Seq<EnumDef>, n: Seq<char>)
    ensures
        enum_named(s, n) matches Some(ed) ==> ed.name@ == n,
        enum_named(s, n) is None ==> !enum_names(s).to_set().contains(n),
    decreases s.len(),
{
    if s.len() > 0 {
        lemma_enum_named_name(s.drop_last(), n);
        if enum_named(s, n) is None {
            assert forall|j: int| 0 <= j < s.len() implies #[trigger] enum_names(s)[j] != n by {
                if j < s.len() - 1 {
                    assert(enum_names(s.drop_last())[j] == enum_names(s)[j]);
                }
            }
        }
    }
}

// ---------------------------------------------------------------------------
// What discovery reaches
// ---------------------------------------------------------------------------

/// The names with a known struct or enum definition.
pub open spec fn known_of(cx: KnownTypes) -> Set<Seq<char>> {
    known_names(cx.structs@, cx.enums@)
}

/// The names looked up so far, with `Self`.
pub open spec fn reach(v: Seq<String>) -> Set<Seq<char>> {
    strs_of(v).to_set().insert("Self"@)
}

/// The name a definition is recorded under.
pub open spec fn model_name(m: DefModel) -> Seq<char> {
    match m {
        DefModel::Record(n, _) => n,
        DefModel::Enum(n, _) => n,
        DefModel::Variant(n, _) => n,
    }
}

/// Whether a definition named `n` is recorded.
pub open spec fn defined_in(ms: Seq<DefModel>, n: Seq<char>) -> bool {
    exists|i: int| 0 <= i < ms.len() && model_name(#[trigger] ms[i]) == n
}

/// The names an optional type refers to.
pub open spec fn opt_ty_names(o: Option<WitTy>) -> Set<Seq<char>> {
    match o {
        Some(t) => names_in(t),
        None => Set::empty(),
    }
}

/// Whether the fields or payloads of a definition refer only to names in `s`.
pub open spec fn model_within(m: DefModel, s: Set<Seq<char>>) -> bool {
    match m {
        DefModel::Record(_, fs) => forall|i: int| 0 <= i < fs.len() ==> names_in((#[trigger] fs[i]).1).subset_of(s),
        DefModel::Variant(_, cs) => forall|i: int| 0 <= i < cs.len() ==> opt_ty_names((#[trigger] cs[i]).1).subset_of(s),
        DefModel::Enum(_, _) => true,
    }
}

/// Whether every recorded definition refers only to names in `s`.
pub open spec fn defs_within(ms: Seq<DefModel>, s: Set<Seq<char>>) -> bool {
    forall|i: int| 0 <= i < ms.len() ==> model_within(#[trigger] ms[i], s)
}

/// The definition a name resolves to: its last struct definition, or else
/// its last enum definition.
pub open spec fn def_model_of(structs: Seq<StructDef>, enums: Seq<EnumDef>, res: Set<Seq<char>>, n: Seq<char>) -> Option<DefModel> {
    match struct_named(structs, n) {
        Some(sd) => Some(struct_model(res, sd)),
        None => match enum_named(enums, n) {
            Some(ed) => Some(enum_model(res, ed)),
            None => None,
        },
    }
}

/// `def_model_of` as a function of the name.
pub open spec fn dmodels(structs: Seq<StructDef>, enums: Seq<EnumDef>, res: Set<Seq<char>>) -> spec_fn(Seq<char>) -> Option<DefModel> {
    |n: Seq<char>| def_model_of(structs, enums, res, n)
}

/// The definitions the names of `cx` resolve to.
pub open spec fn models_of(cx: KnownTypes) -> spec_fn(Seq<char>) -> Option<DefModel> {
    dmodels(cx.structs@, cx.enums@, res_set(cx))
}

/// Whether every name first looked up between `v0` and `v1` that has a
/// definition in `mdl` is recorded in `d1`.
pub open spec fn covers_new(mdl: spec_fn(Seq<char>) -> Option<DefModel>, v0: Seq<String>, v1: Seq<String>, d1: Seq<DefModel>) -> bool {
    forall|n: Seq<char>|
        #[trigger] strs_of(v1).to_set().contains(n) && !strs_of(v0).to_set().contains(n) && mdl(n) is Some
            ==> defined_in(d1, n)
}

/// Whether the definitions recorded after `m0` in `m1` are each the
/// definition of a name first looked up between `v0` and `v1`, once each.
pub open spec fn exact_new(mdl: spec_fn(Seq<char>) -> Option<DefModel>, v0: Seq<String>, m0: Seq<DefModel>, v1: Seq<String>, m1: Seq<DefModel>) -> bool {
    &&& forall|i: int| m0.len() <= i < m1.len() ==> {
        &&& strs_of(v1).to_set().contains(model_name(#[trigger] m1[i]))
        &&& !strs_of(v0).to_set().contains(model_name(m1[i]))
        &&& mdl(model_name(m1[i])) == Some(m1[i])
    }
    &&& forall|i: int, j: int| m0.len() <= i < j < m1.len() ==> model_name(#[trigger] m1[i]) != model_name(#[trigger] m1[j])
}

/// A step of discovery: the state moved on, each newly looked-up name with a
/// definition has exactly that definition recorded, nothing else is
/// recorded, and recorded definitions that referred only to looked-up names
/// still do.
pub open spec fn disc_step(mdl: spec_fn(Seq<char>) -> Option<DefModel>, v0: Seq<String>, d0: Seq<ResolvedTypeDef>, v1: Seq<String>, d1: Seq<ResolvedTypeDef>) -> bool {
    &&& stepped(v0, d0, v1, d1)
    &&& covers_new(mdl, v0, v1, sdefs_of(d1))
    &&& exact_new(mdl, v0, sdefs_of(d0), v1, sdefs_of(d1))
    &&& defs_within(sdefs_of(d0), reach(v0)) ==> defs_within(sdefs_of(d1), reach(v1))
}

proof fn lemma_within_mono(ms: Seq<DefModel>, s: Set<Seq<char>>, t: Set<Seq<char>>)
    requires
        defs_within(ms, s),
        s.subset_of(t),
    ensures
        defs_within(ms, t),
{
    assert forall|i: int| 0 <= i < ms.len() implies model_within(#[trigger] ms[i], t) by {
        match ms[i] {
            DefModel::Record(_, fs) => {
                assert forall|j: int| 0 <= j < fs.len() implies names_in((#[trigger] fs[j]).1).subset_of(t) by {
                    assert(names_in(fs[j].1).subset_of(s));
                }
            },
            DefModel::Variant(_, cs) => {
                assert forall|j: int| 0 <= j < cs.len() implies opt_ty_names((#[trigger] cs[j]).1).subset_of(t) by {
                    assert(opt_ty_names(cs[j].1).subset_of(s));
                }
            },
            DefModel::Enum(_, _) => {},
        }
    }
}

proof fn lemma_reach_mono(v0: Seq<String>, v1: Seq<String>)
    requires
        strs_of(v0).to_set().subset_of(strs_of(v1).to_set()),
    ensures
        reach(v0).subset_of(reach(v1)),
{
}

proof fn lemma_disc_refl(mdl: spec_fn(Seq<char>) -> Option<DefModel>, v: Seq<String>, d: Seq<ResolvedTypeDef>)
    ensures
        disc_step(mdl, v, d, v, d),
{
    lemma_stepped_refl(v, d);
}

proof fn lemma_disc_trans(
    mdl: spec_fn(Seq<char>) -> Option<DefModel>,
    v0: Seq<String>, d0: Seq<ResolvedTypeDef>,
    v1: Seq<String>, d1: Seq<ResolvedTypeDef>,
    v2: Seq<String>, d2: Seq<ResolvedTypeDef>,
)
    requires
        disc_step(mdl, v0, d0, v1, d1),
        disc_step(mdl, v1, d1, v2, d2),
    ensures
        disc_step(mdl, v0, d0, v2, d2),
{
    lemma_stepped_trans(v0, d0, v1, d1, v2, d2);
    let (m0, m1, m2) = (sdefs_of(d0), sdefs_of(d1), sdefs_of(d2));
    assert forall|n: Seq<char>|
        #[trigger] strs_of(v2).to_set().contains(n) && !strs_of(v0).to_set().contains(n) && mdl(n) is Some
        implies defined_in(m2, n) by {
        if strs_of(v1).to_set().contains(n) {
            let i = choose|i: int| 0 <= i < m1.len() && model_name(#[trigger] m1[i]) == n;
            assert(m2[i] == m1[i]);
        }
    }
    assert forall|i: int| m0.len() <= i < m2.len() implies {
        &&& strs_of(v2).to_set().contains(model_name(#[trigger] m2[i]))
        &&& !strs_of(v0).to_set().contains(model_name(m2[i]))
        &&& mdl(model_name(m2[i])) == Some(m2[i])
    } by {
        if i < m1.len() {
            assert(m2[i] == m1[i]);
        }
    }
    assert forall|i: int, j: int| m0.len() <= i < j < m2.len() implies model_name(#[trigger] m2[i]) != model_name(#[trigger] m2[j]) by {
        if j < m1.len() {
            assert(m2[i] == m1[i] && m2[j] == m1[j]);
        } else if i < m1.len() {
            assert(m2[i] == m1[i]);
            assert(strs_of(v1).to_set().contains(model_name(m1[i])));
        }
    }
}

/// Looking up a name that has no definition, then a step, is a step.
proof fn lemma_disc_visit(
    mdl: spec_fn(Seq<char>) -> Option<DefModel>,
    v0: Seq<String>, d0: Seq<ResolvedTypeDef>,
    s: String,
    v2: Seq<String>, d2: Seq<ResolvedTypeDef>,
)
    requires
        disc_step(mdl, v0.push(s), d0, v2, d2),
        mdl(s@) is None,
    ensures
        disc_step(mdl, v0, d0, v2, d2),
{
    assert(strs_of(v0.push(s)) =~= strs_of(v0).push(s@));
    strs_of(v0).lemma_push_to_set_commute(s@);
    let v1 = v0.push(s);
    assert(stepped(v0, d0, v1, d0)) by {
        lemma_stepped_refl(v0, d0);
    }
    lemma_stepped_trans(v0, d0, v1, d0, v2, d2);
    if defs_within(sdefs_of(d0), reach(v0)) {
        lemma_within_mono(sdefs_of(d0), reach(v0), reach(v1));
    }
}

/// Looking up a new name, a step, then recording the name's definition,
/// is a step.
proof fn lemma_disc_define(
    mdl: spec_fn(Seq<char>) -> Option<DefModel>,
    v0: Seq<String>, d0: Seq<ResolvedTypeDef>,
    s: String,
    v2: Seq<String>, d2: Seq<ResolvedTypeDef>,
)
    requires
        !strs_of(v0).to_set().contains(s@),
        d2.len() > 0,
        disc_step(mdl, v0.push(s), d0, v2, d2.drop_last()),
        mdl(s@) == Some(def_of(d2.last())),
        model_name(def_of(d2.last())) == s@,
        model_within(def_of(d2.last()), reach(v2)),
    ensures
        disc_step(mdl, v0, d0, v2, d2),
{
    assert(strs_of(v0.push(s)) =~= strs_of(v0).push(s@));
    strs_of(v0).lemma_push_to_set_commute(s@);
    let v1 = v0.push(s);
    let d1 = d2.drop_last();
    let (m0, m1, m2) = (sdefs_of(d0), sdefs_of(d1), sdefs_of(d2));
    assert(m1 =~= m2.drop_last());
    let m = def_of(d2.last());
    assert(m2[m2.len() - 1] == m);
    assert(stepped(v0, d0, v1, d0)) by {
        lemma_stepped_refl(v0, d0);
    }
    assert(stepped(v2, d1, v2, d2)) by {
        assert(m1.is_prefix_of(m2));
    }
    lemma_stepped_trans(v0, d0, v1, d0, v2, d1);
    lemma_stepped_trans(v0, d0, v2, d1, v2, d2);
    assert forall|n: Seq<char>|
        #[trigger] strs_of(v2).to_set().contains(n) && !strs_of(v0).to_set().contains(n) && mdl(n) is Some
        implies defined_in(m2, n) by {
        if n == s@ {
            assert(model_name(m2[m2.len() - 1]) == n);
        } else {
            assert(!strs_of(v1).to_set().contains(n));
            let i = choose|i: int| 0 <= i < m1.len() && model_name(#[trigger] m1[i]) == n;
            assert(m2[i] == m1[i]);
        }
    }
    assert forall|i: int| m0.len() <= i < m2.len() implies {
        &&& strs_of(v2).to_set().contains(model_name(#[trigger] m2[i]))
        &&& !strs_of(v0).to_set().contains(model_name(m2[i]))
        &&& mdl(model_name(m2[i])) == Some(m2[i])
    } by {
        if i < m1.len() {
            assert(m2[i] == m1[i]);
        }
    }
    assert forall|i: int, j: int| m0.len() <= i < j < m2.len() implies model_name(#[trigger] m2[i]) != model_name(#[trigger] m2[j]) by {
        assert(m2[i] == m1[i]);
        if j < m1.len() {
            assert(m2[j] == m1[j]);
        } else {
            assert(!strs_of(v1).to_set().contains(model_name(m1[i])));
        }
    }
    if defs_within(m0, reach(v0)) {
        lemma_within_mono(m0, reach(v0), reach(v1));
        assert forall|i: int| 0 <= i < m2.len() implies model_within(#[trigger] m2[i], reach(v2)) by {
            if i < m1.len() {
                assert(m2[i] == m1[i]);
            }
        }
    }
}

/// The definition a name resolves to is recorded under that name, and a
/// name has one exactly when it has a struct or enum definition.
proof fn lemma_def_model_of(structs: Seq<StructDef>, enums: Seq<EnumDef>, res: Set<Seq<char>>, n: Seq<char>)
    ensures
        def_model_of(structs, enums, res, n) matches Some(m) ==> model_name(m) == n,
        def_model_of(structs, enums, res, n) is Some <==> known_names(structs, enums).contains(n),
{
    lemma_struct_named_name(structs, n);
    lemma_enum_named_name(enums, n);
    if struct_named(structs, n) is Some {
        lemma_struct_named_known(structs, n);
        let sd = struct_named(structs, n)->0;
        assert(model_name(struct_model(res, sd)) == sd.name@);
    } else if enum_named(enums, n) is Some {
        lemma_enum_named_known(enums, n);
        let ed = enum_named(enums, n)->0;
        assert(model_name(enum_model(res, ed)) == ed.name@);
    }
}

/// The names in a sequence of types, each within `s`, are within `s`.
proof fn lemma_names_all_within(es: Seq<WitTy>, s: Set<Seq<char>>)
    requires
        forall|i: int| 0 <= i < es.len() ==> names_in(#[trigger] es[i]).subset_of(s),
    ensures
        names_all(es).subset_of(s),
    decreases es.len(),
{
    if es.len() > 0 {
        assert forall|i: int| 0 <= i < es.drop_last().len() implies names_in(#[trigger] es.drop_last()[i]).subset_of(s) by {
            assert(es.drop_last()[i] == es[i]);
        }
        lemma_names_all_within(es.drop_last(), s);
        assert(names_in(es[es.len() - 1]).subset_of(s));
    }
}

// ---------------------------------------------------------------------------
// The walk that discovery performs
// ---------------------------------------------------------------------------

/// The definitions discovery reads: struct and enum definitions, and the
/// resource names.
pub type KnownModel = (Seq<StructDef>, Seq<EnumDef>, Set<Seq<char>>);

/// The state of a discovery walk: the names looked up, and the definitions
/// recorded, in order.
pub type WalkState = (Set<Seq<char>>, Seq<DefModel>);

/// The definitions a resolution context reads.
pub open spec fn km(cx: KnownTypes) -> KnownModel {
    (cx.structs@, cx.enums@, res_set(cx))
}

/// The walk state of a resolver's looked-up names and recorded definitions.
pub open spec fn wst(v: Seq<String>, d: Seq<ResolvedTypeDef>) -> WalkState {
    (strs_of(v).to_set(), sdefs_of(d))
}

/// How many names of `k` with a definition are not looked up in `v`.
pub open spec fn unvisited_k(k: KnownModel, v: Seq<String>) -> nat {
    known_names(k.0, k.1).difference(strs_of(v).to_set()).len()
}

/// A size of a written type that counts every argument and element.
pub open spec fn tw(t: RustType) -> nat
    decreases t, 2nat,
{
    match t {
        RustType::Path { ident, args } => pw(args) + 4,
        RustType::Reference(e) => tw(*e) + 1,
        RustType::Slice(e) => tw(*e) + 1,
        RustType::Tuple(es) => tsw(es@) + 2,
        RustType::Other => 1,
    }
}

/// `tw` of path arguments.
pub open spec fn pw(a: PathArgs) -> nat
    decreases a, 1nat,
{
    match a {
        PathArgs::AngleBracketed(v) => gw(v@),
        _ => 0,
    }
}

/// `tw` of generic arguments.
pub open spec fn gw(v: Seq<GenericArg>) -> nat
    decreases v, 0nat,
{
    if v.len() == 0 {
        0
    } else {
        (match v[0] {
            GenericArg::Type(t) => tw(t),
            GenericArg::Other => 0,
        }) + 1 + gw(v.drop_first())
    }
}

/// `tw` of a sequence of types.
pub open spec fn tsw(ts: Seq<RustType>) -> nat
    decreases ts, 0nat,
{
    if ts.len() == 0 {
        0
    } else {
        tw(ts[0]) + 1 + tsw(ts.drop_first())
    }
}

/// A type argument weighs less than all generic arguments together.
pub proof fn lemma_gw_le(v: Seq<GenericArg>, i: int)
    requires
        0 <= i < v.len(),
    ensures
        v[i] matches GenericArg::Type(t) ==> tw(t) < gw(v),
    decreases v.len(),
{
    if i > 0 {
        lemma_gw_le(v.drop_first(), i - 1);
        assert(v.drop_first()[i - 1] == v[i]);
    }
}

/// The walk over a written type, with fuel `f`: the containers' type
/// arguments, and each other named type that is not a primitive or a
/// borrowed resource.
pub open spec fn walk_ty(k: KnownModel, f: nat, st: WalkState, t: RustType) -> WalkState
    decreases f, 1nat, tw(t),
{
    match t {
        RustType::Path { ident, args } => {
            let n = ident@;
            if n == "Vec"@ || n == "HashSet"@ || n == "BTreeSet"@ {
                walk_first(k, f, st, args)
            } else if n == "Option"@ {
                walk_first(k, f, st, args)
            } else if n == "Result"@ {
                walk_arg(k, f, walk_arg(k, f, st, args, 0), args, 1)
            } else if n == "Box"@ || n == "Arc"@ || n == "Rc"@ {
                walk_first(k, f, st, args)
            } else if n == "HashMap"@ || n == "BTreeMap"@ {
                walk_two(k, f, st, args)
            } else if n == "Stream"@ {
                walk_first(k, f, st, args)
            } else if n == "Future"@ {
                walk_first(k, f, st, args)
            } else if is_builtin_ident(n) {
                st
            } else {
                walk_name(k, f, st, n)
            }
        },
        RustType::Reference(e) => match *e {
            RustType::Path { ident, args } => if ident@ == "str"@ || k.2.contains(ident@) {
                st
            } else {
                walk_ty(k, f, st, *e)
            },
            _ => walk_ty(k, f, st, *e),
        },
        RustType::Slice(e) => walk_ty(k, f, st, *e),
        RustType::Tuple(es) => walk_all(k, f, st, es@),
        RustType::Other => st,
    }
}

/// The walk over the first generic argument, when it is a type.
pub open spec fn walk_first(k: KnownModel, f: nat, st: WalkState, args: PathArgs) -> WalkState
    decreases f, 1nat, pw(args) + 1,
{
    match args {
        PathArgs::AngleBracketed(v) => if v@.len() > 0 {
            match v@[0] {
                GenericArg::Type(t) => walk_ty(k, f, st, t),
                GenericArg::Other => st,
            }
        } else {
            st
        },
        _ => st,
    }
}

/// The walk over the generic argument at `i`, when it is a type.
pub open spec fn walk_arg(k: KnownModel, f: nat, st: WalkState, args: PathArgs, i: int) -> WalkState
    decreases f, 1nat, pw(args) + 1,
{
    match args {
        PathArgs::AngleBracketed(v) => if 0 <= i < v@.len() {
            match v@[i] {
                GenericArg::Type(t) => {
                    proof { lemma_gw_le(v@, i); }
                    walk_ty(k, f, st, t)
                },
                GenericArg::Other => st,
            }
        } else {
            st
        },
        _ => st,
    }
}

/// The walk over the first two type arguments.
pub open spec fn walk_two(k: KnownModel, f: nat, st: WalkState, args: PathArgs) -> WalkState
    decreases f, 1nat, pw(args) + 2,
{
    match args {
        PathArgs::AngleBracketed(v) => walk_two_from(k, f, st, v@, 0),
        _ => st,
    }
}

/// The walk over the type arguments of `v` until `2 - taken` more are walked.
pub open spec fn walk_two_from(k: KnownModel, f: nat, st: WalkState, v: Seq<GenericArg>, taken: nat) -> WalkState
    decreases f, 1nat, gw(v) + 1,
{
    if v.len() == 0 || taken >= 2 {
        st
    } else {
        match v[0] {
            GenericArg::Type(t) => walk_two_from(k, f, walk_ty(k, f, st, t), v.drop_first(), taken + 1),
            GenericArg::Other => walk_two_from(k, f, st, v.drop_first(), taken),
        }
    }
}

/// The walk over a sequence of types, in order.
pub open spec fn walk_all(k: KnownModel, f: nat, st: WalkState, es: Seq<RustType>) -> WalkState
    decreases f, 1nat, tsw(es) + 1,
{
    if es.len() == 0 {
        st
    } else {
        walk_all(k, f, walk_ty(k, f, st, es[0]), es.drop_first())
    }
}

/// The walk over the types of named fields, in order.
pub open spec fn walk_named(k: KnownModel, f: nat, st: WalkState, fs: Seq<(String, RustType)>) -> WalkState
    decreases f, 2nat, fs.len(),
{
    if fs.len() == 0 {
        st
    } else {
        walk_named(k, f, walk_ty(k, f, st, fs[0].1), fs.drop_first())
    }
}

/// The walk over the fields of a struct or variant.
pub open spec fn walk_fields(k: KnownModel, f: nat, st: WalkState, fd: FieldsDef) -> WalkState
    decreases f, 3nat, 0nat,
{
    match fd {
        FieldsDef::Named(fs) => walk_named(k, f, st, fs@),
        FieldsDef::Unnamed(ts) => walk_all(k, f, st, ts@),
        FieldsDef::Unit => st,
    }
}

/// The walk over a struct: its fields, then its record.
pub open spec fn walk_struct(k: KnownModel, f: nat, st: WalkState, sd: StructDef) -> WalkState
    decreases f, 4nat, 0nat,
{
    let s1 = walk_fields(k, f, st, sd.fields);
    (s1.0, s1.1.push(struct_model(k.2, sd)))
}

/// The walk over the payloads of variants, in order.
pub open spec fn walk_variants(k: KnownModel, f: nat, st: WalkState, vs: Seq<(String, FieldsDef)>) -> WalkState
    decreases f, 4nat, vs.len(),
{
    if vs.len() == 0 {
        st
    } else {
        walk_variants(k, f, walk_fields(k, f, st, vs[0].1), vs.drop_first())
    }
}

/// The walk over an enum: the payloads of a data-carrying enum, then its
/// definition.
pub open spec fn walk_enum(k: KnownModel, f: nat, st: WalkState, ed: EnumDef) -> WalkState
    decreases f, 5nat, 0nat,
{
    let s1 = if variants_unit(ed.variants@) { st } else { walk_variants(k, f, st, ed.variants@) };
    (s1.0, s1.1.push(enum_model(k.2, ed)))
}

/// The walk at a name: the first time a name that is not a resource is
/// met, it is looked up, and its struct (or else enum) definition is walked
/// and recorded after those it reaches.
pub open spec fn walk_name(k: KnownModel, f: nat, st: WalkState, n: Seq<char>) -> WalkState
    decreases f, 0nat, 0nat,
{
    if st.0.contains(n) || k.2.contains(n) {
        st
    } else {
        let s1 = (st.0.insert(n), st.1);
        if f == 0 {
            s1
        } else {
            match struct_named(k.0, n) {
                Some(sd) => walk_struct(k, (f - 1) as nat, s1, sd),
                None => match enum_named(k.1, n) {
                    Some(ed) => walk_enum(k, (f - 1) as nat, s1, ed),
                    None => s1,
                },
            }
        }
    }
}

/// The definitions a discovery reads.
pub open spec fn dkm(d: TypeDiscovery) -> KnownModel {
    (d.structs@, d.enums@, strs_of(d.resource_types@).to_set())
}

/// The walk state of a discovery.
pub open spec fn dstate(d: TypeDiscovery) -> WalkState {
    wst(d.visited_types@, d.type_defs@)
}

/// Fuel that the walk from `d` never runs out of: one more than the names
/// with a definition that are not looked up yet.
pub open spec fn dfuel(d: TypeDiscovery) -> nat {
    unvisited_k(dkm(d), d.visited_types@) + 1
}

/// The walk over the named parameters of a signature, in order.
pub open spec fn walk_inputs(k: KnownModel, f: nat, st: WalkState, ins: Seq<FnInput>) -> WalkState
    decreases ins.len(),
{
    if ins.len() == 0 {
        st
    } else {
        let s1 = match ins[0] {
            FnInput::Typed { name: Some(_), ty } => walk_ty(k, f, st, ty),
            _ => st,
        };
        walk_inputs(k, f, s1, ins.drop_first())
    }
}

/// The walk over a declared return type.
pub open spec fn walk_output(k: KnownModel, f: nat, st: WalkState, o: Option<RustType>) -> WalkState {
    match o {
        Some(t) => walk_ty(k, f, st, t),
        None => st,
    }
}

/// The walk over a signature: its named parameters, then its return type.
pub open spec fn walk_sig(k: KnownModel, f: nat, st: WalkState, sig: FnSig) -> WalkState {
    walk_output(k, f, walk_inputs(k, f, st, sig.inputs@), sig.output)
}

/// The walk over the functions of an impl block, in order.
pub open spec fn walk_impl_items(k: KnownModel, f: nat, st: WalkState, ds: Seq<ImplItemDef>) -> WalkState
    decreases ds.len(),
{
    if ds.len() == 0 {
        st
    } else {
        let s1 = match ds[0] {
            ImplItemDef::Fn(sig) => walk_sig(k, f, st, sig),
            _ => st,
        };
        walk_impl_items(k, f, s1, ds.drop_first())
    }
}

/// The walk over an item: an exported function's signature, or the
/// functions of an exported impl block.
pub open spec fn walk_item(k: KnownModel, f: nat, st: WalkState, it: RustItem) -> WalkState {
    match it {
        RustItem::Fn(fi) => if has_export(fi.attrs@) { walk_sig(k, f, st, fi.sig) } else { st },
        RustItem::Impl(imp) => if has_export(imp.attrs@) { walk_impl_items(k, f, st, imp.items@) } else { st },
        _ => st,
    }
}

/// The walk over the exported functions and impl blocks among `items`, in order.
pub open spec fn walk_items(k: KnownModel, f: nat, st: WalkState, items: Seq<RustItem>) -> WalkState
    decreases items.len(),
{
    if items.len() == 0 {
        st
    } else {
        walk_items(k, f, walk_item(k, f, st, items[0]), items.drop_first())
    }
}

proof fn lemma_walk_without_defs(k: KnownModel, f: nat, st: WalkState, a: Seq<RustItem>, b: Seq<RustItem>)
    requires
        a.len() == b.len(),
        forall|j: int| 0 <= j < a.len() ==> b[j] == without_defs(#[trigger] a[j]),
    ensures
        walk_items(k, f, st, a) == walk_items(k, f, st, b),
    decreases a.len(),
{
    if a.len() > 0 {
        assert forall|j: int| 0 <= j < a.drop_first().len() implies b.drop_first()[j] == without_defs(#[trigger] a.drop_first()[j]) by {
            assert(a.drop_first()[j] == a[j + 1]);
        }
        assert(b[0] == without_defs(a[0]));
        assert(walk_item(k, f, st, a[0]) == walk_item(k, f, st, b[0]));
        lemma_walk_without_defs(k, f, walk_item(k, f, st, a[0]), a.drop_first(), b.drop_first());
    }
}

proof fn lemma_unvisited_k_mono(k: KnownModel, v0: Seq<String>, d0: Seq<ResolvedTypeDef>, v1: Seq<String>, d1: Seq<ResolvedTypeDef>)
    requires
        stepped(v0, d0, v1, d1),
    ensures
        unvisited_k(k, v1) <= unvisited_k(k, v0),
{
    vstd::seq_lib::seq_to_set_is_finite(struct_names(k.0));
    vstd::seq_lib::seq_to_set_is_finite(enum_names(k.1));
    let kn = known_names(k.0, k.1);
    vstd::set_lib::lemma_len_subset(kn.difference(strs_of(v1).to_set()), kn.difference(strs_of(v0).to_set()));
}

/// Whether `r` is the empty tuple.
fn is_unit_tuple(r: &ResolvedType) -> (b: bool)
    ensures
        b == (r@ == WitTy::Tuple(Seq::empty())),
{
    match r {
        ResolvedType::Tuple(es) => {
            proof {
                lemma_rtys_of(es@);
                reveal_with_fuel(rty_of, 2);
            }
            es.len() == 0
        },
        _ => {
            proof { reveal_with_fuel(rty_of, 2); }
            false
        },
    }
}

/// Resolve a written type, discovering the definitions it names.
pub fn resolve_in(cx: &KnownTypes, visited: &mut Vec<String>, defs: &mut Vec<ResolvedTypeDef>, ty: &RustType) -> (r: ResolvedType)
    ensures
        r@ == sty(res_set(*cx), *ty),
        disc_step(models_of(*cx), old(visited)@, old(defs)@, final(visited)@, final(defs)@),
        names_in(r@).subset_of(reach(final(visited)@)),
        forall|f: nat| f > unvisited_in(*cx, old(visited)@) ==> #[trigger] walk_ty(km(*cx), f, wst(old(visited)@, old(defs)@), *ty) == wst(final(visited)@, final(defs)@),
    decreases unvisited_in(*cx, old(visited)@), 1nat, rt_size(*ty),
{
    proof { reveal_with_fuel(rty_of, 2); }
    let ghost res = res_set(*cx);
    let ghost k = km(*cx);
    let ghost st0 = wst(visited@, defs@);
    let ghost u0 = unvisited_in(*cx, visited@);
    match ty {
        RustType::Path { ident, args } => {
            let n = ident.as_str();
            if str_eq(n, "Vec") || str_eq(n, "HashSet") || str_eq(n, "BTreeSet") {
                let inner = first_generic_in(cx, visited, defs, args);
                proof {
                    assert forall|f: nat| f > u0 implies #[trigger] walk_ty(k, f, st0, *ty) == wst(visited@, defs@) by {
                        assert(walk_ty(k, f, st0, *ty) == walk_first(k, f, st0, *args));
                    }
                }
                let r = ResolvedType::List(Box::new(or_string_ty(inner)));
                proof { assert(names_in(r@) == names_in(or_string(opt_ty_of(inner)))); }
                r
            } else if str_eq(n, "Option") {
                let inner = first_generic_in(cx, visited, defs, args);
                proof {
                    assert forall|f: nat| f > u0 implies #[trigger] walk_ty(k, f, st0, *ty) == wst(visited@, defs@) by {
                        assert(walk_ty(k, f, st0, *ty) == walk_first(k, f, st0, *args));
                    }
                }
                let r = ResolvedType::Option(Box::new(or_string_ty(inner)));
                proof { assert(names_in(r@) == names_in(or_string(opt_ty_of(inner)))); }
                r
            } else if str_eq(n, "Result") {
                let (ok, err) = result_generics_in(cx, visited, defs, args);
                proof {
                    assert forall|f: nat| f > u0 implies #[trigger] walk_ty(k, f, st0, *ty) == wst(visited@, defs@) by {
                        assert(walk_ty(k, f, st0, *ty) == walk_arg(k, f, walk_arg(k, f, st0, *args, 0), *args, 1));
                    }
                }
                let r = ResolvedType::Result { ok, err };
                proof { assert(names_in(r@) == opt_names(opt_rty(ok)) + opt_names(opt_rty(err))); }
                r
            } else if str_eq(n, "Box") || str_eq(n, "Arc") || str_eq(n, "Rc") {
                let inner = first_generic_in(cx, visited, defs, args);
                proof {
                    assert forall|f: nat| f > u0 implies #[trigger] walk_ty(k, f, st0, *ty) == wst(visited@, defs@) by {
                        assert(walk_ty(k, f, st0, *ty) == walk_first(k, f, st0, *args));
                    }
                }
                or_string_ty(inner)
            } else if str_eq(n, "HashMap") || str_eq(n, "BTreeMap") {
                let elems = two_generics_in(cx, visited, defs, args);
                proof {
                    assert forall|f: nat| f > u0 implies #[trigger] walk_ty(k, f, st0, *ty) == wst(visited@, defs@) by {
                        assert(walk_ty(k, f, st0, *ty) == walk_two(k, f, st0, *args));
                    }
                }
                let r = ResolvedType::List(Box::new(ResolvedType::Tuple(elems)));
                proof {
                    reveal_with_fuel(names_in, 2);
                    assert(names_in(r@) == names_all(rtys_of(elems@)));
                }
                r
            } else if str_eq(n, "Stream") {
                let inner = first_generic_in(cx, visited, defs, args);
                proof {
                    assert forall|f: nat| f > u0 implies #[trigger] walk_ty(k, f, st0, *ty) == wst(visited@, defs@) by {
                        assert(walk_ty(k, f, st0, *ty) == walk_first(k, f, st0, *args));
                    }
                }
                proof { reveal_with_fuel(opt_rty, 2); }
                let ghost gi = opt_ty_of(inner);
                let r = ResolvedType::Stream(match inner {
                    Some(t) => Some(Box::new(t)),
                    None => None,
                });
                proof {
                    reveal_with_fuel(opt_names, 2);
                    assert(r@ == WitTy::Stream(boxed(gi)));
                    assert(names_in(r@) == opt_names(boxed(gi)));
                    match gi {
                        Some(t) => assert(opt_names(Some(Box::new(t))) == names_in(t)),
                        None => {},
                    }
                    assert(names_in(r@) == opt_ty_names(opt_ty_of(inner)));
                }
                r
            } else if str_eq(n, "Future") {
                let inner = first_generic_in(cx, visited, defs, args);
                proof {
                    assert forall|f: nat| f > u0 implies #[trigger] walk_ty(k, f, st0, *ty) == wst(visited@, defs@) by {
                        assert(walk_ty(k, f, st0, *ty) == walk_first(k, f, st0, *args));
                    }
                }
                proof { reveal_with_fuel(opt_rty, 2); }
                let ghost gi = opt_ty_of(inner);
                let r = ResolvedType::Future(match inner {
                    Some(t) => Some(Box::new(t)),
                    None => None,
                });
                proof {
                    reveal_with_fuel(opt_names, 2);
                    assert(r@ == WitTy::Future(boxed(gi)));
                    assert(names_in(r@) == opt_names(boxed(gi)));
                    match gi {
                        Some(t) => assert(opt_names(Some(Box::new(t))) == names_in(t)),
                        None => {},
                    }
                    assert(names_in(r@) == opt_ty_names(opt_ty_of(inner)));
                }
                r
            } else {
                proof {
                    lemma_disc_refl(models_of(*cx), visited@, defs@);
                    if is_builtin_ident(n@) {
                        assert forall|f: nat| f > u0 implies #[trigger] walk_ty(k, f, st0, *ty) == st0 by {}
                    }
                }
                if str_eq(n, "bool") { ResolvedType::Bool }
                else if str_eq(n, "u8") { ResolvedType::U8 }
                else if str_eq(n, "u16") { ResolvedType::U16 }
                else if str_eq(n, "u32") { ResolvedType::U32 }
                else if str_eq(n, "u64") { ResolvedType::U64 }
                else if str_eq(n, "i8") { ResolvedType::S8 }
                else if str_eq(n, "i16") { ResolvedType::S16 }
                else if str_eq(n, "i32") { ResolvedType::S32 }
                else if str_eq(n, "i64") { ResolvedType::S64 }
                else if str_eq(n, "f32") { ResolvedType::F32 }
                else if str_eq(n, "f64") { ResolvedType::F64 }
                else if str_eq(n, "char") { ResolvedType::Char }
                else if str_eq(n, "String") || str_eq(n, "str") { ResolvedType::WitString }
                else if str_eq(n, "Self") {
                    let r = ResolvedType::Named("Self".to_string());
                    proof { assert(names_in(r@) == set!["Self"@]); }
                    r
                } else {
                    discover_in(cx, visited, defs, n);
                    proof {
                        assert(!is_builtin_ident(n@));
                        assert forall|f: nat| f > u0 implies #[trigger] walk_ty(k, f, st0, *ty) == wst(visited@, defs@) by {
                            assert(walk_ty(k, f, st0, *ty) == walk_name(k, f, st0, n@));
                        }
                    }
                    if crate::ts_project::contains_str(cx.resources.as_slice(), n) {
                        ResolvedType::Own(ident.clone())
                    } else {
                        let r = ResolvedType::Named(ident.clone());
                        proof { assert(names_in(r@) == set![n@]); }
                        r
                    }
                }
            }
        },
        RustType::Reference(e) => {
            match &**e {
                RustType::Path { ident, args: _ } => {
                    if str_eq(ident.as_str(), "str") {
                        proof {
                            lemma_disc_refl(models_of(*cx), visited@, defs@);
                            assert forall|f: nat| f > u0 implies #[trigger] walk_ty(k, f, st0, *ty) == st0 by {}
                        }
                        return ResolvedType::WitString;
                    }
                    if crate::ts_project::contains_str(cx.resources.as_slice(), ident.as_str()) {
                        proof {
                            lemma_disc_refl(models_of(*cx), visited@, defs@);
                            assert(k.2.contains(ident@));
                            assert forall|f: nat| f > u0 implies #[trigger] walk_ty(k, f, st0, *ty) == st0 by {}
                        }
                        return ResolvedType::Borrow(ident.clone());
                    }
                },
                _ => {},
            }
            let r = resolve_in(cx, visited, defs, &**e);
            proof {
                assert forall|f: nat| f > u0 implies #[trigger] walk_ty(k, f, st0, *ty) == wst(visited@, defs@) by {
                    assert(walk_ty(k, f, st0, *ty) == walk_ty(k, f, st0, **e));
                }
            }
            r
        },
        RustType::Slice(e) => {
            let inner = resolve_in(cx, visited, defs, &**e);
            proof {
                assert forall|f: nat| f > u0 implies #[trigger] walk_ty(k, f, st0, *ty) == wst(visited@, defs@) by {
                    assert(walk_ty(k, f, st0, *ty) == walk_ty(k, f, st0, **e));
                }
            }
            ResolvedType::List(Box::new(inner))
        },
        RustType::Tuple(es) => {
            let elems = resolve_all_in(cx, visited, defs, es);
            proof {
                assert forall|f: nat| f > u0 implies #[trigger] walk_ty(k, f, st0, *ty) == wst(visited@, defs@) by {
                    assert(walk_ty(k, f, st0, *ty) == walk_all(k, f, st0, es@));
                }
            }
            ResolvedType::Tuple(elems)
        },
        RustType::Other => {
            proof {
                lemma_disc_refl(models_of(*cx), visited@, defs@);
                assert forall|f: nat| f > u0 implies #[trigger] walk_ty(k, f, st0, *ty) == st0 by {}
            }
            ResolvedType::WitString
        },
    }
}

/// `string` when there is no type.
fn or_string_ty(o: Option<ResolvedType>) -> (r: ResolvedType)
    ensures
        r@ == or_string(opt_ty_of(o)),
{
    match o {
        Some(t) => t,
        None => ResolvedType::WitString,
    }
}

/// Resolve each of a sequence of written types.
fn resolve_all_in(cx: &KnownTypes, visited: &mut Vec<String>, defs: &mut Vec<ResolvedTypeDef>, es: &Vec<RustType>) -> (r: Vec<ResolvedType>)
    ensures
        rtys_of(r@) == stys(res_set(*cx), es@),
        disc_step(models_of(*cx), old(visited)@, old(defs)@, final(visited)@, final(defs)@),
        names_all(rtys_of(r@)).subset_of(reach(final(visited)@)),
        forall|f: nat| f > unvisited_in(*cx, old(visited)@) ==> #[trigger] walk_all(km(*cx), f, wst(old(visited)@, old(defs)@), es@) == wst(final(visited)@, final(defs)@),
    decreases unvisited_in(*cx, old(visited)@), 1nat, rts_size(es@) + 1,
{
    let ghost res = res_set(*cx);
    let ghost (v0, d0) = (visited@, defs@);
    proof { lemma_disc_refl(models_of(*cx), visited@, defs@); }
    let mut out: Vec<ResolvedType> = Vec::new();
    let mut i: usize = 0;
    assert(es@.skip(0) == es@);
    while i < es.len()
        invariant
            i <= es.len(),
            v0 == old(visited)@,
            res == res_set(*cx),
            d0 == old(defs)@,
            disc_step(models_of(*cx), v0, d0, visited@, defs@),
            rts_size(es@.skip(i as int)) <= rts_size(es@),
            rtys_of(out@) + stys(res, es@.skip(i as int)) == stys(res, es@),
            names_all(rtys_of(out@)).subset_of(reach(visited@)),
            forall|f: nat| f > unvisited_in(*cx, v0) ==> #[trigger] walk_all(km(*cx), f, wst(v0, d0), es@)
                == walk_all(km(*cx), f, wst(visited@, defs@), es@.skip(i as int)),
        decreases es.len() - i,
    {
        let ghost (v1, d1) = (visited@, defs@);
        proof {
            assert(es@.skip(i as int)[0] == es@[i as int]);
            assert(es@.skip(i as int).drop_first() == es@.skip(i + 1));
            lemma_stepped_unvisited(*cx, v0, d0, v1, d1);
        }
        let r = resolve_in(cx, visited, defs, &es[i]);
        proof {
            assert forall|f: nat| f > unvisited_in(*cx, v0) implies #[trigger] walk_all(km(*cx), f, wst(v0, d0), es@)
                == walk_all(km(*cx), f, wst(visited@, defs@), es@.skip(i + 1)) by {
                assert(walk_all(km(*cx), f, wst(v1, d1), es@.skip(i as int))
                    == walk_all(km(*cx), f, walk_ty(km(*cx), f, wst(v1, d1), es@[i as int]), es@.skip(i + 1)));
            }
            lemma_disc_trans(models_of(*cx), v0, d0, v1, d1, visited@, defs@);
            lemma_rtys_of_push(out@, r);
            lemma_reach_mono(v1, visited@);
            assert(rtys_of(out@).push(r@).drop_last() =~= rtys_of(out@));
            assert(rtys_of(out@.push(r)) + stys(res, es@.skip(i + 1)) == rtys_of(out@) + stys(res, es@.skip(i as int)));
        }
        out.push(r);
        i = i + 1;
    }
    assert(es@.skip(es.len() as int) =~= Seq::<RustType>::empty());
    out
}

/// Resolve the first generic argument when it is a type.
fn first_generic_in(cx: &KnownTypes, visited: &mut Vec<String>, defs: &mut Vec<ResolvedTypeDef>, args: &PathArgs) -> (r: Option<ResolvedType>)
    ensures
        opt_ty_of(r) == first_arg_ty(res_set(*cx), *args),
        disc_step(models_of(*cx), old(visited)@, old(defs)@, final(visited)@, final(defs)@),
        opt_ty_names(opt_ty_of(r)).subset_of(reach(final(visited)@)),
        forall|f: nat| f > unvisited_in(*cx, old(visited)@) ==> #[trigger] walk_first(km(*cx), f, wst(old(visited)@, old(defs)@), *args) == wst(final(visited)@, final(defs)@),
    decreases unvisited_in(*cx, old(visited)@), 1nat, pa_size(*args) + 1,
{
    proof { lemma_disc_refl(models_of(*cx), visited@, defs@); }
    let ghost st0 = wst(visited@, defs@);
    let ghost u0 = unvisited_in(*cx, visited@);
    match args {
        PathArgs::AngleBracketed(v) => {
            if v.len() > 0 {
                match &v[0] {
                    GenericArg::Type(t) => {
                        let r = resolve_in(cx, visited, defs, t);
                        proof {
                            assert forall|f: nat| f > u0 implies #[trigger] walk_first(km(*cx), f, st0, *args) == wst(visited@, defs@) by {
                                assert(v@[0] == GenericArg::Type(*t));
                                assert(walk_first(km(*cx), f, st0, *args) == walk_ty(km(*cx), f, st0, *t));
                            }
                        }
                        Some(r)
                    },
                    GenericArg::Other => None,
                }
            } else {
                None
            }
        },
        _ => None,
    }
}

/// Resolve one `Result` argument.
fn result_arg_in(cx: &KnownTypes, visited: &mut Vec<String>, defs: &mut Vec<ResolvedTypeDef>, args: &PathArgs, i: usize) -> (r: Option<Box<ResolvedType>>)
    ensures
        opt_rty(r) == result_arg(res_set(*cx), *args, i as int),
        disc_step(models_of(*cx), old(visited)@, old(defs)@, final(visited)@, final(defs)@),
        opt_names(opt_rty(r)).subset_of(reach(final(visited)@)),
        forall|f: nat| f > unvisited_in(*cx, old(visited)@) ==> #[trigger] walk_arg(km(*cx), f, wst(old(visited)@, old(defs)@), *args, i as int) == wst(final(visited)@, final(defs)@),
    decreases unvisited_in(*cx, old(visited)@), 1nat, pa_size(*args) + 1,
{
    proof {
        lemma_disc_refl(models_of(*cx), visited@, defs@);
        reveal_with_fuel(opt_rty, 2);
    }
    match args {
        PathArgs::AngleBracketed(v) => {
            if i < v.len() {
                match &v[i] {
                    GenericArg::Type(t) => {
                        proof { lemma_gas_le(v@, i as int); }
                        let ghost st0 = wst(visited@, defs@);
                        let ghost u0 = unvisited_in(*cx, visited@);
                        let r = resolve_in(cx, visited, defs, t);
                        proof {
                            assert forall|f: nat| f > u0 implies #[trigger] walk_arg(km(*cx), f, st0, *args, i as int) == wst(visited@, defs@) by {
                                assert(v@[i as int] == GenericArg::Type(*t));
                                assert(walk_arg(km(*cx), f, st0, *args, i as int) == walk_ty(km(*cx), f, st0, *t));
                            }
                        }
                        if is_unit_tuple(&r) {
                            None
                        } else {
                            Some(Box::new(r))
                        }
                    },
                    GenericArg::Other => None,
                }
            } else {
                None
            }
        },
        _ => None,
    }
}

/// A type argument is no larger than all generic arguments together.
proof fn lemma_gas_le(v: Seq<GenericArg>, i: int)
    requires
        0 <= i < v.len(),
    ensures
        v[i] matches GenericArg::Type(t) ==> rt_size(t) <= gas_size(v),
    decreases v.len(),
{
    if i > 0 {
        lemma_gas_le(v.drop_first(), i - 1);
        assert(v.drop_first()[i - 1] == v[i]);
    }
}

/// The `Ok` and `Err` types of a `Result`'s arguments, `()` giving none.
fn result_generics_in(cx: &KnownTypes, visited: &mut Vec<String>, defs: &mut Vec<ResolvedTypeDef>, args: &PathArgs) -> (r: (Option<Box<ResolvedType>>, Option<Box<ResolvedType>>))
    ensures
        opt_rty(r.0) == result_arg(res_set(*cx), *args, 0),
        opt_rty(r.1) == result_arg(res_set(*cx), *args, 1),
        disc_step(models_of(*cx), old(visited)@, old(defs)@, final(visited)@, final(defs)@),
        opt_names(opt_rty(r.0)).subset_of(reach(final(visited)@)),
        opt_names(opt_rty(r.1)).subset_of(reach(final(visited)@)),
        forall|f: nat| f > unvisited_in(*cx, old(visited)@) ==> #[trigger] walk_arg(km(*cx), f, walk_arg(km(*cx), f, wst(old(visited)@, old(defs)@), *args, 0), *args, 1) == wst(final(visited)@, final(defs)@),
    decreases unvisited_in(*cx, old(visited)@), 1nat, pa_size(*args) + 2,
{
    let ghost (v0, d0) = (visited@, defs@);
    let ok = result_arg_in(cx, visited, defs, args, 0);
    let ghost (v1, d1) = (visited@, defs@);
    proof { lemma_stepped_unvisited(*cx, v0, d0, v1, d1); }
    let err = result_arg_in(cx, visited, defs, args, 1);
    proof {
        assert forall|f: nat| f > unvisited_in(*cx, v0) implies #[trigger] walk_arg(km(*cx), f, walk_arg(km(*cx), f, wst(v0, d0), *args, 0), *args, 1)
            == wst(visited@, defs@) by {
            assert(walk_arg(km(*cx), f, wst(v0, d0), *args, 0) == wst(v1, d1));
        }
        lemma_disc_trans(models_of(*cx), v0, d0, v1, d1, visited@, defs@);
        lemma_reach_mono(v1, visited@);
    }
    (ok, err)
}

/// Resolve the first two type arguments.
fn two_generics_in(cx: &KnownTypes, visited: &mut Vec<String>, defs: &mut Vec<ResolvedTypeDef>, args: &PathArgs) -> (r: Vec<ResolvedType>)
    ensures
        rtys_of(r@) == at_most_two(all_arg_tys(res_set(*cx), *args)),
        disc_step(models_of(*cx), old(visited)@, old(defs)@, final(visited)@, final(defs)@),
        names_all(rtys_of(r@)).subset_of(reach(final(visited)@)),
        forall|f: nat| f > unvisited_in(*cx, old(visited)@) ==> #[trigger] walk_two(km(*cx), f, wst(old(visited)@, old(defs)@), *args) == wst(final(visited)@, final(defs)@),
    decreases unvisited_in(*cx, old(visited)@), 1nat, pa_size(*args) + 1,
{
    let ghost res = res_set(*cx);
    let ghost (v0, d0) = (visited@, defs@);
    proof { lemma_disc_refl(models_of(*cx), visited@, defs@); }
    let mut out: Vec<ResolvedType> = Vec::new();
    match args {
        PathArgs::AngleBracketed(v) => {
            let mut i: usize = 0;
            assert(v@.skip(0) == v@);
            while i < v.len() && out.len() < 2
                invariant
                    i <= v.len(),
                    out@.len() <= 2,
                    v0 == old(visited)@,
                    res == res_set(*cx),
                    d0 == old(defs)@,
                    *args == PathArgs::AngleBracketed(*v),
                    disc_step(models_of(*cx), v0, d0, visited@, defs@),
                    gas_size(v@.skip(i as int)) <= gas_size(v@),
                    rtys_of(out@) + gtys(res, v@.skip(i as int)) == gtys(res, v@),
                    names_all(rtys_of(out@)).subset_of(reach(visited@)),
                    forall|f: nat| f > unvisited_in(*cx, v0) ==> #[trigger] walk_two_from(km(*cx), f, wst(v0, d0), v@, 0)
                        == walk_two_from(km(*cx), f, wst(visited@, defs@), v@.skip(i as int), out@.len() as nat),
                decreases v.len() - i,
            {
                let ghost (v1, d1) = (visited@, defs@);
                proof {
                    assert(v@.skip(i as int)[0] == v@[i as int]);
                    assert(v@.skip(i as int).drop_first() == v@.skip(i + 1));
                    lemma_stepped_unvisited(*cx, v0, d0, v1, d1);
                }
                match &v[i] {
                    GenericArg::Type(t) => {
                        let r = resolve_in(cx, visited, defs, t);
                        proof {
                            assert forall|f: nat| f > unvisited_in(*cx, v0) implies #[trigger] walk_two_from(km(*cx), f, wst(v0, d0), v@, 0)
                                == walk_two_from(km(*cx), f, wst(visited@, defs@), v@.skip(i + 1), (out@.len() + 1) as nat) by {
                                assert(walk_two_from(km(*cx), f, wst(v1, d1), v@.skip(i as int), out@.len() as nat)
                                    == walk_two_from(km(*cx), f, walk_ty(km(*cx), f, wst(v1, d1), *t), v@.skip(i + 1), (out@.len() + 1) as nat));
                            }
                            lemma_disc_trans(models_of(*cx), v0, d0, v1, d1, visited@, defs@);
                            lemma_rtys_of_push(out@, r);
                            lemma_reach_mono(v1, visited@);
                            assert(rtys_of(out@).push(r@).drop_last() =~= rtys_of(out@));
                            assert(rtys_of(out@.push(r)) + gtys(res, v@.skip(i + 1)) == rtys_of(out@) + gtys(res, v@.skip(i as int)));
                        }
                        out.push(r);
                    },
                    GenericArg::Other => {
                        proof {
                            assert forall|f: nat| f > unvisited_in(*cx, v0) implies #[trigger] walk_two_from(km(*cx), f, wst(v0, d0), v@, 0)
                                == walk_two_from(km(*cx), f, wst(visited@, defs@), v@.skip(i + 1), out@.len() as nat) by {
                                assert(walk_two_from(km(*cx), f, wst(v1, d1), v@.skip(i as int), out@.len() as nat)
                                    == walk_two_from(km(*cx), f, wst(v1, d1), v@.skip(i + 1), out@.len() as nat));
                            }
                        }
                    },
                }
                i = i + 1;
            }
            proof {
                if i == v.len() {
                    assert(v@.skip(i as int) =~= Seq::<GenericArg>::empty());
                }
                assert forall|f: nat| f > unvisited_in(*cx, v0) implies #[trigger] walk_two(km(*cx), f, wst(v0, d0), *args)
                    == wst(visited@, defs@) by {
                    assert(walk_two(km(*cx), f, wst(v0, d0), *args) == walk_two_from(km(*cx), f, wst(v0, d0), v@, 0));
                    assert(walk_two_from(km(*cx), f, wst(visited@, defs@), v@.skip(i as int), out@.len() as nat) == wst(visited@, defs@));
                }
                lemma_rtys_of(out@);
                if i == v.len() {
                    assert(v@.skip(i as int) =~= Seq::<GenericArg>::empty());
                    assert(gtys(res, v@) == rtys_of(out@));
                } else {
                    assert(gtys(res, v@).take(2) =~= rtys_of(out@));
                }
            }
        },
        _ => {
            assert(rtys_of(out@) =~= Seq::<WitTy>::empty());
        },
    }
    out
}


/// Append a definition.
fn push_def(visited: &Vec<String>, defs: &mut Vec<ResolvedTypeDef>, d: ResolvedTypeDef)
    ensures
        stepped(visited@, old(defs)@, visited@, final(defs)@),
        sdefs_of(final(defs)@) == sdefs_of(old(defs)@).push(def_of(d)),
        final(defs)@ == old(defs)@.push(d),
{
    let ghost before = sdefs_of(defs@);
    defs.push(d);
    assert(sdefs_of(defs@) =~= before.push(def_of(d)));
}

/// Discover the definition named `name`: the first time it is met, unless
/// it is a resource, its struct (or else enum) definition is resolved and
/// recorded after those it needs.
pub fn discover_in(cx: &KnownTypes, visited: &mut Vec<String>, defs: &mut Vec<ResolvedTypeDef>, name: &str)
    ensures
        disc_step(models_of(*cx), old(visited)@, old(defs)@, final(visited)@, final(defs)@),
        !res_set(*cx).contains(name@) ==> strs_of(final(visited)@).to_set().contains(name@),
        strs_of(old(visited)@).contains(name@) || res_set(*cx).contains(name@)
            ==> final(visited)@ == old(visited)@ && final(defs)@ == old(defs)@,
        !(strs_of(old(visited)@).contains(name@) || res_set(*cx).contains(name@)) ==> {
            &&& strs_of(final(visited)@).to_set().contains(name@)
            &&& match struct_named(cx.structs@, name@) {
                Some(sd) => sdefs_of(final(defs)@).len() > sdefs_of(old(defs)@).len()
                    && sdefs_of(final(defs)@).last() == struct_model(res_set(*cx), sd),
                None => match enum_named(cx.enums@, name@) {
                    Some(ed) => sdefs_of(final(defs)@).len() > sdefs_of(old(defs)@).len()
                        && sdefs_of(final(defs)@).last() == enum_model(res_set(*cx), ed),
                    None => true,
                },
            }
        },
        forall|f: nat| f > unvisited_in(*cx, old(visited)@) ==> #[trigger] walk_name(km(*cx), f, wst(old(visited)@, old(defs)@), name@) == wst(final(visited)@, final(defs)@),
    decreases unvisited_in(*cx, old(visited)@), 0nat, 0nat,
{
    let ghost known = models_of(*cx);
    proof { lemma_disc_refl(known, visited@, defs@); }
    if crate::ts_project::contains_str(visited.as_slice(), name) || crate::ts_project::contains_str(cx.resources.as_slice(), name) {
        proof {
            assert forall|f: nat| f > unvisited_in(*cx, visited@) implies #[trigger] walk_name(km(*cx), f, wst(visited@, defs@), name@)
                == wst(visited@, defs@) by {
                if strs_of(visited@).contains(name@) {
                    assert(strs_of(visited@).to_set().contains(name@));
                }
            }
        }
        return;
    }
    let ghost (v0, d0) = (visited@, defs@);
    let entry = name.to_string();
    let ghost e = entry;
    proof {
        assert(strs_of(v0.push(entry)) =~= strs_of(v0).push(name@));
        strs_of(v0).lemma_push_to_set_commute(name@);
        lemma_struct_named_name(cx.structs@, name@);
        lemma_enum_named_name(cx.enums@, name@);
    }
    visited.push(entry);
    let ghost (v1, d1) = (visited@, defs@);
    proof {
        assert(v1 == v0.push(e));
        assert(strs_of(v1).to_set().contains(name@));
    }
    match find_struct(cx.structs, name) {
        Some(sd) => {
            proof {
                lemma_struct_named_known(cx.structs@, name@);
                lemma_visit_name(*cx, v0, entry);
            }
            resolve_struct_in(cx, visited, defs, sd);
            proof {
                assert(wst(v1, d1) == (wst(v0, d0).0.insert(name@), wst(v0, d0).1));
                assert forall|f: nat| f > unvisited_in(*cx, v0) implies #[trigger] walk_name(km(*cx), f, wst(v0, d0), name@)
                    == wst(visited@, defs@) by {
                    assert(!strs_of(v0).to_set().contains(name@));
                    assert((f - 1) as nat > unvisited_in(*cx, v1));
                    assert(walk_name(km(*cx), f, wst(v0, d0), name@) == walk_struct(km(*cx), (f - 1) as nat, wst(v1, d1), *sd));
                }
                lemma_def_model_of(cx.structs@, cx.enums@, res_set(*cx), name@);
                let m = sdefs_of(defs@);
                assert(m[m.len() - 1] == def_of(defs@.last()));
                lemma_disc_define(known, v0, d0, e, visited@, defs@);
            }
        },
        None => match find_enum(cx.enums, name) {
            Some(ed) => {
                proof {
                    lemma_enum_named_known(cx.enums@, name@);
                    lemma_visit_name(*cx, v0, entry);
                }
                resolve_enum_in(cx, visited, defs, ed);
                proof {
                    assert(wst(v1, d1) == (wst(v0, d0).0.insert(name@), wst(v0, d0).1));
                    assert forall|f: nat| f > unvisited_in(*cx, v0) implies #[trigger] walk_name(km(*cx), f, wst(v0, d0), name@)
                        == wst(visited@, defs@) by {
                        assert(!strs_of(v0).to_set().contains(name@));
                        assert((f - 1) as nat > unvisited_in(*cx, v1));
                        assert(walk_name(km(*cx), f, wst(v0, d0), name@) == walk_enum(km(*cx), (f - 1) as nat, wst(v1, d1), *ed));
                    }
                    lemma_def_model_of(cx.structs@, cx.enums@, res_set(*cx), name@);
                    let m = sdefs_of(defs@);
                    assert(m[m.len() - 1] == def_of(defs@.last()));
                    lemma_disc_define(known, v0, d0, e, visited@, defs@);
                }
            },
            None => {
                proof {
                    lemma_disc_refl(known, v1, d1);
                    assert(known(name@) is None);
                    assert(wst(v1, d1) == (wst(v0, d0).0.insert(name@), wst(v0, d0).1));
                    assert forall|f: nat| f > unvisited_in(*cx, v0) implies #[trigger] walk_name(km(*cx), f, wst(v0, d0), name@)
                        == wst(visited@, defs@) by {
                        assert(!strs_of(v0).to_set().contains(name@));
                    }
                    lemma_disc_visit(known, v0, d0, e, visited@, defs@);
                }
            },
        },
    }
}

/// Resolve a struct into a record and record it.
fn resolve_struct_in(cx: &KnownTypes, visited: &mut Vec<String>, defs: &mut Vec<ResolvedTypeDef>, sd: &StructDef)
    ensures
        final(defs)@.len() > old(defs)@.len(),
        disc_step(models_of(*cx), old(visited)@, old(defs)@, final(visited)@, final(defs)@.drop_last()),
        sdefs_of(final(defs)@).len() > sdefs_of(old(defs)@).len(),
        sdefs_of(final(defs)@).last() == struct_model(res_set(*cx), *sd),
        model_within(struct_model(res_set(*cx), *sd), reach(final(visited)@)),
        forall|f: nat| f > unvisited_in(*cx, old(visited)@) ==> #[trigger] walk_struct(km(*cx), f, wst(old(visited)@, old(defs)@), *sd) == wst(final(visited)@, final(defs)@),
    decreases unvisited_in(*cx, old(visited)@), 2nat, 0nat,
{
    let ghost res = res_set(*cx);
    let ghost (v0, d0) = (visited@, defs@);
    proof { lemma_disc_refl(models_of(*cx), visited@, defs@); }
    let mut fields: Vec<(String, ResolvedType)> = Vec::new();
    match &sd.fields {
        FieldsDef::Named(fs) => {
            let mut i: usize = 0;
            assert(fs@.skip(0) == fs@);
            while i < fs.len()
                invariant
                    i <= fs.len(),
                    v0 == old(visited)@,
                    res == res_set(*cx),
                    d0 == old(defs)@,
                    disc_step(models_of(*cx), v0, d0, visited@, defs@),
                    rfields_of(fields@) + named_fields(res, fs@.skip(i as int)) == named_fields(res, fs@),
                    forall|g: nat| g > unvisited_in(*cx, v0) ==> #[trigger] walk_named(km(*cx), g, wst(v0, d0), fs@)
                        == walk_named(km(*cx), g, wst(visited@, defs@), fs@.skip(i as int)),
                    forall|j: int| 0 <= j < fields@.len() ==> names_in((#[trigger] fields@[j]).1@).subset_of(reach(visited@)),
                decreases fs.len() - i,
            {
                let ghost (v1, d1) = (visited@, defs@);
                proof {
                    assert(fs@.skip(i as int)[0] == fs@[i as int]);
                    assert(fs@.skip(i as int).drop_first() == fs@.skip(i + 1));
                    lemma_stepped_unvisited(*cx, v0, d0, v1, d1);
                }
                let fname = fs[i].0.clone();
                let r = resolve_in(cx, visited, defs, &fs[i].1);
                proof {
                    assert forall|g: nat| g > unvisited_in(*cx, v0) implies #[trigger] walk_named(km(*cx), g, wst(v0, d0), fs@)
                        == walk_named(km(*cx), g, wst(visited@, defs@), fs@.skip(i + 1)) by {
                        assert(walk_named(km(*cx), g, wst(v1, d1), fs@.skip(i as int))
                            == walk_named(km(*cx), g, walk_ty(km(*cx), g, wst(v1, d1), fs@[i as int].1), fs@.skip(i + 1)));
                    }
                    lemma_disc_trans(models_of(*cx), v0, d0, v1, d1, visited@, defs@);
                    assert(rfields_of(fields@.push((fname, r))) =~= rfields_of(fields@).push((fname@, r@)));
                    lemma_reach_mono(v1, visited@);
                    assert(rfields_of(fields@.push((fname, r))) + named_fields(res, fs@.skip(i + 1))
                        =~= rfields_of(fields@) + named_fields(res, fs@.skip(i as int)));
                }
                fields.push((fname, r));
                i = i + 1;
            }
            assert(fs@.skip(fs.len() as int) =~= Seq::<(String, RustType)>::empty());
            assert forall|g: nat| g > unvisited_in(*cx, v0) implies #[trigger] walk_fields(km(*cx), g, wst(v0, d0), sd.fields)
                == wst(visited@, defs@) by {
                assert(walk_named(km(*cx), g, wst(v0, d0), fs@) == walk_named(km(*cx), g, wst(visited@, defs@), fs@.skip(fs.len() as int)));
                assert(walk_named(km(*cx), g, wst(visited@, defs@), fs@.skip(fs.len() as int)) == wst(visited@, defs@));
            }
        },
        FieldsDef::Unnamed(ts) => {
            let mut i: usize = 0;
            assert(ts@.skip(0) == ts@);
            while i < ts.len()
                invariant
                    i <= ts.len(),
                    v0 == old(visited)@,
                    res == res_set(*cx),
                    d0 == old(defs)@,
                    disc_step(models_of(*cx), v0, d0, visited@, defs@),
                    rfields_of(fields@) + unnamed_fields(res, ts@.skip(i as int), i as nat) == unnamed_fields(res, ts@, 0),
                    forall|g: nat| g > unvisited_in(*cx, v0) ==> #[trigger] walk_all(km(*cx), g, wst(v0, d0), ts@)
                        == walk_all(km(*cx), g, wst(visited@, defs@), ts@.skip(i as int)),
                    forall|j: int| 0 <= j < fields@.len() ==> names_in((#[trigger] fields@[j]).1@).subset_of(reach(visited@)),
                decreases ts.len() - i,
            {
                let ghost (v1, d1) = (visited@, defs@);
                proof {
                    assert(ts@.skip(i as int)[0] == ts@[i as int]);
                    assert(ts@.skip(i as int).drop_first() == ts@.skip(i + 1));
                    lemma_stepped_unvisited(*cx, v0, d0, v1, d1);
                }
                let fname = crate::rs_resolve::tuple_field_name_of(i);
                let r = resolve_in(cx, visited, defs, &ts[i]);
                proof {
                    assert forall|g: nat| g > unvisited_in(*cx, v0) implies #[trigger] walk_all(km(*cx), g, wst(v0, d0), ts@)
                        == walk_all(km(*cx), g, wst(visited@, defs@), ts@.skip(i + 1)) by {
                        assert(walk_all(km(*cx), g, wst(v1, d1), ts@.skip(i as int))
                            == walk_all(km(*cx), g, walk_ty(km(*cx), g, wst(v1, d1), ts@[i as int]), ts@.skip(i + 1)));
                    }
                    lemma_disc_trans(models_of(*cx), v0, d0, v1, d1, visited@, defs@);
                    assert(rfields_of(fields@.push((fname, r))) =~= rfields_of(fields@).push((fname@, r@)));
                    lemma_reach_mono(v1, visited@);
                    assert(rfields_of(fields@.push((fname, r))) + unnamed_fields(res, ts@.skip(i + 1), (i + 1) as nat)
                        =~= rfields_of(fields@) + unnamed_fields(res, ts@.skip(i as int), i as nat));
                }
                fields.push((fname, r));
                i = i + 1;
            }
            assert(ts@.skip(ts.len() as int) =~= Seq::<RustType>::empty());
            assert forall|g: nat| g > unvisited_in(*cx, v0) implies #[trigger] walk_fields(km(*cx), g, wst(v0, d0), sd.fields)
                == wst(visited@, defs@) by {
                assert(walk_all(km(*cx), g, wst(v0, d0), ts@) == walk_all(km(*cx), g, wst(visited@, defs@), ts@.skip(ts.len() as int)));
                assert(walk_all(km(*cx), g, wst(visited@, defs@), ts@.skip(ts.len() as int)) == wst(visited@, defs@));
            }
        },
        FieldsDef::Unit => {
            assert(rfields_of(fields@) =~= Seq::<(Seq<char>, WitTy)>::empty());
            assert forall|g: nat| g > unvisited_in(*cx, v0) implies #[trigger] walk_fields(km(*cx), g, wst(v0, d0), sd.fields)
                == wst(visited@, defs@) by {}
        },
    }
    let ghost (v1, d1) = (visited@, defs@);
    let d = ResolvedTypeDef::Record(ResolvedRecord { name: sd.name.clone(), fields });
    let ghost m = def_of(d);
    proof {
        assert(model_within(m, reach(v1)));
    }
    push_def(visited, defs, d);
    proof {
        assert(defs@.drop_last() =~= d1);
        assert forall|g: nat| g > unvisited_in(*cx, v0) implies #[trigger] walk_struct(km(*cx), g, wst(v0, d0), *sd)
            == wst(visited@, defs@) by {
            assert(walk_fields(km(*cx), g, wst(v0, d0), sd.fields) == wst(v1, d1));
        }
    }
}

/// Resolve the payload of a variant's fields.
fn payload_in(cx: &KnownTypes, visited: &mut Vec<String>, defs: &mut Vec<ResolvedTypeDef>, f: &FieldsDef) -> (r: Option<ResolvedType>)
    ensures
        opt_ty_of(r) == fields_payload(res_set(*cx), *f),
        disc_step(models_of(*cx), old(visited)@, old(defs)@, final(visited)@, final(defs)@),
        opt_ty_names(opt_ty_of(r)).subset_of(reach(final(visited)@)),
        forall|g: nat| g > unvisited_in(*cx, old(visited)@) ==> #[trigger] walk_fields(km(*cx), g, wst(old(visited)@, old(defs)@), *f) == wst(final(visited)@, final(defs)@),
    decreases unvisited_in(*cx, old(visited)@), 2nat, 0nat,
{
    let ghost res = res_set(*cx);
    let ghost (v0, d0) = (visited@, defs@);
    proof { lemma_disc_refl(models_of(*cx), visited@, defs@); }
    let mut types: Vec<ResolvedType> = Vec::new();
    match f {
        FieldsDef::Unit => {
            assert forall|g: nat| g > unvisited_in(*cx, v0) implies #[trigger] walk_fields(km(*cx), g, wst(v0, d0), *f)
                == wst(visited@, defs@) by {}
            return None;
        },
        FieldsDef::Unnamed(ts) => {
            let mut i: usize = 0;
            assert(ts@.skip(0) == ts@);
            while i < ts.len()
                invariant
                    i <= ts.len(),
                    v0 == old(visited)@,
                    res == res_set(*cx),
                    d0 == old(defs)@,
                    disc_step(models_of(*cx), v0, d0, visited@, defs@),
                    rtys_of(types@) + stys(res, ts@.skip(i as int)) == stys(res, ts@),
                    forall|g: nat| g > unvisited_in(*cx, v0) ==> #[trigger] walk_all(km(*cx), g, wst(v0, d0), ts@)
                        == walk_all(km(*cx), g, wst(visited@, defs@), ts@.skip(i as int)),
                    names_all(rtys_of(types@)).subset_of(reach(visited@)),
                decreases ts.len() - i,
            {
                let ghost (v1, d1) = (visited@, defs@);
                proof {
                    assert(ts@.skip(i as int)[0] == ts@[i as int]);
                    assert(ts@.skip(i as int).drop_first() == ts@.skip(i + 1));
                    lemma_stepped_unvisited(*cx, v0, d0, v1, d1);
                }
                let r = resolve_in(cx, visited, defs, &ts[i]);
                proof {
                    assert forall|g: nat| g > unvisited_in(*cx, v0) implies #[trigger] walk_all(km(*cx), g, wst(v0, d0), ts@)
                        == walk_all(km(*cx), g, wst(visited@, defs@), ts@.skip(i + 1)) by {
                        assert(walk_all(km(*cx), g, wst(v1, d1), ts@.skip(i as int))
                            == walk_all(km(*cx), g, walk_ty(km(*cx), g, wst(v1, d1), ts@[i as int]), ts@.skip(i + 1)));
                    }
                    lemma_disc_trans(models_of(*cx), v0, d0, v1, d1, visited@, defs@);
                    lemma_rtys_of_push(types@, r);
                    lemma_reach_mono(v1, visited@);
                    assert(rtys_of(types@).push(r@).drop_last() =~= rtys_of(types@));
                    assert(rtys_of(types@.push(r)) + stys(res, ts@.skip(i + 1)) == rtys_of(types@) + stys(res, ts@.skip(i as int)));
                }
                types.push(r);
                i = i + 1;
            }
            assert(ts@.skip(ts.len() as int) =~= Seq::<RustType>::empty());
            assert forall|g: nat| g > unvisited_in(*cx, v0) implies #[trigger] walk_fields(km(*cx), g, wst(v0, d0), *f)
                == wst(visited@, defs@) by {
                assert(walk_all(km(*cx), g, wst(v0, d0), ts@) == walk_all(km(*cx), g, wst(visited@, defs@), ts@.skip(ts.len() as int)));
                assert(walk_all(km(*cx), g, wst(visited@, defs@), ts@.skip(ts.len() as int)) == wst(visited@, defs@));
            }
        },
        FieldsDef::Named(fs) => {
            let mut i: usize = 0;
            assert(fs@.skip(0) == fs@);
            while i < fs.len()
                invariant
                    i <= fs.len(),
                    v0 == old(visited)@,
                    res == res_set(*cx),
                    d0 == old(defs)@,
                    disc_step(models_of(*cx), v0, d0, visited@, defs@),
                    rtys_of(types@) + named_tys(res, fs@.skip(i as int)) == named_tys(res, fs@),
                    forall|g: nat| g > unvisited_in(*cx, v0) ==> #[trigger] walk_named(km(*cx), g, wst(v0, d0), fs@)
                        == walk_named(km(*cx), g, wst(visited@, defs@), fs@.skip(i as int)),
                    names_all(rtys_of(types@)).subset_of(reach(visited@)),
                decreases fs.len() - i,
            {
                let ghost (v1, d1) = (visited@, defs@);
                proof {
                    assert(fs@.skip(i as int)[0] == fs@[i as int]);
                    assert(fs@.skip(i as int).drop_first() == fs@.skip(i + 1));
                    lemma_stepped_unvisited(*cx, v0, d0, v1, d1);
                }
                let r = resolve_in(cx, visited, defs, &fs[i].1);
                proof {
                    assert forall|g: nat| g > unvisited_in(*cx, v0) implies #[trigger] walk_named(km(*cx), g, wst(v0, d0), fs@)
                        == walk_named(km(*cx), g, wst(visited@, defs@), fs@.skip(i + 1)) by {
                        assert(walk_named(km(*cx), g, wst(v1, d1), fs@.skip(i as int))
                            == walk_named(km(*cx), g, walk_ty(km(*cx), g, wst(v1, d1), fs@[i as int].1), fs@.skip(i + 1)));
                    }
                    lemma_disc_trans(models_of(*cx), v0, d0, v1, d1, visited@, defs@);
                    lemma_rtys_of_push(types@, r);
                    lemma_reach_mono(v1, visited@);
                    assert(rtys_of(types@).push(r@).drop_last() =~= rtys_of(types@));
                    assert(rtys_of(types@.push(r)) + named_tys(res, fs@.skip(i + 1)) == rtys_of(types@) + named_tys(res, fs@.skip(i as int)));
                }
                types.push(r);
                i = i + 1;
            }
            assert(fs@.skip(fs.len() as int) =~= Seq::<(String, RustType)>::empty());
            assert forall|g: nat| g > unvisited_in(*cx, v0) implies #[trigger] walk_fields(km(*cx), g, wst(v0, d0), *f)
                == wst(visited@, defs@) by {
                assert(walk_named(km(*cx), g, wst(v0, d0), fs@) == walk_named(km(*cx), g, wst(visited@, defs@), fs@.skip(fs.len() as int)));
                assert(walk_named(km(*cx), g, wst(visited@, defs@), fs@.skip(fs.len() as int)) == wst(visited@, defs@));
            }
        },
    }
    proof {
        lemma_rtys_of(types@);
        reveal_with_fuel(rty_of, 2);
        if types.len() == 1 {
            assert(rtys_of(types@).drop_last() =~= Seq::<WitTy>::empty());
        }
    }
    if types.len() == 0 {
        None
    } else if types.len() == 1 {
        Some(types.remove(0))
    } else {
        Some(ResolvedType::Tuple(types))
    }
}

/// Resolve an enum into an enum or a variant and record it.
fn resolve_enum_in(cx: &KnownTypes, visited: &mut Vec<String>, defs: &mut Vec<ResolvedTypeDef>, ed: &EnumDef)
    ensures
        final(defs)@.len() > old(defs)@.len(),
        disc_step(models_of(*cx), old(visited)@, old(defs)@, final(visited)@, final(defs)@.drop_last()),
        sdefs_of(final(defs)@).len() > sdefs_of(old(defs)@).len(),
        sdefs_of(final(defs)@).last() == enum_model(res_set(*cx), *ed),
        model_within(enum_model(res_set(*cx), *ed), reach(final(visited)@)),
        forall|f: nat| f > unvisited_in(*cx, old(visited)@) ==> #[trigger] walk_enum(km(*cx), f, wst(old(visited)@, old(defs)@), *ed) == wst(final(visited)@, final(defs)@),
    decreases unvisited_in(*cx, old(visited)@), 3nat, 0nat,
{
    let ghost res = res_set(*cx);
    let ghost (v0, d0) = (visited@, defs@);
    proof { lemma_disc_refl(models_of(*cx), visited@, defs@); }
    let vs = &ed.variants;
    let mut all_unit = true;
    let mut i: usize = 0;
    while i < vs.len()
        invariant
            i <= vs.len(),
            all_unit == (forall|j: int| 0 <= j < i ==> (#[trigger] vs@[j]).1 matches FieldsDef::Unit),
        decreases vs.len() - i,
    {
        let unit = match &vs[i].1 {
            FieldsDef::Unit => true,
            _ => false,
        };
        if !unit {
            all_unit = false;
        }
        i = i + 1;
    }
    if all_unit {
        let mut cases: Vec<String> = Vec::new();
        let mut i: usize = 0;
        while i < vs.len()
            invariant
                i <= vs.len(),
                strs_of(cases@) == vs@.take(i as int).map_values(|v: (String, FieldsDef)| v.0@),
            decreases vs.len() - i,
        {
            let cname = vs[i].0.clone();
            proof {
                assert(strs_of(cases@.push(cname)) =~= strs_of(cases@).push(cname@));
                assert(vs@.take(i + 1).map_values(|v: (String, FieldsDef)| v.0@)
                    =~= vs@.take(i as int).map_values(|v: (String, FieldsDef)| v.0@).push(vs@[i as int].0@));
            }
            cases.push(cname);
            i = i + 1;
        }
        assert(vs@.take(vs.len() as int) == vs@);
        assert(variants_unit(ed.variants@));
        let d = ResolvedTypeDef::Enum(ResolvedEnum { name: ed.name.clone(), cases });
        push_def(visited, defs, d);
        proof {
            assert(defs@.drop_last() =~= d0);
            assert forall|g: nat| g > unvisited_in(*cx, v0) implies #[trigger] walk_enum(km(*cx), g, wst(v0, d0), *ed)
                == wst(visited@, defs@) by {}
        }
    } else {
        let mut cases: Vec<(String, Option<ResolvedType>)> = Vec::new();
        let mut i: usize = 0;
        assert(vs@.skip(0) == vs@);
        while i < vs.len()
            invariant
                i <= vs.len(),
                v0 == old(visited)@,
                res == res_set(*cx),
                d0 == old(defs)@,
                disc_step(models_of(*cx), v0, d0, visited@, defs@),
                cases@.map_values(|c: (String, Option<ResolvedType>)| (c.0@, opt_ty_of(c.1))) + enum_cases(res, vs@.skip(i as int))
                    == enum_cases(res, vs@),
                forall|j: int| 0 <= j < cases@.len() ==> opt_ty_names(opt_ty_of((#[trigger] cases@[j]).1)).subset_of(reach(visited@)),
                forall|g: nat| g > unvisited_in(*cx, v0) ==> #[trigger] walk_variants(km(*cx), g, wst(v0, d0), vs@)
                    == walk_variants(km(*cx), g, wst(visited@, defs@), vs@.skip(i as int)),
            decreases vs.len() - i,
        {
            let ghost (v1, d1) = (visited@, defs@);
            proof {
                assert(vs@.skip(i as int)[0] == vs@[i as int]);
                assert(vs@.skip(i as int).drop_first() == vs@.skip(i + 1));
                lemma_stepped_unvisited(*cx, v0, d0, v1, d1);
            }
            let payload = payload_in(cx, visited, defs, &vs[i].1);
            let cname = vs[i].0.clone();
            proof {
                assert forall|g: nat| g > unvisited_in(*cx, v0) implies #[trigger] walk_variants(km(*cx), g, wst(v0, d0), vs@)
                    == walk_variants(km(*cx), g, wst(visited@, defs@), vs@.skip(i + 1)) by {
                    assert(walk_variants(km(*cx), g, wst(v1, d1), vs@.skip(i as int))
                        == walk_variants(km(*cx), g, walk_fields(km(*cx), g, wst(v1, d1), vs@[i as int].1), vs@.skip(i + 1)));
                }
                lemma_disc_trans(models_of(*cx), v0, d0, v1, d1, visited@, defs@);
                lemma_reach_mono(v1, visited@);
                let f = |c: (String, Option<ResolvedType>)| (c.0@, opt_ty_of(c.1));
                assert(cases@.push((cname, payload)).map_values(f) =~= cases@.map_values(f).push((cname@, opt_ty_of(payload))));
                assert(cases@.push((cname, payload)).map_values(f) + enum_cases(res, vs@.skip(i + 1))
                    =~= cases@.map_values(f) + enum_cases(res, vs@.skip(i as int)));
            }
            cases.push((cname, payload));
            i = i + 1;
        }
        assert(vs@.skip(vs.len() as int) =~= Seq::<(String, FieldsDef)>::empty());
        let ghost (v1, d1) = (visited@, defs@);
        let d = ResolvedTypeDef::Variant(ResolvedVariant { name: ed.name.clone(), cases });
        let ghost m = def_of(d);
        proof {
            assert(model_within(m, reach(v1)));
        }
        push_def(visited, defs, d);
        proof {
            assert(defs@.drop_last() =~= d1);
            assert(!variants_unit(ed.variants@));
            assert forall|g: nat| g > unvisited_in(*cx, v0) implies #[trigger] walk_enum(km(*cx), g, wst(v0, d0), *ed)
                == wst(visited@, defs@) by {
                assert(walk_variants(km(*cx), g, wst(v0, d0), vs@) == walk_variants(km(*cx), g, wst(v1, d1), vs@.skip(vs.len() as int)));
                assert(walk_variants(km(*cx), g, wst(v1, d1), vs@.skip(vs.len() as int)) == wst(v1, d1));
            }
        }
    }
}


// ---------------------------------------------------------------------------
// Exported functions and impl blocks
// ---------------------------------------------------------------------------

/// Whether the attributes include `#[export]`.
pub open spec fn has_export(attrs: Seq<AttrDef>) -> bool {
    exists|i: int| 0 <= i < attrs.len() && ((#[trigger] attrs[i]).ident matches Some(n) && n@ == "export"@)
}

/// Whether the attributes include `#[export]`.
pub fn has_export_attr(attrs: &Vec<AttrDef>) -> (b: bool)
    ensures
        b == has_export(attrs@),
{
    let mut i: usize = 0;
    while i < attrs.len()
        invariant
            i <= attrs.len(),
            forall|j: int| 0 <= j < i ==> !((#[trigger] attrs@[j]).ident matches Some(n) && n@ == "export"@),
        decreases attrs.len() - i,
    {
        let hit = match &attrs[i].ident {
            Some(n) => str_eq(n.as_str(), "export"),
            None => false,
        };
        if hit {
            return true;
        }
        i = i + 1;
    }
    false
}

/// The name of the type an impl block is for, when it is a path.
pub open spec fn impl_type_name_spec(self_ty: RustType) -> Option<Seq<char>> {
    match self_ty {
        RustType::Path { ident, args } => Some(ident@),
        _ => None,
    }
}

/// The name of the type an impl block is for, when it is a path.
pub fn impl_type_name(imp: &ImplItem) -> (r: Option<String>)
    ensures
        crate::ts_project::opt_str(r) == impl_type_name_spec(imp.self_ty),
{
    match &imp.self_ty {
        RustType::Path { ident, args: _ } => Some(ident.clone()),
        _ => None,
    }
}

/// Whether a signature has a receiver.
pub open spec fn has_receiver(inputs: Seq<FnInput>) -> bool {
    exists|i: int| 0 <= i < inputs.len() && (#[trigger] inputs[i]) matches FnInput::Receiver { .. }
}

/// Whether a signature takes `&mut self`.
pub open spec fn has_mut_receiver(inputs: Seq<FnInput>) -> bool {
    exists|i: int| 0 <= i < inputs.len() && (#[trigger] inputs[i]) matches FnInput::Receiver { mutable: true }
}

/// The named, typed parameters of a signature with their types.
pub open spec fn inputs_params(res: Set<Seq<char>>, inputs: Seq<FnInput>) -> Seq<(Seq<char>, WitTy)>
    decreases inputs.len(),
{
    if inputs.len() == 0 {
        Seq::empty()
    } else {
        let rest = inputs_params(res, inputs.drop_first());
        match inputs[0] {
            FnInput::Typed { name: Some(n), ty } => seq![(n@, sty(res, ty))] + rest,
            _ => rest,
        }
    }
}

/// An exported free function.
pub open spec fn fn_item_model(res: Set<Seq<char>>, sig: FnSig) -> FnModel {
    FnModel {
        name: sig.name@,
        params: inputs_params(res, sig.inputs@),
        return_type: match sig.output {
            Some(t) => Some(sty(res, t)),
            None => None,
        },
        is_async: sig.is_async,
        is_mut_self: false,
    }
}

/// A method of the resource `owner`: `Self` in its return type is an owned handle.
pub open spec fn method_model(res: Set<Seq<char>>, sig: FnSig, owner: Seq<char>) -> FnModel {
    FnModel {
        name: sig.name@,
        params: inputs_params(res, sig.inputs@),
        return_type: match sig.output {
            Some(t) => Some(replace_self_spec(sty(res, t), owner)),
            None => None,
        },
        is_async: sig.is_async,
        is_mut_self: has_mut_receiver(sig.inputs@),
    }
}

/// Whether a method is the constructor of `owner`: named `new`, without a
/// receiver, returning `Self` or `owner`.
pub open spec fn is_constructor_spec(name: Seq<char>, sig: FnSig, owner: Seq<char>) -> bool {
    &&& name == "new"@
    &&& !has_receiver(sig.inputs@)
    &&& (sig.output matches Some(RustType::Path { ident, args }) && (ident@ == "Self"@ || ident@ == owner))
}

/// The part a method contributes to its resource.
pub open spec fn method_part_of(res: Set<Seq<char>>, d: ImplItemDef, owner: Seq<char>) -> ImplParts {
    match d {
        ImplItemDef::Fn(sig) => {
            let f = method_model(res, sig, owner);
            if is_constructor_spec(sig.name@, sig, owner) {
                ImplParts { ctor: Some(f), methods: Seq::empty(), statics: Seq::empty() }
            } else if has_receiver(sig.inputs@) {
                ImplParts { ctor: None, methods: seq![f], statics: Seq::empty() }
            } else {
                ImplParts { ctor: None, methods: Seq::empty(), statics: seq![f] }
            }
        },
        ImplItemDef::Other => no_parts(),
    }
}

/// The parts the items of an impl block contribute.
pub open spec fn impl_items_part(res: Set<Seq<char>>, ds: Seq<ImplItemDef>, owner: Seq<char>) -> ImplParts
    decreases ds.len(),
{
    if ds.len() == 0 {
        no_parts()
    } else {
        combine(method_part_of(res, ds[0], owner), impl_items_part(res, ds.drop_first(), owner))
    }
}

/// The name of an impl block's resource: its type's name, or `Unknown`.
pub open spec fn impl_owner(imp: ImplItem) -> Seq<char> {
    match impl_type_name_spec(imp.self_ty) {
        Some(n) => n,
        None => "Unknown"@,
    }
}

/// An exported impl block, as a resource.
pub open spec fn impl_item_model(res: Set<Seq<char>>, imp: ImplItem) -> ImplModel {
    let p = impl_items_part(res, imp.items@, impl_owner(imp));
    ImplModel { impl_name: impl_owner(imp), constructor: p.ctor, methods: p.methods, static_funcs: p.statics }
}

/// The model of an exported function.
pub open spec fn ex_fn_of(f: ExportedFunction) -> FnModel {
    FnModel {
        name: f.name@,
        params: rfields_of(f.params@),
        return_type: opt_ty_of(f.return_type),
        is_async: f.is_async,
        is_mut_self: f.is_mut_self,
    }
}

/// The models of exported functions.
pub open spec fn ex_fns_of(s: Seq<ExportedFunction>) -> Seq<FnModel> {
    s.map_values(|f: ExportedFunction| ex_fn_of(f))
}

/// The model of an exported impl block.
pub open spec fn ex_impl_of(i: ExportedImpl) -> ImplModel {
    ImplModel {
        impl_name: i.impl_name@,
        constructor: match i.constructor {
            Some(f) => Some(ex_fn_of(f)),
            None => None,
        },
        methods: ex_fns_of(i.methods@),
        static_funcs: ex_fns_of(i.static_funcs@),
    }
}

/// The models of exported impl blocks.
pub open spec fn ex_impls_of(s: Seq<ExportedImpl>) -> Seq<ImplModel> {
    s.map_values(|i: ExportedImpl| ex_impl_of(i))
}

/// Whether the parameter and return types of a signature refer only to names in `s`.
pub open spec fn fn_within(f: FnModel, s: Set<Seq<char>>) -> bool {
    &&& forall|i: int| 0 <= i < f.params.len() ==> names_in((#[trigger] f.params[i]).1).subset_of(s)
    &&& opt_ty_names(f.return_type).subset_of(s)
}

/// Whether the signatures of a resource refer only to names in `s`.
pub open spec fn impl_within(m: ImplModel, s: Set<Seq<char>>) -> bool {
    &&& (m.constructor matches Some(c) ==> fn_within(c, s))
    &&& forall|i: int| 0 <= i < m.methods.len() ==> fn_within(#[trigger] m.methods[i], s)
    &&& forall|i: int| 0 <= i < m.static_funcs.len() ==> fn_within(#[trigger] m.static_funcs[i], s)
}

proof fn lemma_fn_within_mono(f: FnModel, s: Set<Seq<char>>, t: Set<Seq<char>>)
    requires
        fn_within(f, s),
        s.subset_of(t),
    ensures
        fn_within(f, t),
{
    assert forall|i: int| 0 <= i < f.params.len() implies names_in((#[trigger] f.params[i]).1).subset_of(t) by {
        assert(names_in(f.params[i].1).subset_of(s));
    }
}

proof fn lemma_fns_within_mono(fs: Seq<ExportedFunction>, s: Set<Seq<char>>, t: Set<Seq<char>>)
    requires
        forall|j: int| 0 <= j < fs.len() ==> fn_within(ex_fn_of(#[trigger] fs[j]), s),
        s.subset_of(t),
    ensures
        forall|j: int| 0 <= j < fs.len() ==> fn_within(ex_fn_of(#[trigger] fs[j]), t),
{
    assert forall|j: int| 0 <= j < fs.len() implies fn_within(ex_fn_of(#[trigger] fs[j]), t) by {
        lemma_fn_within_mono(ex_fn_of(fs[j]), s, t);
    }
}

/// Replacing `Self` by an owned handle adds no name.
proof fn lemma_replace_self_names(t: WitTy, o: Seq<char>)
    ensures
        names_in(replace_self_spec(t, o)).subset_of(names_in(t)),
    decreases t, 1nat,
{
    match t {
        WitTy::List(i) => lemma_replace_self_names(*i, o),
        WitTy::Option(i) => lemma_replace_self_names(*i, o),
        WitTy::Result { ok, err } => {
            lemma_replace_self_opt_names(ok, o);
            lemma_replace_self_opt_names(err, o);
        },
        WitTy::Tuple(es) => lemma_replace_self_all_names(es, o),
        WitTy::Future(i) => lemma_replace_self_opt_names(i, o),
        WitTy::Stream(i) => lemma_replace_self_opt_names(i, o),
        _ => {},
    }
}

proof fn lemma_replace_self_opt_names(b: Option<Box<WitTy>>, o: Seq<char>)
    ensures
        opt_names(crate::rs_macros_extract::replace_self_opt(b, o)).subset_of(opt_names(b)),
    decreases b, 2nat,
{
    match b {
        Some(t) => lemma_replace_self_names(*t, o),
        None => {},
    }
}

proof fn lemma_replace_self_all_names(es: Seq<WitTy>, o: Seq<char>)
    ensures
        names_all(crate::rs_macros_extract::replace_self_all(es, o)).subset_of(names_all(es)),
    decreases es, 0nat,
{
    if es.len() > 0 {
        lemma_replace_self_all_names(es.drop_last(), o);
        lemma_replace_self_names(es.last(), o);
        let r = crate::rs_macros_extract::replace_self_all(es, o);
        assert(r.drop_last() == crate::rs_macros_extract::replace_self_all(es.drop_last(), o));
        assert(r.last() == replace_self_spec(es.last(), o));
    }
}

/// Whether the signatures of the functions from index `from` on refer only to names in `s`.
pub open spec fn fns_within(fs: Seq<ExportedFunction>, from: int, s: Set<Seq<char>>) -> bool {
    forall|j: int| from <= j < fs.len() ==> fn_within(ex_fn_of(#[trigger] fs[j]), s)
}

/// Whether the resources from index `from` on refer only to names in `s`.
pub open spec fn impls_within(is: Seq<ExportedImpl>, from: int, s: Set<Seq<char>>) -> bool {
    forall|j: int| from <= j < is.len() ==> impl_within(ex_impl_of(#[trigger] is[j]), s)
}

/// A discovery whose exported signatures and recorded definitions refer
/// only to looked-up names (or `Self`), in which every looked-up name with a
/// struct or enum definition has its definition recorded, and whose
/// recorded definitions are each the definition (the last struct, or else
/// the last enum, of that name) of a looked-up name, once each.
pub open spec fn discovery_closed(d: TypeDiscovery) -> bool {
    let r = reach(d.visited_types@);
    let m = sdefs_of(d.type_defs@);
    &&& fns_within(d.functions@, 0, r)
    &&& impls_within(d.impls@, 0, r)
    &&& defs_within(m, r)
    &&& forall|n: Seq<char>|
        #[trigger] strs_of(d.visited_types@).to_set().contains(n) && known_names(d.structs@, d.enums@).contains(n)
            ==> defined_in(m, n)
    &&& forall|i: int| 0 <= i < m.len() ==> {
        &&& strs_of(d.visited_types@).to_set().contains(model_name(#[trigger] m[i]))
        &&& def_model_of(d.structs@, d.enums@, strs_of(d.resource_types@).to_set(), model_name(m[i])) == Some(m[i])
    }
    &&& forall|i: int, j: int| 0 <= i < j < m.len() ==> model_name(#[trigger] m[i]) != model_name(#[trigger] m[j])
}

/// Whether a signature names `n` by value in a parameter or its return type.
pub open spec fn fn_refers(f: FnModel, n: Seq<char>) -> bool {
    ||| exists|i: int| 0 <= i < f.params.len() && names_in((#[trigger] f.params[i]).1).contains(n)
    ||| opt_ty_names(f.return_type).contains(n)
}

/// Whether a resource's signatures name `n` by value.
pub open spec fn impl_refers(m: ImplModel, n: Seq<char>) -> bool {
    ||| m.constructor matches Some(c) && fn_refers(c, n)
    ||| exists|i: int| 0 <= i < m.methods.len() && fn_refers(#[trigger] m.methods[i], n)
    ||| exists|i: int| 0 <= i < m.static_funcs.len() && fn_refers(#[trigger] m.static_funcs[i], n)
}

/// Whether a definition's fields or payloads name `n` by value.
pub open spec fn def_refers(m: DefModel, n: Seq<char>) -> bool {
    match m {
        DefModel::Record(_, fs) => exists|i: int| 0 <= i < fs.len() && names_in((#[trigger] fs[i]).1).contains(n),
        DefModel::Variant(_, cs) => exists|i: int| 0 <= i < cs.len() && opt_ty_names((#[trigger] cs[i]).1).contains(n),
        DefModel::Enum(_, _) => false,
    }
}

/// Whether an exported signature or a recorded definition names `n` by value.
pub open spec fn refers_to(d: TypeDiscovery, n: Seq<char>) -> bool {
    ||| exists|i: int| 0 <= i < d.functions@.len() && fn_refers(ex_fn_of(#[trigger] d.functions@[i]), n)
    ||| exists|i: int| 0 <= i < d.impls@.len() && impl_refers(ex_impl_of(#[trigger] d.impls@[i]), n)
    ||| exists|i: int| 0 <= i < d.type_defs@.len() && def_refers(#[trigger] sdefs_of(d.type_defs@)[i], n)
}

proof fn lemma_impl_within_mono(m: ImplModel, s: Set<Seq<char>>, t: Set<Seq<char>>)
    requires
        impl_within(m, s),
        s.subset_of(t),
    ensures
        impl_within(m, t),
{
    if m.constructor is Some {
        lemma_fn_within_mono(m.constructor->0, s, t);
    }
    assert forall|i: int| 0 <= i < m.methods.len() implies fn_within(#[trigger] m.methods[i], t) by {
        lemma_fn_within_mono(m.methods[i], s, t);
    }
    assert forall|i: int| 0 <= i < m.static_funcs.len() implies fn_within(#[trigger] m.static_funcs[i], t) by {
        lemma_fn_within_mono(m.static_funcs[i], s, t);
    }
}

proof fn lemma_fn_refers_within(f: FnModel, s: Set<Seq<char>>, n: Seq<char>)
    requires
        fn_within(f, s),
        fn_refers(f, n),
    ensures
        s.contains(n),
{
    if !opt_ty_names(f.return_type).contains(n) {
        let i = choose|i: int| 0 <= i < f.params.len() && names_in((#[trigger] f.params[i]).1).contains(n);
        assert(names_in(f.params[i].1).subset_of(s));
    }
}

/// Every type that an exported signature or a recorded definition names by
/// value, other than `Self`, and that has a struct or enum definition, has
/// its definition recorded: discovery follows definitions transitively.
pub proof fn lemma_named_types_discovered(d: TypeDiscovery, n: Seq<char>)
    requires
        discovery_closed(d),
        refers_to(d, n),
        n != "Self"@,
        known_names(d.structs@, d.enums@).contains(n),
    ensures
        defined_in(sdefs_of(d.type_defs@), n),
{
    let r = reach(d.visited_types@);
    if exists|i: int| 0 <= i < d.functions@.len() && fn_refers(ex_fn_of(#[trigger] d.functions@[i]), n) {
        let i = choose|i: int| 0 <= i < d.functions@.len() && fn_refers(ex_fn_of(#[trigger] d.functions@[i]), n);
        lemma_fn_refers_within(ex_fn_of(d.functions@[i]), r, n);
    } else if exists|i: int| 0 <= i < d.impls@.len() && impl_refers(ex_impl_of(#[trigger] d.impls@[i]), n) {
        let i = choose|i: int| 0 <= i < d.impls@.len() && impl_refers(ex_impl_of(#[trigger] d.impls@[i]), n);
        let m = ex_impl_of(d.impls@[i]);
        assert(impl_within(m, r));
        if m.constructor is Some && fn_refers(m.constructor->0, n) {
            lemma_fn_refers_within(m.constructor->0, r, n);
        } else if exists|j: int| 0 <= j < m.methods.len() && fn_refers(#[trigger] m.methods[j], n) {
            let j = choose|j: int| 0 <= j < m.methods.len() && fn_refers(#[trigger] m.methods[j], n);
            lemma_fn_refers_within(m.methods[j], r, n);
        } else {
            let j = choose|j: int| 0 <= j < m.static_funcs.len() && fn_refers(#[trigger] m.static_funcs[j], n);
            lemma_fn_refers_within(m.static_funcs[j], r, n);
        }
    } else {
        let i = choose|i: int| 0 <= i < d.type_defs@.len() && def_refers(#[trigger] sdefs_of(d.type_defs@)[i], n);
        let m = sdefs_of(d.type_defs@)[i];
        assert(model_within(m, r));
        match m {
            DefModel::Record(_, fs) => {
                let j = choose|j: int| 0 <= j < fs.len() && names_in((#[trigger] fs[j]).1).contains(n);
                assert(names_in(fs[j].1).subset_of(r));
            },
            DefModel::Variant(_, cs) => {
                let j = choose|j: int| 0 <= j < cs.len() && opt_ty_names((#[trigger] cs[j]).1).contains(n);
                assert(opt_ty_names(cs[j].1).subset_of(r));
            },
            DefModel::Enum(_, _) => {},
        }
    }
    assert(r.contains(n));
    assert(strs_of(d.visited_types@).to_set().contains(n));
}

proof fn lemma_fns_from_mono(fs: Seq<ExportedFunction>, from: int, s: Set<Seq<char>>, t: Set<Seq<char>>)
    requires
        fns_within(fs, from, s),
        s.subset_of(t),
    ensures
        fns_within(fs, from, t),
{
    assert forall|j: int| from <= j < fs.len() implies fn_within(ex_fn_of(#[trigger] fs[j]), t) by {
        lemma_fn_within_mono(ex_fn_of(fs[j]), s, t);
    }
}

proof fn lemma_impls_from_mono(is: Seq<ExportedImpl>, from: int, s: Set<Seq<char>>, t: Set<Seq<char>>)
    requires
        impls_within(is, from, s),
        s.subset_of(t),
    ensures
        impls_within(is, from, t),
{
    assert forall|j: int| from <= j < is.len() implies impl_within(ex_impl_of(#[trigger] is[j]), t) by {
        lemma_impl_within_mono(ex_impl_of(is[j]), s, t);
    }
}

/// The parts gathered so far.
pub open spec fn ex_parts(ctor: Option<ExportedFunction>, methods: Seq<ExportedFunction>, statics: Seq<ExportedFunction>) -> ImplParts {
    ImplParts {
        ctor: match ctor {
            Some(f) => Some(ex_fn_of(f)),
            None => None,
        },
        methods: ex_fns_of(methods),
        statics: ex_fns_of(statics),
    }
}

/// Whether a signature has a receiver.
fn sig_has_receiver(sig: &FnSig) -> (b: bool)
    ensures
        b == has_receiver(sig.inputs@),
{
    let mut i: usize = 0;
    while i < sig.inputs.len()
        invariant
            i <= sig.inputs.len(),
            forall|j: int| 0 <= j < i ==> !((#[trigger] sig.inputs@[j]) matches FnInput::Receiver { .. }),
        decreases sig.inputs.len() - i,
    {
        match &sig.inputs[i] {
            FnInput::Receiver { mutable: _ } => {
                return true;
            },
            _ => {},
        }
        i = i + 1;
    }
    false
}

/// Whether a signature takes `&mut self`.
fn sig_has_mut_receiver(sig: &FnSig) -> (b: bool)
    ensures
        b == has_mut_receiver(sig.inputs@),
{
    let mut i: usize = 0;
    while i < sig.inputs.len()
        invariant
            i <= sig.inputs.len(),
            forall|j: int| 0 <= j < i ==> !((#[trigger] sig.inputs@[j]) matches FnInput::Receiver { mutable: true }),
        decreases sig.inputs.len() - i,
    {
        match &sig.inputs[i] {
            FnInput::Receiver { mutable } => {
                if *mutable {
                    return true;
                }
            },
            _ => {},
        }
        i = i + 1;
    }
    false
}

/// Whether a method is the constructor of `owner`.
pub fn is_constructor(name: &str, sig: &FnSig, owner: &str) -> (b: bool)
    ensures
        b == is_constructor_spec(name@, *sig, owner@),
{
    if !str_eq(name, "new") {
        return false;
    }
    if sig_has_receiver(sig) {
        return false;
    }
    match &sig.output {
        Some(RustType::Path { ident, args: _ }) => str_eq(ident.as_str(), "Self") || str_eq(ident.as_str(), owner),
        _ => false,
    }
}

impl TypeDiscovery {
    /// Resolve a written type, discovering the struct and enum definitions
    /// it names (a resource is not discovered).
    pub fn resolve_type(&mut self, ty: &RustType) -> (r: ResolvedType)
        ensures
            r@ == sty(strs_of(old(self).resource_types@).to_set(), *ty),
            names_in(r@).subset_of(reach(final(self).visited_types@)),
            disc_step(dmodels(old(self).structs@, old(self).enums@, strs_of(old(self).resource_types@).to_set()), old(self).visited_types@, old(self).type_defs@, final(self).visited_types@, final(self).type_defs@),
            final(self).structs@ == old(self).structs@,
            final(self).enums@ == old(self).enums@,
            final(self).resource_types@ == old(self).resource_types@,
            final(self).functions@ == old(self).functions@,
            final(self).impls@ == old(self).impls@,
            forall|g: nat| g > unvisited_k(dkm(*old(self)), old(self).visited_types@) ==> #[trigger] walk_ty(dkm(*old(self)), g, dstate(*old(self)), *ty) == dstate(*final(self)),
    {
        let ghost s0 = *self;
        let cx = KnownTypes { structs: &self.structs, enums: &self.enums, resources: &self.resource_types };
        proof {
            assert(km(cx) == dkm(s0));
            assert(unvisited_in(cx, s0.visited_types@) == unvisited_k(dkm(s0), s0.visited_types@));
        }
        let r = resolve_in(&cx, &mut self.visited_types, &mut self.type_defs, ty);
        proof {
            assert forall|g: nat| g > unvisited_k(dkm(s0), s0.visited_types@) implies #[trigger] walk_ty(dkm(s0), g, dstate(s0), *ty)
                == dstate(*self) by {
                assert(walk_ty(km(cx), g, wst(s0.visited_types@, s0.type_defs@), *ty) == wst(self.visited_types@, self.type_defs@));
            }
        }
        r
    }

    /// The parameters of a signature other than the receiver, with their types.
    fn extract_params(&mut self, inputs: &Vec<FnInput>) -> (r: Vec<(String, ResolvedType)>)
        ensures
            rfields_of(r@) == inputs_params(strs_of(old(self).resource_types@).to_set(), inputs@),
            forall|j: int| 0 <= j < r@.len() ==> names_in((#[trigger] r@[j]).1@).subset_of(reach(final(self).visited_types@)),
            disc_step(dmodels(old(self).structs@, old(self).enums@, strs_of(old(self).resource_types@).to_set()), old(self).visited_types@, old(self).type_defs@, final(self).visited_types@, final(self).type_defs@),
            final(self).structs@ == old(self).structs@,
            final(self).enums@ == old(self).enums@,
            final(self).resource_types@ == old(self).resource_types@,
            final(self).functions@ == old(self).functions@,
            final(self).impls@ == old(self).impls@,
            forall|g: nat| g > unvisited_k(dkm(*old(self)), old(self).visited_types@) ==> #[trigger] walk_inputs(dkm(*old(self)), g, dstate(*old(self)), inputs@) == dstate(*final(self)),
    {
        let ghost res = strs_of(self.resource_types@).to_set();
        let ghost start = *self;
        proof { lemma_disc_refl(dmodels(self.structs@, self.enums@, strs_of(self.resource_types@).to_set()), self.visited_types@, self.type_defs@); }
        let mut out: Vec<(String, ResolvedType)> = Vec::new();
        let mut i: usize = 0;
        assert(inputs@.skip(0) == inputs@);
        while i < inputs.len()
            invariant
                i <= inputs.len(),
                start == *old(self),
                res == strs_of(start.resource_types@).to_set(),
                disc_step(dmodels(start.structs@, start.enums@, strs_of(start.resource_types@).to_set()), start.visited_types@, start.type_defs@, self.visited_types@, self.type_defs@),
                self.structs@ == start.structs@,
                self.enums@ == start.enums@,
                self.resource_types@ == start.resource_types@,
                self.functions@ == start.functions@,
                self.impls@ == start.impls@,
                rfields_of(out@) + inputs_params(res, inputs@.skip(i as int)) == inputs_params(res, inputs@),
                forall|j: int| 0 <= j < out@.len() ==> names_in((#[trigger] out@[j]).1@).subset_of(reach(self.visited_types@)),
                forall|g: nat| g > unvisited_k(dkm(start), start.visited_types@) ==> #[trigger] walk_inputs(dkm(start), g, dstate(start), inputs@)
                    == walk_inputs(dkm(start), g, dstate(*self), inputs@.skip(i as int)),
            decreases inputs.len() - i,
        {
            let ghost (v1, d1) = (self.visited_types@, self.type_defs@);
            let ghost s1 = dstate(*self);
            proof {
                assert(inputs@.skip(i as int)[0] == inputs@[i as int]);
                assert(inputs@.skip(i as int).drop_first() == inputs@.skip(i + 1));
                lemma_unvisited_k_mono(dkm(start), start.visited_types@, start.type_defs@, v1, d1);
            }
            match &inputs[i] {
                FnInput::Typed { name: Some(n), ty } => {
                    let pname = n.clone();
                    let ghost sb = *self;
                    proof {
                        assert(inputs@[i as int] == FnInput::Typed { name: Some(*n), ty: *ty });
                        assert(dkm(sb) == dkm(start));
                        assert(dstate(sb) == s1);
                    }
                    let r = self.resolve_type(ty);
                    proof {
                        assert forall|g: nat| g > unvisited_k(dkm(start), start.visited_types@) implies #[trigger] walk_inputs(dkm(start), g, dstate(start), inputs@)
                            == walk_inputs(dkm(start), g, dstate(*self), inputs@.skip(i + 1)) by {
                            assert(walk_ty(dkm(sb), g, dstate(sb), *ty) == dstate(*self));
                            assert(walk_inputs(dkm(start), g, s1, inputs@.skip(i as int))
                                == walk_inputs(dkm(start), g, walk_ty(dkm(start), g, s1, *ty), inputs@.skip(i + 1)));
                        }
                        lemma_disc_trans(dmodels(start.structs@, start.enums@, strs_of(start.resource_types@).to_set()), start.visited_types@, start.type_defs@, v1, d1, self.visited_types@, self.type_defs@);
                        assert(rfields_of(out@.push((pname, r))) =~= rfields_of(out@).push((pname@, r@)));
                        lemma_reach_mono(v1, self.visited_types@);
                        assert(rfields_of(out@.push((pname, r))) + inputs_params(res, inputs@.skip(i + 1))
                            =~= rfields_of(out@) + inputs_params(res, inputs@.skip(i as int)));
                    }
                    out.push((pname, r));
                },
                _ => {
                    proof {
                        assert forall|g: nat| g > unvisited_k(dkm(start), start.visited_types@) implies #[trigger] walk_inputs(dkm(start), g, dstate(start), inputs@)
                            == walk_inputs(dkm(start), g, dstate(*self), inputs@.skip(i + 1)) by {
                            assert(walk_inputs(dkm(start), g, s1, inputs@.skip(i as int))
                                == walk_inputs(dkm(start), g, s1, inputs@.skip(i + 1)));
                        }
                    }
                },
            }
            i = i + 1;
        }
        assert(inputs@.skip(inputs.len() as int) =~= Seq::<FnInput>::empty());
        proof {
            assert forall|g: nat| g > unvisited_k(dkm(start), start.visited_types@) implies #[trigger] walk_inputs(dkm(start), g, dstate(start), inputs@)
                == dstate(*self) by {
                assert(walk_inputs(dkm(start), g, dstate(*self), inputs@.skip(inputs.len() as int)) == dstate(*self));
            }
        }
        out
    }

    /// The resolved return type, if declared.
    fn extract_return_type(&mut self, output: &Option<RustType>) -> (r: Option<ResolvedType>)
        ensures
            opt_ty_of(r) == match *output {
                Some(t) => Some(sty(strs_of(old(self).resource_types@).to_set(), t)),
                None => None,
            },
            opt_ty_names(opt_ty_of(r)).subset_of(reach(final(self).visited_types@)),
            disc_step(dmodels(old(self).structs@, old(self).enums@, strs_of(old(self).resource_types@).to_set()), old(self).visited_types@, old(self).type_defs@, final(self).visited_types@, final(self).type_defs@),
            final(self).structs@ == old(self).structs@,
            final(self).enums@ == old(self).enums@,
            final(self).resource_types@ == old(self).resource_types@,
            final(self).functions@ == old(self).functions@,
            final(self).impls@ == old(self).impls@,
            forall|g: nat| g > unvisited_k(dkm(*old(self)), old(self).visited_types@) ==> #[trigger] walk_output(dkm(*old(self)), g, dstate(*old(self)), *output) == dstate(*final(self)),
    {
        proof { lemma_disc_refl(dmodels(self.structs@, self.enums@, strs_of(self.resource_types@).to_set()), self.visited_types@, self.type_defs@); }
        match output {
            Some(t) => Some(self.resolve_type(t)),
            None => None,
        }
    }

    /// An exported free function.
    fn extract_function(&mut self, f: &FnItem) -> (r: ExportedFunction)
        ensures
            ex_fn_of(r) == fn_item_model(strs_of(old(self).resource_types@).to_set(), f.sig),
            fn_within(ex_fn_of(r), reach(final(self).visited_types@)),
            forall|g: nat| g > unvisited_k(dkm(*old(self)), old(self).visited_types@) ==> #[trigger] walk_sig(dkm(*old(self)), g, dstate(*old(self)), f.sig) == dstate(*final(self)),
            disc_step(dmodels(old(self).structs@, old(self).enums@, strs_of(old(self).resource_types@).to_set()), old(self).visited_types@, old(self).type_defs@, final(self).visited_types@, final(self).type_defs@),
            final(self).structs@ == old(self).structs@,
            final(self).enums@ == old(self).enums@,
            final(self).resource_types@ == old(self).resource_types@,
            final(self).functions@ == old(self).functions@,
            final(self).impls@ == old(self).impls@,
    {
        let ghost (v0, d0) = (self.visited_types@, self.type_defs@);
        let ghost s0 = *self;
        let params = self.extract_params(&f.sig.inputs);
        let ghost (v1, d1) = (self.visited_types@, self.type_defs@);
        let ghost s1 = *self;
        let return_type = self.extract_return_type(&f.sig.output);
        proof {
            lemma_disc_trans(dmodels(self.structs@, self.enums@, strs_of(self.resource_types@).to_set()), v0, d0, v1, d1, self.visited_types@, self.type_defs@);
            lemma_reach_mono(v1, self.visited_types@);
            lemma_unvisited_k_mono(dkm(*self), v0, d0, v1, d1);
            assert(dkm(s1) == dkm(s0));
            assert forall|g: nat| g > unvisited_k(dkm(s0), v0) implies #[trigger] walk_sig(dkm(s0), g, dstate(s0), f.sig)
                == dstate(*self) by {
                assert(walk_inputs(dkm(s0), g, dstate(s0), f.sig.inputs@) == dstate(s1));
                assert(walk_output(dkm(s1), g, dstate(s1), f.sig.output) == dstate(*self));
            }
        }
        ExportedFunction { name: f.sig.name.clone(), params, return_type, is_async: f.sig.is_async, is_mut_self: false }
    }

    /// An exported impl block, as a resource: its constructor, methods and
    /// static functions, with `Self` in return types made an owned handle.
    fn extract_impl(&mut self, imp: &ImplItem) -> (r: ExportedImpl)
        ensures
            ex_impl_of(r) == impl_item_model(strs_of(old(self).resource_types@).to_set(), *imp),
            impl_within(ex_impl_of(r), reach(final(self).visited_types@)),
            forall|g: nat| g > unvisited_k(dkm(*old(self)), old(self).visited_types@) ==> #[trigger] walk_impl_items(dkm(*old(self)), g, dstate(*old(self)), imp.items@) == dstate(*final(self)),
            disc_step(dmodels(old(self).structs@, old(self).enums@, strs_of(old(self).resource_types@).to_set()), old(self).visited_types@, old(self).type_defs@, final(self).visited_types@, final(self).type_defs@),
            final(self).structs@ == old(self).structs@,
            final(self).enums@ == old(self).enums@,
            final(self).resource_types@ == old(self).resource_types@,
            final(self).functions@ == old(self).functions@,
            final(self).impls@ == old(self).impls@,
    {
        let ghost res = strs_of(self.resource_types@).to_set();
        let ghost start = *self;
        proof { lemma_disc_refl(dmodels(self.structs@, self.enums@, strs_of(self.resource_types@).to_set()), self.visited_types@, self.type_defs@); }
        let owner = match impl_type_name(imp) {
            Some(n) => n,
            None => "Unknown".to_string(),
        };
        let ghost ow = owner@;
        assert(ow == impl_owner(*imp));
        let mut ctor: Option<ExportedFunction> = None;
        let mut methods: Vec<ExportedFunction> = Vec::new();
        let mut statics: Vec<ExportedFunction> = Vec::new();
        proof {
            assert(ex_parts(ctor, methods@, statics@) == no_parts()) by {
                assert(ex_fns_of(methods@) =~= Seq::<FnModel>::empty());
                assert(ex_fns_of(statics@) =~= Seq::<FnModel>::empty());
            }
            lemma_combine_empty(impl_items_part(res, imp.items@, ow));
        }
        let mut i: usize = 0;
        assert(imp.items@.skip(0) == imp.items@);
        while i < imp.items.len()
            invariant
                i <= imp.items.len(),
                start == *old(self),
                res == strs_of(start.resource_types@).to_set(),
                ow == owner@,
                disc_step(dmodels(start.structs@, start.enums@, strs_of(start.resource_types@).to_set()), start.visited_types@, start.type_defs@, self.visited_types@, self.type_defs@),
                self.structs@ == start.structs@,
                self.enums@ == start.enums@,
                self.resource_types@ == start.resource_types@,
                self.functions@ == start.functions@,
                self.impls@ == start.impls@,
                combine(ex_parts(ctor, methods@, statics@), impl_items_part(res, imp.items@.skip(i as int), ow))
                    == impl_items_part(res, imp.items@, ow),
                ctor matches Some(c) ==> fn_within(ex_fn_of(c), reach(self.visited_types@)),
                forall|j: int| 0 <= j < methods@.len() ==> fn_within(ex_fn_of(#[trigger] methods@[j]), reach(self.visited_types@)),
                forall|j: int| 0 <= j < statics@.len() ==> fn_within(ex_fn_of(#[trigger] statics@[j]), reach(self.visited_types@)),
                forall|g: nat| g > unvisited_k(dkm(start), start.visited_types@) ==> #[trigger] walk_impl_items(dkm(start), g, dstate(start), imp.items@)
                    == walk_impl_items(dkm(start), g, dstate(*self), imp.items@.skip(i as int)),
            decreases imp.items.len() - i,
        {
            let ghost acc = ex_parts(ctor, methods@, statics@);
            let ghost sa = *self;
            proof {
                assert(dkm(sa) == dkm(start));
                lemma_unvisited_k_mono(dkm(start), start.visited_types@, start.type_defs@, sa.visited_types@, sa.type_defs@);
                assert(imp.items@.skip(i as int)[0] == imp.items@[i as int]);
                assert(imp.items@.skip(i as int).drop_first() == imp.items@.skip(i + 1));
                lemma_combine_assoc(acc, method_part_of(res, imp.items@[i as int], ow), impl_items_part(res, imp.items@.skip(i + 1), ow));
            }
            match &imp.items[i] {
                ImplItemDef::Fn(sig) => {
                    let ghost (v1, d1) = (self.visited_types@, self.type_defs@);
                    let params = self.extract_params(&sig.inputs);
                    let ghost (v2, d2) = (self.visited_types@, self.type_defs@);
                    let ghost sb = *self;
                    let rt = self.extract_return_type(&sig.output);
                    proof {
                        assert(imp.items@[i as int] == ImplItemDef::Fn(*sig));
                        assert(dkm(sb) == dkm(start));
                        lemma_unvisited_k_mono(dkm(start), v1, d1, v2, d2);
                        assert forall|g: nat| g > unvisited_k(dkm(start), start.visited_types@) implies #[trigger] walk_impl_items(dkm(start), g, dstate(start), imp.items@)
                            == walk_impl_items(dkm(start), g, dstate(*self), imp.items@.skip(i + 1)) by {
                            assert(walk_inputs(dkm(sa), g, dstate(sa), sig.inputs@) == dstate(sb));
                            assert(walk_output(dkm(sb), g, dstate(sb), sig.output) == dstate(*self));
                            assert(walk_impl_items(dkm(start), g, dstate(sa), imp.items@.skip(i as int))
                                == walk_impl_items(dkm(start), g, walk_sig(dkm(start), g, dstate(sa), *sig), imp.items@.skip(i + 1)));
                        }
                        lemma_disc_trans(dmodels(self.structs@, self.enums@, strs_of(self.resource_types@).to_set()), v1, d1, v2, d2, self.visited_types@, self.type_defs@);
                        lemma_disc_trans(dmodels(start.structs@, start.enums@, strs_of(start.resource_types@).to_set()), start.visited_types@, start.type_defs@, v1, d1, self.visited_types@, self.type_defs@);
                        lemma_reach_mono(v1, self.visited_types@);
                        lemma_reach_mono(v2, self.visited_types@);
                        lemma_fns_within_mono(methods@, reach(v1), reach(self.visited_types@));
                        lemma_fns_within_mono(statics@, reach(v1), reach(self.visited_types@));
                        if ctor is Some {
                            lemma_fn_within_mono(ex_fn_of(ctor->0), reach(v1), reach(self.visited_types@));
                        }
                    }
                    let return_type = match rt {
                        Some(t) => Some(replace_self_type(t, owner.as_str())),
                        None => None,
                    };
                    let has_self = sig_has_receiver(sig);
                    let is_mut_self = sig_has_mut_receiver(sig);
                    proof {
                        if rt is Some {
                            lemma_replace_self_names(rt->0@, ow);
                        }
                    }
                    let func = ExportedFunction { name: sig.name.clone(), params, return_type, is_async: sig.is_async, is_mut_self };
                    assert(fn_within(ex_fn_of(func), reach(self.visited_types@)));
                    assert(ex_fn_of(func) == method_model(res, *sig, ow));
                    if is_constructor(sig.name.as_str(), sig, owner.as_str()) {
                        ctor = Some(func);
                        proof {
                            assert(ex_parts(ctor, methods@, statics@).methods =~= acc.methods + Seq::empty());
                            assert(ex_parts(ctor, methods@, statics@).statics =~= acc.statics + Seq::empty());
                        }
                    } else if has_self {
                        let ghost before = ex_fns_of(methods@);
                        methods.push(func);
                        proof {
                            assert(ex_fns_of(methods@) =~= before + seq![ex_fn_of(func)]);
                            assert(ex_parts(ctor, methods@, statics@).statics =~= acc.statics + Seq::empty());
                        }
                    } else {
                        let ghost before = ex_fns_of(statics@);
                        statics.push(func);
                        proof {
                            assert(ex_fns_of(statics@) =~= before + seq![ex_fn_of(func)]);
                            assert(ex_parts(ctor, methods@, statics@).methods =~= acc.methods + Seq::empty());
                        }
                    }
                    assert(ex_parts(ctor, methods@, statics@) == combine(acc, method_part_of(res, imp.items@[i as int], ow)));
                },
                ImplItemDef::Other => {
                    proof {
                        lemma_combine_empty(acc);
                        assert forall|g: nat| g > unvisited_k(dkm(start), start.visited_types@) implies #[trigger] walk_impl_items(dkm(start), g, dstate(start), imp.items@)
                            == walk_impl_items(dkm(start), g, dstate(*self), imp.items@.skip(i + 1)) by {
                            assert(walk_impl_items(dkm(start), g, dstate(sa), imp.items@.skip(i as int))
                                == walk_impl_items(dkm(start), g, dstate(sa), imp.items@.skip(i + 1)));
                        }
                    }
                },
            }
            i = i + 1;
        }
        proof {
            assert(imp.items@.skip(imp.items.len() as int) =~= Seq::<ImplItemDef>::empty());
            lemma_combine_empty(ex_parts(ctor, methods@, statics@));
            assert forall|g: nat| g > unvisited_k(dkm(start), start.visited_types@) implies #[trigger] walk_impl_items(dkm(start), g, dstate(start), imp.items@)
                == dstate(*self) by {
                assert(walk_impl_items(dkm(start), g, dstate(*self), imp.items@.skip(imp.items.len() as int)) == dstate(*self));
            }
        }
        ExportedImpl { impl_name: owner, constructor: ctor, methods, static_funcs: statics }
    }
}


// ---------------------------------------------------------------------------
// Processing items
// ---------------------------------------------------------------------------

/// The struct definitions among `items`, in order.
pub open spec fn item_structs(items: Seq<RustItem>) -> Seq<StructDef>
    decreases items.len(),
{
    if items.len() == 0 {
        Seq::empty()
    } else {
        let pre = item_structs(items.drop_last());
        match items.last() {
            RustItem::Struct(sd) => pre.push(sd),
            _ => pre,
        }
    }
}

/// The enum definitions among `items`, in order.
pub open spec fn item_enums(items: Seq<RustItem>) -> Seq<EnumDef>
    decreases items.len(),
{
    if items.len() == 0 {
        Seq::empty()
    } else {
        let pre = item_enums(items.drop_last());
        match items.last() {
            RustItem::Enum(ed) => pre.push(ed),
            _ => pre,
        }
    }
}

/// Whether an item is an exported impl block for the type named `n`.
pub open spec fn exports_impl_of(it: RustItem, n: Seq<char>) -> bool {
    it matches RustItem::Impl(imp) && has_export(imp.attrs@) && impl_type_name_spec(imp.self_ty) == Some(n)
}

/// The resource types: the names of the types of exported impl blocks.
pub open spec fn exported_impl_names(items: Seq<RustItem>) -> Set<Seq<char>> {
    Set::new(|n: Seq<char>| exists|i: int| 0 <= i < items.len() && exports_impl_of(#[trigger] items[i], n))
}

/// The exported free functions among `items`, in order.
pub open spec fn exported_fns(res: Set<Seq<char>>, items: Seq<RustItem>) -> Seq<FnModel>
    decreases items.len(),
{
    if items.len() == 0 {
        Seq::empty()
    } else {
        let rest = exported_fns(res, items.drop_first());
        match items[0] {
            RustItem::Fn(f) => if has_export(f.attrs@) { seq![fn_item_model(res, f.sig)] + rest } else { rest },
            _ => rest,
        }
    }
}

/// The exported impl blocks among `items`, in order.
pub open spec fn exported_impls(res: Set<Seq<char>>, items: Seq<RustItem>) -> Seq<ImplModel>
    decreases items.len(),
{
    if items.len() == 0 {
        Seq::empty()
    } else {
        let rest = exported_impls(res, items.drop_first());
        match items[0] {
            RustItem::Impl(imp) => if has_export(imp.attrs@) { seq![impl_item_model(res, imp)] + rest } else { rest },
            _ => rest,
        }
    }
}

/// An item with a struct or enum definition taken out.
pub open spec fn without_defs(it: RustItem) -> RustItem {
    match it {
        RustItem::Struct(_) => RustItem::Other,
        RustItem::Enum(_) => RustItem::Other,
        _ => it,
    }
}

proof fn lemma_without_defs(res: Set<Seq<char>>, a: Seq<RustItem>, b: Seq<RustItem>)
    requires
        a.len() == b.len(),
        forall|j: int| 0 <= j < a.len() ==> b[j] == without_defs(#[trigger] a[j]),
    ensures
        exported_fns(res, a) == exported_fns(res, b),
        exported_impls(res, a) == exported_impls(res, b),
    decreases a.len(),
{
    if a.len() > 0 {
        assert forall|j: int| 0 <= j < a.drop_first().len() implies b.drop_first()[j] == without_defs(#[trigger] a.drop_first()[j]) by {
            assert(a.drop_first()[j] == a[j + 1]);
        }
        lemma_without_defs(res, a.drop_first(), b.drop_first());
        assert(b[0] == without_defs(a[0]));
    }
}

impl TypeDiscovery {
    /// Process the items given to the component: register their struct and
    /// enum definitions (a later definition of a name takes precedence) and
    /// the resource types of exported impl blocks, then extract the exported
    /// functions and impl blocks, in order.
    pub fn process_items(&mut self, items: Vec<RustItem>)
        ensures
            final(self).structs@ == old(self).structs@ + item_structs(items@),
            final(self).enums@ == old(self).enums@ + item_enums(items@),
            strs_of(final(self).resource_types@).to_set() == strs_of(old(self).resource_types@).to_set() + exported_impl_names(items@),
            ex_fns_of(final(self).functions@) == ex_fns_of(old(self).functions@)
                + exported_fns(strs_of(final(self).resource_types@).to_set(), items@),
            ex_impls_of(final(self).impls@) == ex_impls_of(old(self).impls@)
                + exported_impls(strs_of(final(self).resource_types@).to_set(), items@),
            disc_step(dmodels(final(self).structs@, final(self).enums@, strs_of(final(self).resource_types@).to_set()), old(self).visited_types@, old(self).type_defs@,
                final(self).visited_types@, final(self).type_defs@),
            fns_within(final(self).functions@, old(self).functions@.len() as int, reach(final(self).visited_types@)),
            impls_within(final(self).impls@, old(self).impls@.len() as int, reach(final(self).visited_types@)),
            old(self).visited_types@.len() == 0 && old(self).type_defs@.len() == 0 && old(self).functions@.len() == 0
                && old(self).impls@.len() == 0 ==> discovery_closed(*final(self)),
            forall|g: nat| g > unvisited_k(dkm(*final(self)), old(self).visited_types@) ==> #[trigger] walk_items(dkm(*final(self)), g, dstate(*old(self)), items@) == dstate(*final(self)),
    {
        let ghost orig = items@;
        assert(orig.len() == items.len());
        let ghost start = *self;
        let ghost r0 = strs_of(self.resource_types@).to_set();
        let mut items = items;
        let mut rest: Vec<RustItem> = Vec::new();
        let mut k: usize = 0;
        proof {
            assert(orig.take(0) =~= Seq::<RustItem>::empty());
            assert(exported_impl_names(orig.take(0)) =~= Set::<Seq<char>>::empty());
            assert(r0 + Set::<Seq<char>>::empty() =~= r0);
        }
        while items.len() > 0
            invariant
                orig.len() <= usize::MAX,
                k + items@.len() == orig.len(),
                items@ == orig.skip(k as int),
                rest@.len() == k,
                forall|j: int| 0 <= j < k ==> rest@[j] == without_defs(#[trigger] orig[j]),
                self.structs@ == start.structs@ + item_structs(orig.take(k as int)),
                self.enums@ == start.enums@ + item_enums(orig.take(k as int)),
                strs_of(self.resource_types@).to_set() == r0 + exported_impl_names(orig.take(k as int)),
                r0 == strs_of(start.resource_types@).to_set(),
                self.functions@ == start.functions@,
                self.impls@ == start.impls@,
                self.visited_types@ == start.visited_types@,
                self.type_defs@ == start.type_defs@,
            decreases items.len(),
        {
            let it = items.remove(0);
            let ghost cur = orig[k as int];
            proof {
                assert(it == cur);
                assert(orig.take(k + 1).drop_last() == orig.take(k as int));
                assert(orig.take(k + 1).last() == cur);
                assert(orig.skip(k as int).drop_first() == orig.skip(k + 1));
            }
            let ghost names_before = exported_impl_names(orig.take(k as int));
            let ghost names_after = exported_impl_names(orig.take(k + 1));
            match it {
                RustItem::Struct(sd) => {
                    self.structs.push(sd);
                    rest.push(RustItem::Other);
                },
                RustItem::Enum(ed) => {
                    self.enums.push(ed);
                    rest.push(RustItem::Other);
                },
                RustItem::Impl(imp) => {
                    if has_export_attr(&imp.attrs) {
                        match impl_type_name(&imp) {
                            Some(n) => {
                                if !crate::ts_project::contains_str(self.resource_types.as_slice(), n.as_str()) {
                                    let ghost before = strs_of(self.resource_types@);
                                    self.resource_types.push(n);
                                    proof {
                                        assert(strs_of(self.resource_types@) =~= before.push(n@));
                                        before.lemma_push_to_set_commute(n@);
                                    }
                                }
                            },
                            None => {},
                        }
                    }
                    rest.push(RustItem::Impl(imp));
                },
                other => {
                    rest.push(other);
                },
            }
            proof {
                assert(forall|j: int| 0 <= j < k + 1 ==> rest@[j] == without_defs(#[trigger] orig[j])) by {
                    assert(rest@[k as int] == without_defs(orig[k as int]));
                }
                assert(self.structs@ =~= start.structs@ + item_structs(orig.take(k + 1)));
                assert(self.enums@ =~= start.enums@ + item_enums(orig.take(k + 1)));
                assert(strs_of(self.resource_types@).to_set() =~= r0 + names_after) by {
                    assert forall|n: Seq<char>| names_after.contains(n) <==> (names_before.contains(n) || exports_impl_of(cur, n)) by {
                        if names_after.contains(n) {
                            let i = choose|i: int| 0 <= i < orig.take(k + 1).len() && exports_impl_of(#[trigger] orig.take(k + 1)[i], n);
                            if i < k {
                                assert(orig.take(k as int)[i] == orig.take(k + 1)[i]);
                            }
                        }
                        if names_before.contains(n) {
                            let i = choose|i: int| 0 <= i < orig.take(k as int).len() && exports_impl_of(#[trigger] orig.take(k as int)[i], n);
                            assert(orig.take(k + 1)[i] == orig.take(k as int)[i]);
                        }
                        if exports_impl_of(cur, n) {
                            assert(orig.take(k + 1)[k as int] == cur);
                        }
                    }
                }
            }
            k = k + 1;
        }
        proof {
            assert(orig.take(k as int) == orig);
            lemma_without_defs(strs_of(self.resource_types@).to_set(), orig, rest@);
        }
        let ghost res = strs_of(self.resource_types@).to_set();
        let ghost mid = *self;
        proof { lemma_disc_refl(dmodels(self.structs@, self.enums@, strs_of(self.resource_types@).to_set()), self.visited_types@, self.type_defs@); }
        let mut i: usize = 0;
        assert(rest@.skip(0) == rest@);
        assert(ex_fns_of(self.functions@) + exported_fns(res, rest@) == ex_fns_of(start.functions@) + exported_fns(res, rest@));
        while i < rest.len()
            invariant
                i <= rest.len(),
                res == strs_of(self.resource_types@).to_set(),
                self.structs@ == mid.structs@,
                self.enums@ == mid.enums@,
                self.resource_types@ == mid.resource_types@,
                disc_step(dmodels(mid.structs@, mid.enums@, strs_of(mid.resource_types@).to_set()), mid.visited_types@, mid.type_defs@, self.visited_types@, self.type_defs@),
                mid.functions@ == start.functions@,
                mid.impls@ == start.impls@,
                mid.visited_types@ == start.visited_types@,
                mid.type_defs@ == start.type_defs@,
                fns_within(self.functions@, start.functions@.len() as int, reach(self.visited_types@)),
                impls_within(self.impls@, start.impls@.len() as int, reach(self.visited_types@)),
                ex_fns_of(self.functions@) + exported_fns(res, rest@.skip(i as int)) == ex_fns_of(start.functions@) + exported_fns(res, rest@),
                ex_impls_of(self.impls@) + exported_impls(res, rest@.skip(i as int)) == ex_impls_of(start.impls@) + exported_impls(res, rest@),
                forall|g: nat| g > unvisited_k(dkm(mid), mid.visited_types@) ==> #[trigger] walk_items(dkm(mid), g, dstate(mid), rest@)
                    == walk_items(dkm(mid), g, dstate(*self), rest@.skip(i as int)),
            decreases rest.len() - i,
        {
            let ghost (v1, d1) = (self.visited_types@, self.type_defs@);
            let ghost sa = *self;
            proof {
                assert(dkm(sa) == dkm(mid));
                lemma_unvisited_k_mono(dkm(mid), mid.visited_types@, mid.type_defs@, v1, d1);
                assert forall|g: nat| g > unvisited_k(dkm(mid), mid.visited_types@) implies #[trigger] walk_items(dkm(mid), g, dstate(mid), rest@)
                    == walk_items(dkm(mid), g, walk_item(dkm(mid), g, dstate(sa), rest@[i as int]), rest@.skip(i + 1)) by {
                    assert(rest@.skip(i as int)[0] == rest@[i as int]);
                    assert(rest@.skip(i as int).drop_first() == rest@.skip(i + 1));
                }
                assert(rest@.skip(i as int)[0] == rest@[i as int]);
                assert(rest@.skip(i as int).drop_first() == rest@.skip(i + 1));
            }
            match &rest[i] {
                RustItem::Fn(f) => {
                    if has_export_attr(&f.attrs) {
                        let func = self.extract_function(f);
                        proof {
                            assert(rest@[i as int] == RustItem::Fn(*f));
                            assert forall|g: nat| g > unvisited_k(dkm(mid), mid.visited_types@) implies #[trigger] walk_items(dkm(mid), g, dstate(mid), rest@)
                                == walk_items(dkm(mid), g, dstate(*self), rest@.skip(i + 1)) by {
                                assert(walk_sig(dkm(sa), g, dstate(sa), f.sig) == dstate(*self));
                            }
                            lemma_reach_mono(v1, self.visited_types@);
                            lemma_fns_from_mono(self.functions@, start.functions@.len() as int, reach(v1), reach(self.visited_types@));
                            lemma_impls_from_mono(self.impls@, start.impls@.len() as int, reach(v1), reach(self.visited_types@));
                        }
                        let ghost before = ex_fns_of(self.functions@);
                        self.functions.push(func);
                        proof {
                            assert(ex_fns_of(self.functions@) =~= before.push(ex_fn_of(func)));
                            assert(ex_fns_of(self.functions@) + exported_fns(res, rest@.skip(i + 1))
                                =~= before + exported_fns(res, rest@.skip(i as int)));
                            lemma_disc_trans(dmodels(self.structs@, self.enums@, strs_of(self.resource_types@).to_set()), mid.visited_types@, mid.type_defs@, v1, d1, self.visited_types@, self.type_defs@);
                        }
                    } else {
                        proof {
                            assert forall|g: nat| g > unvisited_k(dkm(mid), mid.visited_types@) implies #[trigger] walk_items(dkm(mid), g, dstate(mid), rest@)
                                == walk_items(dkm(mid), g, dstate(*self), rest@.skip(i + 1)) by {
                                assert(walk_item(dkm(mid), g, dstate(sa), rest@[i as int]) == dstate(sa));
                            }
                        }
                    }
                },
                RustItem::Impl(imp) => {
                    if has_export_attr(&imp.attrs) {
                        let extracted = self.extract_impl(imp);
                        proof {
                            assert(rest@[i as int] == RustItem::Impl(*imp));
                            assert forall|g: nat| g > unvisited_k(dkm(mid), mid.visited_types@) implies #[trigger] walk_items(dkm(mid), g, dstate(mid), rest@)
                                == walk_items(dkm(mid), g, dstate(*self), rest@.skip(i + 1)) by {
                                assert(walk_impl_items(dkm(sa), g, dstate(sa), imp.items@) == dstate(*self));
                            }
                            lemma_reach_mono(v1, self.visited_types@);
                            lemma_fns_from_mono(self.functions@, start.functions@.len() as int, reach(v1), reach(self.visited_types@));
                            lemma_impls_from_mono(self.impls@, start.impls@.len() as int, reach(v1), reach(self.visited_types@));
                        }
                        let ghost before = ex_impls_of(self.impls@);
                        self.impls.push(extracted);
                        proof {
                            assert(ex_impls_of(self.impls@) =~= before.push(ex_impl_of(extracted)));
                            assert(ex_impls_of(self.impls@) + exported_impls(res, rest@.skip(i + 1))
                                =~= before + exported_impls(res, rest@.skip(i as int)));
                            lemma_disc_trans(dmodels(self.structs@, self.enums@, strs_of(self.resource_types@).to_set()), mid.visited_types@, mid.type_defs@, v1, d1, self.visited_types@, self.type_defs@);
                        }
                    } else {
                        proof {
                            assert forall|g: nat| g > unvisited_k(dkm(mid), mid.visited_types@) implies #[trigger] walk_items(dkm(mid), g, dstate(mid), rest@)
                                == walk_items(dkm(mid), g, dstate(*self), rest@.skip(i + 1)) by {
                                assert(walk_item(dkm(mid), g, dstate(sa), rest@[i as int]) == dstate(sa));
                            }
                        }
                    }
                },
                _ => {
                    proof {
                        assert forall|g: nat| g > unvisited_k(dkm(mid), mid.visited_types@) implies #[trigger] walk_items(dkm(mid), g, dstate(mid), rest@)
                            == walk_items(dkm(mid), g, dstate(*self), rest@.skip(i + 1)) by {
                            assert(walk_item(dkm(mid), g, dstate(sa), rest@[i as int]) == dstate(sa));
                        }
                    }
                },
            }
            i = i + 1;
        }
        assert(rest@.skip(rest.len() as int) =~= Seq::<RustItem>::empty());
        assert(ex_fns_of(self.functions@) =~= ex_fns_of(start.functions@) + exported_fns(res, rest@));
        assert(ex_impls_of(self.impls@) =~= ex_impls_of(start.impls@) + exported_impls(res, rest@));
        proof {
            assert(dkm(mid) == dkm(*self));
            assert(dstate(mid) == dstate(start));
            assert forall|g: nat| g > unvisited_k(dkm(*self), start.visited_types@) implies #[trigger] walk_items(dkm(*self), g, dstate(start), orig)
                == dstate(*self) by {
                lemma_walk_without_defs(dkm(*self), g, dstate(start), orig, rest@);
                assert(walk_items(dkm(mid), g, dstate(*self), rest@.skip(rest.len() as int)) == dstate(*self));
            }
            if start.visited_types@.len() == 0 && start.type_defs@.len() == 0 && start.functions@.len() == 0
                && start.impls@.len() == 0 {
                assert(strs_of(start.visited_types@).to_set() =~= Set::<Seq<char>>::empty());
                assert(defs_within(sdefs_of(start.type_defs@), reach(start.visited_types@)));
                assert forall|n: Seq<char>|
                    #[trigger] strs_of(self.visited_types@).to_set().contains(n) && known_names(self.structs@, self.enums@).contains(n)
                    implies defined_in(sdefs_of(self.type_defs@), n) by {
                    assert(!strs_of(start.visited_types@).to_set().contains(n));
                    lemma_def_model_of(self.structs@, self.enums@, strs_of(self.resource_types@).to_set(), n);
                    assert(dmodels(self.structs@, self.enums@, strs_of(self.resource_types@).to_set())(n) is Some);
                }
            }
        }
    }
}


/// The items of `items` with inline modules replaced by their items, recursively.
pub open spec fn flat_items(items: Seq<RustItem>) -> Seq<RustItem>
    decreases items,
{
    if items.len() == 0 {
        Seq::empty()
    } else {
        (match items[0] {
            RustItem::Mod { name: _, items: inner } => flat_items(inner@),
            x => seq![x],
        }) + flat_items(items.drop_first())
    }
}

/// `acc` with each struct of `items` appended whose name it does not define yet.
pub open spec fn keep_first_structs(acc: Seq<StructDef>, items: Seq<RustItem>) -> Seq<StructDef>
    decreases items.len(),
{
    if items.len() == 0 {
        acc
    } else {
        let next = match items[0] {
            RustItem::Struct(sd) => if struct_named(acc, sd.name@) is Some { acc } else { acc.push(sd) },
            _ => acc,
        };
        keep_first_structs(next, items.drop_first())
    }
}

/// `acc` with each enum of `items` appended whose name it does not define yet.
pub open spec fn keep_first_enums(acc: Seq<EnumDef>, items: Seq<RustItem>) -> Seq<EnumDef>
    decreases items.len(),
{
    if items.len() == 0 {
        acc
    } else {
        let next = match items[0] {
            RustItem::Enum(ed) => if enum_named(acc, ed.name@) is Some { acc } else { acc.push(ed) },
            _ => acc,
        };
        keep_first_enums(next, items.drop_first())
    }
}

proof fn lemma_keep_first_concat(s: Seq<StructDef>, e: Seq<EnumDef>, a: Seq<RustItem>, b: Seq<RustItem>)
    ensures
        keep_first_structs(s, a + b) == keep_first_structs(keep_first_structs(s, a), b),
        keep_first_enums(e, a + b) == keep_first_enums(keep_first_enums(e, a), b),
    decreases a.len(),
{
    if a.len() == 0 {
        assert(a + b =~= b);
    } else {
        assert((a + b)[0] == a[0]);
        assert((a + b).drop_first() =~= a.drop_first() + b);
        let s2 = match a[0] {
            RustItem::Struct(sd) => if struct_named(s, sd.name@) is Some { s } else { s.push(sd) },
            _ => s,
        };
        let e2 = match a[0] {
            RustItem::Enum(ed) => if enum_named(e, ed.name@) is Some { e } else { e.push(ed) },
            _ => e,
        };
        lemma_keep_first_concat(s2, e2, a.drop_first(), b);
    }
}

/// The number of items, those inside inline modules included.
pub open spec fn item_count(items: Seq<RustItem>) -> nat
    decreases items,
{
    if items.len() == 0 {
        0
    } else {
        (match items[0] {
            RustItem::Mod { name: _, items: inner } => item_count(inner@) + 1,
            _ => 1,
        }) + item_count(items.drop_first())
    }
}

impl TypeDiscovery {
    /// Register the struct and enum definitions found in a source file,
    /// inline modules included; a name already defined keeps its definition.
    pub fn collect_external_types(&mut self, items: Vec<RustItem>)
        ensures
            final(self).structs@ == keep_first_structs(old(self).structs@, flat_items(items@)),
            final(self).enums@ == keep_first_enums(old(self).enums@, flat_items(items@)),
            final(self).functions@ == old(self).functions@,
            final(self).impls@ == old(self).impls@,
            final(self).type_defs@ == old(self).type_defs@,
            final(self).visited_types@ == old(self).visited_types@,
            final(self).resource_types@ == old(self).resource_types@,
    {
        let ghost n = item_count(items@);
        self.collect_items(items, Ghost(n));
    }

    fn collect_items(&mut self, items: Vec<RustItem>, Ghost(budget): Ghost<nat>)
        requires
            item_count(items@) <= budget,
        ensures
            final(self).structs@ == keep_first_structs(old(self).structs@, flat_items(items@)),
            final(self).enums@ == keep_first_enums(old(self).enums@, flat_items(items@)),
            final(self).functions@ == old(self).functions@,
            final(self).impls@ == old(self).impls@,
            final(self).type_defs@ == old(self).type_defs@,
            final(self).visited_types@ == old(self).visited_types@,
            final(self).resource_types@ == old(self).resource_types@,
        decreases budget,
    {
        let ghost orig = items@;
        assert(orig.len() == items.len());
        let ghost start = *self;
        let mut items = items;
        let mut k: usize = 0;
        assert(orig.skip(0) == orig);
        while items.len() > 0
            invariant
                orig.len() <= usize::MAX,
                k + items@.len() == orig.len(),
                items@ == orig.skip(k as int),
                item_count(orig.skip(k as int)) <= budget,
                keep_first_structs(self.structs@, flat_items(orig.skip(k as int))) == keep_first_structs(start.structs@, flat_items(orig)),
                keep_first_enums(self.enums@, flat_items(orig.skip(k as int))) == keep_first_enums(start.enums@, flat_items(orig)),
                self.functions@ == start.functions@,
                self.impls@ == start.impls@,
                self.type_defs@ == start.type_defs@,
                self.visited_types@ == start.visited_types@,
                self.resource_types@ == start.resource_types@,
            decreases items.len(),
        {
            let it = items.remove(0);
            let ghost cur = orig[k as int];
            let ghost tail = flat_items(orig.skip(k + 1));
            proof {
                assert(it == cur);
                assert(orig.skip(k as int)[0] == cur);
                assert(orig.skip(k as int).drop_first() == orig.skip(k + 1));
            }
            match it {
                RustItem::Struct(sd) => {
                    proof {
                        assert(flat_items(orig.skip(k as int)) == seq![RustItem::Struct(sd)] + tail);
                        assert((seq![RustItem::Struct(sd)] + tail)[0] == RustItem::Struct(sd));
                        assert((seq![RustItem::Struct(sd)] + tail).drop_first() =~= tail);
                    }
                    if find_struct(&self.structs, sd.name.as_str()).is_none() {
                        self.structs.push(sd);
                    }
                },
                RustItem::Enum(ed) => {
                    proof {
                        assert(flat_items(orig.skip(k as int)) == seq![RustItem::Enum(ed)] + tail);
                        assert((seq![RustItem::Enum(ed)] + tail)[0] == RustItem::Enum(ed));
                        assert((seq![RustItem::Enum(ed)] + tail).drop_first() =~= tail);
                    }
                    if find_enum(&self.enums, ed.name.as_str()).is_none() {
                        self.enums.push(ed);
                    }
                },
                RustItem::Mod { name: _, items: inner } => {
                    let ghost (s0, e0) = (self.structs@, self.enums@);
                    proof {
                        assert(flat_items(orig.skip(k as int)) == flat_items(inner@) + tail);
                        lemma_keep_first_concat(s0, e0, flat_items(inner@), tail);
                        assert(item_count(orig.skip(k as int)) == item_count(inner@) + 1 + item_count(orig.skip(k + 1)));
                    }
                    self.collect_items(inner, Ghost((budget - 1) as nat));
                },
                other => {
                    proof {
                        assert(flat_items(orig.skip(k as int)) == seq![other] + tail);
                        assert((seq![other] + tail)[0] == other);
                        assert((seq![other] + tail).drop_first() =~= tail);
                    }
                },
            }
            k = k + 1;
        }
        assert(orig.skip(k as int) =~= Seq::<RustItem>::empty());
    }
}

} // verus!
