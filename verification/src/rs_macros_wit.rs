//! Inline WIT text for the `component!` macro, generated from the discovered
//! exports.
use vstd::prelude::*;
use crate::rs_macros_extract::{
    opt_rtype, rparams_of, ExportedFunction, ExportedImpl, ResolvedEnum, ResolvedRecord,
    ResolvedType, ResolvedTypeDef, ResolvedVariant, TypeDiscovery,
};
use crate::ts_types::WitTy;
use crate::wit_common::kebab_case;

verus! {

/// Convert a Rust identifier to WIT kebab-case.
pub fn to_kebab_case(s: &str) -> (r: String)
    ensures
        r@ == kebab_case(s@),
{
    crate::wit_common::to_kebab_case(s)
}

/// The WIT syntax of a resolved type; names are written in kebab case.
pub open spec fn rtype_text(t: WitTy) -> Seq<char>
    decreases t, 1nat,
{
    match t {
        WitTy::Bool => "bool"@,
        WitTy::U8 => "u8"@,
        WitTy::U16 => "u16"@,
        WitTy::U32 => "u32"@,
        WitTy::U64 => "u64"@,
        WitTy::S8 => "s8"@,
        WitTy::S16 => "s16"@,
        WitTy::S32 => "s32"@,
        WitTy::S64 => "s64"@,
        WitTy::F32 => "f32"@,
        WitTy::F64 => "f64"@,
        WitTy::Char => "char"@,
        WitTy::Str => "string"@,
        WitTy::List(inner) => "list<"@ + rtype_text(*inner) + ">"@,
        WitTy::Option(inner) => "option<"@ + rtype_text(*inner) + ">"@,
        WitTy::Result { ok, err } => match (ok, err) {
            (Some(o), Some(e)) => "result<"@ + rtype_text(*o) + ", "@ + rtype_text(*e) + ">"@,
            (Some(o), None) => "result<"@ + rtype_text(*o) + ">"@,
            (None, Some(e)) => "result<_, "@ + rtype_text(*e) + ">"@,
            (None, None) => "result"@,
        },
        WitTy::Tuple(elems) => "tuple<"@ + rtypes_text(elems) + ">"@,
        WitTy::Future(inner) => match inner {
            Some(i) => "future<"@ + rtype_text(*i) + ">"@,
            None => "future"@,
        },
        WitTy::Stream(inner) => match inner {
            Some(i) => "stream<"@ + rtype_text(*i) + ">"@,
            None => "stream"@,
        },
        WitTy::Named(name) => kebab_case(name),
        WitTy::Own(name) => kebab_case(name),
        WitTy::Borrow(name) => "borrow<"@ + kebab_case(name) + ">"@,
    }
}

/// The WIT syntax of resolved types separated by `, `.
pub open spec fn rtypes_text(ts: Seq<WitTy>) -> Seq<char>
    decreases ts, 0nat,
{
    if ts.len() == 0 {
        Seq::empty()
    } else if ts.len() == 1 {
        rtype_text(ts[0])
    } else {
        rtypes_text(ts.drop_last()) + ", "@ + rtype_text(ts.last())
    }
}

} // verus!

verus! {

fn type_to_wit_opt(out: &mut String, o: &Option<Box<ResolvedType>>, open: &str, none: &str)
    ensures
        final(out)@ == old(out)@ + match crate::rs_macros_extract::opt_rty(*o) {
            Some(i) => open@ + rtype_text(*i) + ">"@,
            None => none@,
        },
    decreases *o, 3nat,
{
    match o {
        Some(b) => {
            out.push_str(open);
            write_rtype(out, &**b);
            out.push_str(">");
        },
        None => {
            out.push_str(none);
        },
    }
}

/// Appends the WIT syntax of a resolved type.
#[verifier::rlimit(50)]
fn write_rtype(out: &mut String, ty: &ResolvedType)
    ensures
        final(out)@ == old(out)@ + rtype_text(ty@),
    decreases *ty, 1nat,
{
    match ty {
        ResolvedType::Bool => { out.push_str("bool"); },
        ResolvedType::U8 => { out.push_str("u8"); },
        ResolvedType::U16 => { out.push_str("u16"); },
        ResolvedType::U32 => { out.push_str("u32"); },
        ResolvedType::U64 => { out.push_str("u64"); },
        ResolvedType::S8 => { out.push_str("s8"); },
        ResolvedType::S16 => { out.push_str("s16"); },
        ResolvedType::S32 => { out.push_str("s32"); },
        ResolvedType::S64 => { out.push_str("s64"); },
        ResolvedType::F32 => { out.push_str("f32"); },
        ResolvedType::F64 => { out.push_str("f64"); },
        ResolvedType::Char => { out.push_str("char"); },
        ResolvedType::WitString => { out.push_str("string"); },
        ResolvedType::List(inner) => {
            out.push_str("list<");
            write_rtype(out, &**inner);
            out.push_str(">");
        },
        ResolvedType::Option(inner) => {
            out.push_str("option<");
            write_rtype(out, &**inner);
            out.push_str(">");
        },
        ResolvedType::Result { ok, err } => {
            proof {
                assert(ty@ == WitTy::Result {
                    ok: crate::rs_macros_extract::opt_rty(*ok),
                    err: crate::rs_macros_extract::opt_rty(*err),
                });
            }
            match ok {
                Some(o) => {
                    assert(crate::rs_macros_extract::opt_rty(*ok) == Some(Box::new(crate::rs_macros_extract::rty_of(**o))));
                    out.push_str("result<");
                    write_rtype(out, &**o);
                    match err {
                        Some(e) => {
                            assert(crate::rs_macros_extract::opt_rty(*err) == Some(Box::new(crate::rs_macros_extract::rty_of(**e))));
                            out.push_str(", ");
                            write_rtype(out, &**e);
                        },
                        None => {},
                    }
                    out.push_str(">");
                },
                None => {
                    match err {
                        Some(e) => {
                            assert(crate::rs_macros_extract::opt_rty(*err) == Some(Box::new(crate::rs_macros_extract::rty_of(**e))));
                            out.push_str("result<_, ");
                            write_rtype(out, &**e);
                            out.push_str(">");
                        },
                        None => {
                            out.push_str("result");
                        },
                    }
                },
            }
        },
        ResolvedType::Tuple(elems) => {
            out.push_str("tuple<");
            write_rtypes(out, elems);
            out.push_str(">");
        },
        ResolvedType::Future(inner) => {
            type_to_wit_opt(out, inner, "future<", "future");
        },
        ResolvedType::Stream(inner) => {
            type_to_wit_opt(out, inner, "stream<", "stream");
        },
        ResolvedType::Named(name) => {
            let k = to_kebab_case(name.as_str());
            out.push_str(k.as_str());
        },
        ResolvedType::Own(name) => {
            let k = to_kebab_case(name.as_str());
            out.push_str(k.as_str());
        },
        ResolvedType::Borrow(name) => {
            out.push_str("borrow<");
            let k = to_kebab_case(name.as_str());
            out.push_str(k.as_str());
            out.push_str(">");
        },
    }
}

fn write_rtypes(out: &mut String, ts: &Vec<ResolvedType>)
    ensures
        final(out)@ == old(out)@ + rtypes_text(crate::rs_macros_extract::rtys_of(ts@)),
    decreases *ts, 0nat,
{
    let ghost start = out@;
    let mut i: usize = 0;
    while i < ts.len()
        invariant
            i <= ts.len(),
            out@ == start + rtypes_text(crate::rs_macros_extract::rtys_of(ts@.take(i as int))),
        decreases ts.len() - i,
    {
        proof {
            assert(decreases_to!(ts => ts@[i as int]));
            assert(ts@.take(i + 1) == ts@.take(i as int).push(ts@[i as int]));
            crate::rs_macros_extract::lemma_rtys_of_push(ts@.take(i as int), ts@[i as int]);
            crate::rs_macros_extract::lemma_rtys_of(ts@.take(i as int));
        }
        let ghost prev = crate::rs_macros_extract::rtys_of(ts@.take(i as int));
        let ghost next = crate::rs_macros_extract::rtys_of(ts@.take(i + 1));
        proof {
            assert(next.drop_last() == prev);
            assert(next.last() == crate::rs_macros_extract::rty_of(ts@[i as int]));
        }
        if i > 0 {
            out.push_str(", ");
        }
        write_rtype(out, &ts[i]);
        proof {
            if i == 0 {
                assert(next.len() == 1);
                assert(rtypes_text(next) == rtype_text(next[0]));
            }
        }
        i = i + 1;
    }
    assert(ts@.take(ts.len() as int) == ts@);
}

/// The WIT syntax of a resolved type.
pub fn type_to_wit(ty: &ResolvedType) -> (s: String)
    ensures
        s@ == rtype_text(ty@),
{
    let mut out = String::new();
    write_rtype(&mut out, ty);
    out
}

/// `name: type` pairs, names in kebab case, separated by `, `.
pub open spec fn params_wit_text(ps: Seq<(Seq<char>, WitTy)>) -> Seq<char>
    decreases ps.len(),
{
    if ps.len() == 0 {
        Seq::empty()
    } else if ps.len() == 1 {
        kebab_case(ps[0].0) + ": "@ + rtype_text(ps[0].1)
    } else {
        params_wit_text(ps.drop_last()) + ", "@ + kebab_case(ps.last().0) + ": "@ + rtype_text(ps.last().1)
    }
}

/// Parameters as WIT text.
pub fn params_to_wit(params: &[(String, ResolvedType)]) -> (s: String)
    ensures
        s@ == params_wit_text(rparams_of(params@)),
{
    let mut out = String::new();
    let ghost ps = rparams_of(params@);
    let mut i: usize = 0;
    while i < params.len()
        invariant
            i <= params.len(),
            ps == rparams_of(params@),
            out@ == params_wit_text(ps.take(i as int)),
        decreases params.len() - i,
    {
        proof {
            assert(ps.take(i + 1).drop_last() == ps.take(i as int));
            assert(ps.take(i + 1).last() == ps[i as int]);
        }
        if i > 0 {
            out.push_str(", ");
        }
        let pname = to_kebab_case(params[i].0.as_str());
        out.push_str(pname.as_str());
        out.push_str(": ");
        let pty = type_to_wit(&params[i].1);
        out.push_str(pty.as_str());
        i = i + 1;
    }
    assert(ps.take(params.len() as int) == ps);
    out
}

/// ` -> type`, or nothing for no result or the unit tuple.
pub open spec fn return_wit_text(r: Option<WitTy>) -> Seq<char> {
    match r {
        Some(t) => match t {
            WitTy::Tuple(elems) => if elems.len() == 0 { Seq::empty() } else { " -> "@ + rtype_text(t) },
            _ => " -> "@ + rtype_text(t),
        },
        None => Seq::empty(),
    }
}

/// The return clause as WIT text.
pub fn return_to_wit(ret: &Option<ResolvedType>) -> (s: String)
    ensures
        s@ == return_wit_text(opt_rtype(*ret)),
{
    let mut out = String::new();
    match ret {
        Some(ty) => {
            let unit = match ty {
                ResolvedType::Tuple(elems) => {
                    proof { crate::rs_macros_extract::lemma_rtys_of(elems@); }
                    elems.len() == 0
                },
                _ => false,
            };
            if !unit {
                out.push_str(" -> ");
                let t = type_to_wit(ty);
                out.push_str(t.as_str());
            }
        },
        None => {},
    }
    out
}

} // verus!

verus! {

/// `,` after every line but the last of `total`.
pub open spec fn comma_after(i: int, total: int) -> Seq<char> {
    if i < total - 1 { ","@ } else { Seq::empty() }
}

/// `    name: type[,]` lines of the first `n` of `total` fields.
pub open spec fn field_lines(fs: Seq<(Seq<char>, WitTy)>, n: nat) -> Seq<char>
    decreases n,
{
    if n == 0 || n > fs.len() {
        Seq::empty()
    } else {
        field_lines(fs, (n - 1) as nat) + "    "@ + kebab_case(fs[n - 1].0) + ": "@ + rtype_text(fs[n - 1].1)
            + comma_after(n - 1, fs.len() as int) + "\n"@
    }
}

/// The names of strings.
pub open spec fn names_of(s: Seq<String>) -> Seq<Seq<char>> {
    s.map_values(|x: String| x@)
}

/// `    name[,]` lines of the first `n` names.
pub open spec fn name_lines(ns: Seq<Seq<char>>, n: nat) -> Seq<char>
    decreases n,
{
    if n == 0 || n > ns.len() {
        Seq::empty()
    } else {
        name_lines(ns, (n - 1) as nat) + "    "@ + kebab_case(ns[n - 1]) + comma_after(n - 1, ns.len() as int) + "\n"@
    }
}

/// The models of variant cases.
pub open spec fn rcases_of(s: Seq<(String, Option<ResolvedType>)>) -> Seq<(Seq<char>, Option<WitTy>)> {
    s.map_values(|c: (String, Option<ResolvedType>)| (c.0@, opt_rtype(c.1)))
}

/// `    name[(type)][,]` lines of the first `n` cases.
pub open spec fn case_lines(cs: Seq<(Seq<char>, Option<WitTy>)>, n: nat) -> Seq<char>
    decreases n,
{
    if n == 0 || n > cs.len() {
        Seq::empty()
    } else {
        case_lines(cs, (n - 1) as nat) + "    "@ + kebab_case(cs[n - 1].0) + match cs[n - 1].1 {
            Some(t) => "("@ + rtype_text(t) + ")"@,
            None => Seq::empty(),
        } + comma_after(n - 1, cs.len() as int) + "\n"@
    }
}

/// A record definition followed by a blank line.
pub open spec fn record_wit_text(r: ResolvedRecord) -> Seq<char> {
    "  record "@ + kebab_case(r.name@) + " {\n"@ + field_lines(rparams_of(r.fields@), r.fields@.len())
        + "  }\n"@ + "\n"@
}

/// An enum definition followed by a blank line.
pub open spec fn enum_wit_text(e: ResolvedEnum) -> Seq<char> {
    "  enum "@ + kebab_case(e.name@) + " {\n"@ + name_lines(names_of(e.cases@), e.cases@.len()) + "  }\n"@
        + "\n"@
}

/// A variant definition followed by a blank line.
pub open spec fn variant_wit_text(v: ResolvedVariant) -> Seq<char> {
    "  variant "@ + kebab_case(v.name@) + " {\n"@ + case_lines(rcases_of(v.cases@), v.cases@.len())
        + "  }\n"@ + "\n"@
}

/// Any type definition.
pub open spec fn type_def_wit_text(d: ResolvedTypeDef) -> Seq<char> {
    match d {
        ResolvedTypeDef::Record(r) => record_wit_text(r),
        ResolvedTypeDef::Enum(e) => enum_wit_text(e),
        ResolvedTypeDef::Variant(v) => variant_wit_text(v),
    }
}

/// `async ` for an async function.
pub open spec fn async_text(is_async: bool) -> Seq<char> {
    if is_async { "async "@ } else { Seq::empty() }
}

/// A function declaration line after `indent`.
pub open spec fn function_wit_text(f: ExportedFunction, indent: Seq<char>) -> Seq<char> {
    indent + kebab_case(f.name@) + ": "@ + async_text(f.is_async) + "func("@ + params_wit_text(
        rparams_of(f.params@),
    ) + ")"@ + return_wit_text(opt_rtype(f.return_type)) + ";\n"@
}

/// A static function declaration line.
pub open spec fn static_wit_text(f: ExportedFunction) -> Seq<char> {
    "    "@ + kebab_case(f.name@) + ": static "@ + async_text(f.is_async) + "func("@ + params_wit_text(
        rparams_of(f.params@),
    ) + ")"@ + return_wit_text(opt_rtype(f.return_type)) + ";\n"@
}

/// Method lines, indented by four spaces.
pub open spec fn methods_wit_text(fs: Seq<ExportedFunction>) -> Seq<char>
    decreases fs.len(),
{
    if fs.len() == 0 {
        Seq::empty()
    } else {
        methods_wit_text(fs.drop_last()) + function_wit_text(fs.last(), "    "@)
    }
}

/// Static function lines.
pub open spec fn statics_wit_text(fs: Seq<ExportedFunction>) -> Seq<char>
    decreases fs.len(),
{
    if fs.len() == 0 {
        Seq::empty()
    } else {
        statics_wit_text(fs.drop_last()) + static_wit_text(fs.last())
    }
}

/// A resource definition followed by a blank line.
pub open spec fn resource_wit_text(imp: ExportedImpl) -> Seq<char> {
    "  resource "@ + kebab_case(imp.impl_name@) + " {\n"@ + match imp.constructor {
        Some(c) => "    constructor("@ + params_wit_text(rparams_of(c.params@)) + ");\n"@,
        None => Seq::empty(),
    } + methods_wit_text(imp.methods@) + statics_wit_text(imp.static_funcs@) + "  }\n"@ + "\n"@
}

fn emit_field_lines(wit: &mut String, fields: &Vec<(String, ResolvedType)>)
    ensures
        final(wit)@ == old(wit)@ + field_lines(rparams_of(fields@), fields@.len()),
{
    let ghost start = wit@;
    let ghost fs = rparams_of(fields@);
    let mut i: usize = 0;
    while i < fields.len()
        invariant
            i <= fields.len(),
            fs == rparams_of(fields@),
            wit@ == start + field_lines(fs, i as nat),
        decreases fields.len() - i,
    {
        let fname = to_kebab_case(fields[i].0.as_str());
        let ftype = type_to_wit(&fields[i].1);
        wit.push_str("    ");
        wit.push_str(fname.as_str());
        wit.push_str(": ");
        wit.push_str(ftype.as_str());
        if i < fields.len() - 1 {
            wit.push_str(",");
        }
        wit.push_str("\n");
        i = i + 1;
    }
}

/// Appends a record definition.
pub fn emit_record(wit: &mut String, r: &ResolvedRecord)
    ensures
        final(wit)@ == old(wit)@ + record_wit_text(*r),
{
    let name = to_kebab_case(r.name.as_str());
    wit.push_str("  record ");
    wit.push_str(name.as_str());
    wit.push_str(" {\n");
    emit_field_lines(wit, &r.fields);
    wit.push_str("  }\n");
    wit.push_str("\n");
}

/// Appends an enum definition.
pub fn emit_enum(wit: &mut String, e: &ResolvedEnum)
    ensures
        final(wit)@ == old(wit)@ + enum_wit_text(*e),
{
    let name = to_kebab_case(e.name.as_str());
    wit.push_str("  enum ");
    wit.push_str(name.as_str());
    wit.push_str(" {\n");
    let ghost start = wit@;
    let ghost ns = names_of(e.cases@);
    let mut i: usize = 0;
    while i < e.cases.len()
        invariant
            i <= e.cases.len(),
            ns == names_of(e.cases@),
            wit@ == start + name_lines(ns, i as nat),
        decreases e.cases.len() - i,
    {
        let cname = to_kebab_case(e.cases[i].as_str());
        wit.push_str("    ");
        wit.push_str(cname.as_str());
        if i < e.cases.len() - 1 {
            wit.push_str(",");
        }
        wit.push_str("\n");
        i = i + 1;
    }
    wit.push_str("  }\n");
    wit.push_str("\n");
}

/// Appends a variant definition.
pub fn emit_variant(wit: &mut String, v: &ResolvedVariant)
    ensures
        final(wit)@ == old(wit)@ + variant_wit_text(*v),
{
    let name = to_kebab_case(v.name.as_str());
    wit.push_str("  variant ");
    wit.push_str(name.as_str());
    wit.push_str(" {\n");
    let ghost start = wit@;
    let ghost cs = rcases_of(v.cases@);
    let mut i: usize = 0;
    while i < v.cases.len()
        invariant
            i <= v.cases.len(),
            cs == rcases_of(v.cases@),
            wit@ == start + case_lines(cs, i as nat),
        decreases v.cases.len() - i,
    {
        let cname = to_kebab_case(v.cases[i].0.as_str());
        wit.push_str("    ");
        wit.push_str(cname.as_str());
        match &v.cases[i].1 {
            Some(ty) => {
                let wit_ty = type_to_wit(ty);
                wit.push_str("(");
                wit.push_str(wit_ty.as_str());
                wit.push_str(")");
            },
            None => {},
        }
        if i < v.cases.len() - 1 {
            wit.push_str(",");
        }
        wit.push_str("\n");
        i = i + 1;
    }
    wit.push_str("  }\n");
    wit.push_str("\n");
}

/// Appends any type definition.
pub fn emit_type_def(wit: &mut String, td: &ResolvedTypeDef)
    ensures
        final(wit)@ == old(wit)@ + type_def_wit_text(*td),
{
    match td {
        ResolvedTypeDef::Record(r) => emit_record(wit, r),
        ResolvedTypeDef::Enum(e) => emit_enum(wit, e),
        ResolvedTypeDef::Variant(v) => emit_variant(wit, v),
    }
}

/// Appends a function declaration line after `indent`.
pub fn emit_function(wit: &mut String, func: &ExportedFunction, indent: &str)
    ensures
        final(wit)@ == old(wit)@ + function_wit_text(*func, indent@),
{
    let fname = to_kebab_case(func.name.as_str());
    let params = params_to_wit(func.params.as_slice());
    let ret = return_to_wit(&func.return_type);
    wit.push_str(indent);
    wit.push_str(fname.as_str());
    wit.push_str(": ");
    if func.is_async {
        wit.push_str("async ");
    }
    wit.push_str("func(");
    wit.push_str(params.as_str());
    wit.push_str(")");
    wit.push_str(ret.as_str());
    wit.push_str(";\n");
}

fn emit_static(wit: &mut String, func: &ExportedFunction)
    ensures
        final(wit)@ == old(wit)@ + static_wit_text(*func),
{
    let fname = to_kebab_case(func.name.as_str());
    let params = params_to_wit(func.params.as_slice());
    let ret = return_to_wit(&func.return_type);
    wit.push_str("    ");
    wit.push_str(fname.as_str());
    wit.push_str(": static ");
    if func.is_async {
        wit.push_str("async ");
    }
    wit.push_str("func(");
    wit.push_str(params.as_str());
    wit.push_str(")");
    wit.push_str(ret.as_str());
    wit.push_str(";\n");
}

/// Appends a resource definition.
pub fn emit_resource(wit: &mut String, imp: &ExportedImpl)
    ensures
        final(wit)@ == old(wit)@ + resource_wit_text(*imp),
{
    let name = to_kebab_case(imp.impl_name.as_str());
    wit.push_str("  resource ");
    wit.push_str(name.as_str());
    wit.push_str(" {\n");
    match &imp.constructor {
        Some(ctor) => {
            let params = params_to_wit(ctor.params.as_slice());
            wit.push_str("    constructor(");
            wit.push_str(params.as_str());
            wit.push_str(");\n");
        },
        None => {},
    }
    let ghost mid = wit@;
    let mut i: usize = 0;
    while i < imp.methods.len()
        invariant
            i <= imp.methods.len(),
            wit@ == mid + methods_wit_text(imp.methods@.take(i as int)),
        decreases imp.methods.len() - i,
    {
        proof {
            assert(imp.methods@.take(i + 1).drop_last() == imp.methods@.take(i as int));
        }
        emit_function(wit, &imp.methods[i], "    ");
        i = i + 1;
    }
    assert(imp.methods@.take(imp.methods.len() as int) == imp.methods@);
    let ghost mid2 = wit@;
    let mut j: usize = 0;
    while j < imp.static_funcs.len()
        invariant
            j <= imp.static_funcs.len(),
            wit@ == mid2 + statics_wit_text(imp.static_funcs@.take(j as int)),
        decreases imp.static_funcs.len() - j,
    {
        proof {
            assert(imp.static_funcs@.take(j + 1).drop_last() == imp.static_funcs@.take(j as int));
        }
        emit_static(wit, &imp.static_funcs[j]);
        j = j + 1;
    }
    assert(imp.static_funcs@.take(imp.static_funcs.len() as int) == imp.static_funcs@);
    wit.push_str("  }\n");
    wit.push_str("\n");
}

/// Type definitions in order.
pub open spec fn type_defs_wit_text(ds: Seq<ResolvedTypeDef>) -> Seq<char>
    decreases ds.len(),
{
    if ds.len() == 0 {
        Seq::empty()
    } else {
        type_defs_wit_text(ds.drop_last()) + type_def_wit_text(ds.last())
    }
}

/// Resources in order.
pub open spec fn resources_wit_text(is: Seq<ExportedImpl>) -> Seq<char>
    decreases is.len(),
{
    if is.len() == 0 {
        Seq::empty()
    } else {
        resources_wit_text(is.drop_last()) + resource_wit_text(is.last())
    }
}

/// Function lines indented by two spaces.
pub open spec fn functions_wit_text(fs: Seq<ExportedFunction>) -> Seq<char>
    decreases fs.len(),
{
    if fs.len() == 0 {
        Seq::empty()
    } else {
        functions_wit_text(fs.drop_last()) + function_wit_text(fs.last(), "  "@)
    }
}

/// The whole WIT text: the package, one interface with the type definitions,
/// resources and functions, and a world that exports the interface.
pub open spec fn generate_wit_text(d: TypeDiscovery, package: Seq<char>, interface: Seq<char>) -> Seq<char> {
    "package "@ + package + ";\n"@ + "\n"@ + "interface "@ + interface + " {\n"@ + type_defs_wit_text(d.type_defs@)
        + resources_wit_text(d.impls@) + functions_wit_text(d.functions@) + "}\n"@ + "\n"@
        + "world component-world {\n"@ + "  export "@ + interface + ";\n"@ + "}\n"@
}

fn emit_all_type_defs(wit: &mut String, ds: &Vec<ResolvedTypeDef>)
    ensures
        final(wit)@ == old(wit)@ + type_defs_wit_text(ds@),
{
    let ghost start = wit@;
    let mut i: usize = 0;
    while i < ds.len()
        invariant
            i <= ds.len(),
            wit@ == start + type_defs_wit_text(ds@.take(i as int)),
        decreases ds.len() - i,
    {
        proof {
            assert(ds@.take(i + 1).drop_last() == ds@.take(i as int));
        }
        emit_type_def(wit, &ds[i]);
        i = i + 1;
    }
    assert(ds@.take(ds.len() as int) == ds@);
}

fn emit_all_resources(wit: &mut String, is: &Vec<ExportedImpl>)
    ensures
        final(wit)@ == old(wit)@ + resources_wit_text(is@),
{
    let ghost start = wit@;
    let mut i: usize = 0;
    while i < is.len()
        invariant
            i <= is.len(),
            wit@ == start + resources_wit_text(is@.take(i as int)),
        decreases is.len() - i,
    {
        proof {
            assert(is@.take(i + 1).drop_last() == is@.take(i as int));
        }
        emit_resource(wit, &is[i]);
        i = i + 1;
    }
    assert(is@.take(is.len() as int) == is@);
}

fn emit_all_functions(wit: &mut String, fs: &Vec<ExportedFunction>)
    ensures
        final(wit)@ == old(wit)@ + functions_wit_text(fs@),
{
    let ghost start = wit@;
    let mut i: usize = 0;
    while i < fs.len()
        invariant
            i <= fs.len(),
            wit@ == start + functions_wit_text(fs@.take(i as int)),
        decreases fs.len() - i,
    {
        proof {
            assert(fs@.take(i + 1).drop_last() == fs@.take(i as int));
        }
        emit_function(wit, &fs[i], "  ");
        i = i + 1;
    }
    assert(fs@.take(fs.len() as int) == fs@);
}

/// Generate the complete WIT package string.
pub fn generate_wit(discovery: &TypeDiscovery, package: &str, interface: &str) -> (wit: String)
    ensures
        wit@ == generate_wit_text(*discovery, package@, interface@),
{
    let mut wit = String::new();
    wit.push_str("package ");
    wit.push_str(package);
    wit.push_str(";\n");
    wit.push_str("\n");
    wit.push_str("interface ");
    wit.push_str(interface);
    wit.push_str(" {\n");
    emit_all_type_defs(&mut wit, &discovery.type_defs);
    emit_all_resources(&mut wit, &discovery.impls);
    emit_all_functions(&mut wit, &discovery.functions);
    wit.push_str("}\n");
    wit.push_str("\n");
    wit.push_str("world component-world {\n");
    wit.push_str("  export ");
    wit.push_str(interface);
    wit.push_str(";\n");
    wit.push_str("}\n");
    wit
}

} // verus!
