//! The glue a component gets, written as Rust source: conversions between the
//! bindings' types and the user's, a wrapper per resource, and the `Guest`
//! implementations that delegate each export to the user's code.
use vstd::prelude::*;
use crate::ts_types::strs_of;
use crate::wit_common::kebab_case;
use crate::rs_glue::{
    snake_of, pascal, bindings_type_text, to_user_name, from_user_name, iface_path_text,
    ty_bindings, return_bindings_text, wrap_text, return_from_user_text,
};
use crate::rs_macros_extract::{
    ExportedFunction, ExportedImpl, ResolvedType, ResolvedTypeDef, ResolvedRecord, ResolvedEnum,
    ResolvedVariant, TypeDiscovery,
};
use crate::rs_discover::opt_ty_of;

verus! {

// ---------------------------------------------------------------------------
// Joining
// ---------------------------------------------------------------------------

/// The parts written one after another with `sep` between neighbours.
pub open spec fn joined(parts: Seq<Seq<char>>, sep: Seq<char>) -> Seq<char>
    decreases parts.len(),
{
    if parts.len() == 0 {
        Seq::empty()
    } else if parts.len() == 1 {
        parts[0]
    } else {
        joined(parts.drop_last(), sep) + sep + parts.last()
    }
}

proof fn lemma_map_take_push<A, B>(s: Seq<A>, f: spec_fn(A) -> B, i: int)
    requires
        0 <= i < s.len(),
    ensures
        s.take(i + 1).map_values(f) == s.take(i).map_values(f).push(f(s[i])),
{
    assert(s.take(i + 1).map_values(f) =~= s.take(i).map_values(f).push(f(s[i])));
}

proof fn lemma_strs_push(v: Seq<String>, x: String)
    ensures
        strs_of(v.push(x)) == strs_of(v).push(x@),
{
    assert(strs_of(v.push(x)) =~= strs_of(v).push(x@));
}

/// Join the strings with `sep` between neighbours.
pub fn join_strings(parts: &Vec<String>, sep: &str) -> (r: String)
    ensures
        r@ == joined(strs_of(parts@), sep@),
{
    let ghost s = strs_of(parts@);
    let mut out = String::new();
    let mut i: usize = 0;
    while i < parts.len()
        invariant
            i <= parts.len(),
            s == strs_of(parts@),
            out@ == joined(s.take(i as int), sep@),
        decreases parts.len() - i,
    {
        proof {
            assert(s.take(i + 1).drop_last() =~= s.take(i as int));
            assert(s.take(i + 1).last() == parts@[i as int]@);
        }
        if i > 0 {
            out.push_str(sep);
        }
        out.push_str(parts[i].as_str());
        proof {
            if i == 0 {
                assert(s.take(1)[0] == parts@[0]@);
            }
        }
        i = i + 1;
    }
    assert(s.take(parts.len() as int) =~= s);
    out
}

/// The identifier the bindings give a user-side name: its kebab-case form
/// with `-` written `_`.
pub open spec fn binding_ident(name: Seq<char>) -> Seq<char> {
    snake_of(kebab_case(name))
}

fn binding_ident_of(name: &str) -> (r: String)
    ensures
        r@ == binding_ident(name@),
{
    let k = crate::wit_common::to_kebab_case(name);
    crate::rs_glue::hyphens_to_underscores(k.as_str())
}

// ---------------------------------------------------------------------------
// Parameters and arguments
// ---------------------------------------------------------------------------

/// `ident: Type` for a parameter, in the bindings' terms.
pub open spec fn param_def_text(p: (String, ResolvedType), iface: Seq<char>) -> Seq<char> {
    binding_ident(p.0@) + ": "@ + ty_bindings(p.1@, iface)
}

/// The argument handed to the user's function for a parameter.
pub open spec fn param_arg_text(p: (String, ResolvedType)) -> Seq<char> {
    wrap_text(binding_ident(p.0@), p.1@, true)
}

/// The parameter list of a delegating function.
pub open spec fn param_defs_text(ps: Seq<(String, ResolvedType)>, iface: Seq<char>) -> Seq<char> {
    joined(ps.map_values(|p: (String, ResolvedType)| param_def_text(p, iface)), ", "@)
}

/// The argument list of the call to the user's function.
pub open spec fn args_text(ps: Seq<(String, ResolvedType)>) -> Seq<char> {
    joined(ps.map_values(|p: (String, ResolvedType)| param_arg_text(p)), ", "@)
}

/// The parameter list of a delegating function.
pub fn param_defs(ps: &Vec<(String, ResolvedType)>, iface: &str) -> (r: String)
    ensures
        r@ == param_defs_text(ps@, iface@),
{
    let ghost f = |p: (String, ResolvedType)| param_def_text(p, iface@);
    let mut parts: Vec<String> = Vec::new();
    let mut i: usize = 0;
    while i < ps.len()
        invariant
            i <= ps.len(),
            f == (|p: (String, ResolvedType)| param_def_text(p, iface@)),
            strs_of(parts@) == ps@.take(i as int).map_values(f),
        decreases ps.len() - i,
    {
        let mut s = binding_ident_of(ps[i].0.as_str());
        s.push_str(": ");
        let t = crate::rs_glue::type_as_bindings(&ps[i].1, iface);
        s.push_str(t.as_str());
        proof {
            lemma_strs_push(parts@, s);
            lemma_map_take_push(ps@, f, i as int);
        }
        parts.push(s);
        i = i + 1;
    }
    assert(ps@.take(ps.len() as int) =~= ps@);
    join_strings(&parts, ", ")
}

/// The argument list of the call to the user's function.
pub fn args_list(ps: &Vec<(String, ResolvedType)>) -> (r: String)
    ensures
        r@ == args_text(ps@),
{
    let ghost f = |p: (String, ResolvedType)| param_arg_text(p);
    let mut parts: Vec<String> = Vec::new();
    let mut i: usize = 0;
    while i < ps.len()
        invariant
            i <= ps.len(),
            f == (|p: (String, ResolvedType)| param_arg_text(p)),
            strs_of(parts@) == ps@.take(i as int).map_values(f),
        decreases ps.len() - i,
    {
        let id = binding_ident_of(ps[i].0.as_str());
        let s = crate::rs_glue::wrap_to_user_expr(id.as_str(), &ps[i].1);
        proof {
            lemma_strs_push(parts@, s);
            lemma_map_take_push(ps@, f, i as int);
        }
        parts.push(s);
        i = i + 1;
    }
    assert(ps@.take(ps.len() as int) =~= ps@);
    join_strings(&parts, ", ")
}

// ---------------------------------------------------------------------------
// Delegations
// ---------------------------------------------------------------------------

/// `async ` for an async function, nothing otherwise.
pub open spec fn async_kw(is_async: bool) -> Seq<char> {
    if is_async { "async "@ } else { Seq::empty() }
}

/// A call, awaited when the function is async.
pub open spec fn awaited(call: Seq<char>, is_async: bool) -> Seq<char> {
    if is_async { call + ".await"@ } else { call }
}

/// A delegating function: its head, parameter list, return annotation and body.
#[verifier::opaque]
pub open spec fn delegation_text(f: ExportedFunction, params: Seq<char>, iface: Seq<char>, call: Seq<char>) -> Seq<char> {
    async_kw(f.is_async) + "fn "@ + binding_ident(f.name@) + "("@ + params + ") "@
        + return_bindings_text(opt_ty_of(f.return_type), iface) + " {\n"@
        + return_from_user_text(awaited(call, f.is_async), opt_ty_of(f.return_type)) + "\n}\n"@
}

/// The delegation of an exported free function.
pub open spec fn fn_delegation_text(f: ExportedFunction, iface: Seq<char>) -> Seq<char> {
    delegation_text(f, param_defs_text(f.params@, iface), iface, f.name@ + "("@ + args_text(f.params@) + ")"@)
}

/// The borrow of the wrapped value a method is called on.
pub open spec fn borrow_text(is_mut_self: bool) -> Seq<char> {
    if is_mut_self { "&mut *self.0.borrow_mut()"@ } else { "&*self.0.borrow()"@ }
}

/// The delegation of a method of an exported resource `ty`.
pub open spec fn method_delegation_text(f: ExportedFunction, ty: Seq<char>, iface: Seq<char>) -> Seq<char> {
    let params = "&self"@ + (if f.params@.len() == 0 { Seq::empty() } else { ", "@ + param_defs_text(f.params@, iface) });
    let call = ty + "::"@ + f.name@ + "("@ + borrow_text(f.is_mut_self)
        + (if f.params@.len() == 0 { Seq::empty() } else { ", "@ }) + args_text(f.params@) + ")"@;
    delegation_text(f, params, iface, call)
}

/// The delegation of a static function of an exported resource `ty`.
pub open spec fn static_delegation_text(f: ExportedFunction, ty: Seq<char>, iface: Seq<char>) -> Seq<char> {
    delegation_text(f, param_defs_text(f.params@, iface), iface, ty + "::"@ + f.name@ + "("@ + args_text(f.params@) + ")"@)
}

/// The constructor of the wrapper of resource `ty`, delegating to `ty::new`.
#[verifier::opaque]
pub open spec fn ctor_delegation_text(f: ExportedFunction, ty: Seq<char>, iface: Seq<char>) -> Seq<char> {
    "fn new("@ + param_defs_text(f.params@, iface) + ") -> Self {\n__"@ + ty + "Wrapper(std::cell::RefCell::new("@
        + ty + "::new("@ + args_text(f.params@) + ")))\n}\n"@
}

fn delegation(f: &ExportedFunction, params: &str, iface: &str, call: String) -> (r: String)
    ensures
        r@ == delegation_text(*f, params@, iface@, call@),
{
    let mut r = if f.is_async { "async ".to_string() } else { String::new() };
    proof { reveal_strlit(""); }
    r.push_str("fn ");
    r.push_str(binding_ident_of(f.name.as_str()).as_str());
    r.push_str("(");
    r.push_str(params);
    r.push_str(") ");
    r.push_str(crate::rs_glue::return_type_bindings(&f.return_type, iface).as_str());
    r.push_str(" {\n");
    let mut c = call;
    if f.is_async {
        c.push_str(".await");
    }
    r.push_str(crate::rs_glue::wrap_return_from_user(c.as_str(), &f.return_type).as_str());
    r.push_str("\n}\n");
    proof { reveal(delegation_text); }
    assert(r@ =~= delegation_text(*f, params@, iface@, call@));
    r
}

/// The delegation of an exported free function.
pub fn gen_fn_delegation(func: &ExportedFunction, iface_path: &str) -> (r: String)
    ensures
        r@ == fn_delegation_text(*func, iface_path@),
{
    let params = param_defs(&func.params, iface_path);
    let mut call = func.name.clone();
    call.push_str("(");
    call.push_str(args_list(&func.params).as_str());
    call.push_str(")");
    delegation(func, params.as_str(), iface_path, call)
}

/// The delegation of a method of an exported resource.
pub fn gen_method_delegation(func: &ExportedFunction, res_name: &str, iface_path: &str) -> (r: String)
    ensures
        r@ == method_delegation_text(*func, res_name@, iface_path@),
{
    let mut params = "&self".to_string();
    if func.params.len() > 0 {
        params.push_str(", ");
        params.push_str(param_defs(&func.params, iface_path).as_str());
    }
    let mut call = res_name.to_string();
    call.push_str("::");
    call.push_str(func.name.as_str());
    call.push_str("(");
    call.push_str(if func.is_mut_self { "&mut *self.0.borrow_mut()" } else { "&*self.0.borrow()" });
    if func.params.len() > 0 {
        call.push_str(", ");
    }
    call.push_str(args_list(&func.params).as_str());
    call.push_str(")");
    proof { reveal_strlit(""); }
    assert(params@ =~= "&self"@ + (if func.params@.len() == 0 { Seq::empty() } else { ", "@ + param_defs_text(func.params@, iface_path@) }));
    delegation(func, params.as_str(), iface_path, call)
}

/// The delegation of a static function of an exported resource.
pub fn gen_static_delegation(func: &ExportedFunction, res_name: &str, iface_path: &str) -> (r: String)
    ensures
        r@ == static_delegation_text(*func, res_name@, iface_path@),
{
    let params = param_defs(&func.params, iface_path);
    let mut call = res_name.to_string();
    call.push_str("::");
    call.push_str(func.name.as_str());
    call.push_str("(");
    call.push_str(args_list(&func.params).as_str());
    call.push_str(")");
    delegation(func, params.as_str(), iface_path, call)
}

/// The constructor of a resource's wrapper.
pub fn gen_ctor_delegation(func: &ExportedFunction, res_name: &str, iface_path: &str) -> (r: String)
    ensures
        r@ == ctor_delegation_text(*func, res_name@, iface_path@),
{
    proof { reveal(ctor_delegation_text); }
    let mut r = "fn new(".to_string();
    r.push_str(param_defs(&func.params, iface_path).as_str());
    r.push_str(") -> Self {\n__");
    r.push_str(res_name);
    r.push_str("Wrapper(std::cell::RefCell::new(");
    r.push_str(res_name);
    r.push_str("::new(");
    r.push_str(args_list(&func.params).as_str());
    r.push_str(")))\n}\n");
    r
}

// ---------------------------------------------------------------------------
// Conversions
// ---------------------------------------------------------------------------

/// The pair of conversion functions for a user type `n` with bindings type
/// `b`: `to` takes `v` from the bindings to the user's type, `from` back.
#[verifier::opaque]
pub open spec fn conversion_pair_text(n: Seq<char>, b: Seq<char>, to_body: Seq<char>, from_body: Seq<char>) -> Seq<char> {
    "fn "@ + to_user_name(n) + "(v: "@ + b + ") -> "@ + n + " {\n"@ + to_body + "\n}\n"@
        + "fn "@ + from_user_name(n) + "(v: "@ + n + ") -> "@ + b + " {\n"@ + from_body + "\n}\n"@
}

/// A record field set from the bindings' value `v`.
pub open spec fn field_to_user_text(f: (String, ResolvedType)) -> Seq<char> {
    f.0@ + ": "@ + wrap_text("v."@ + binding_ident(f.0@), f.1@, true)
}

/// A bindings record field set from the user's value `v`.
pub open spec fn field_from_user_text(f: (String, ResolvedType)) -> Seq<char> {
    binding_ident(f.0@) + ": "@ + wrap_text("v."@ + f.0@, f.1@, false)
}

/// The fields of a record literal built by a conversion, in the direction named by `to_user`.
pub open spec fn fields_text(fs: Seq<(String, ResolvedType)>, to_user: bool) -> Seq<char> {
    joined(fs.map_values(|f: (String, ResolvedType)|
        if to_user { field_to_user_text(f) } else { field_from_user_text(f) }), ", "@)
}

/// The conversions of a record, field by field.
pub open spec fn record_conversions_text(r: ResolvedRecord, iface: Seq<char>) -> Seq<char> {
    let b = bindings_type_text(r.name@, iface);
    conversion_pair_text(r.name@, b,
        r.name@ + " { "@ + fields_text(r.fields@, true) + " }"@,
        b + " { "@ + fields_text(r.fields@, false) + " }"@)
}

/// The bindings' name of a case: the PascalCase form of its kebab-case name.
pub open spec fn case_ident(c: Seq<char>) -> Seq<char> {
    pascal(kebab_case(c))
}

/// A match arm taking an enum case from the bindings to the user's type.
pub open spec fn enum_arm_to_user(c: String, n: Seq<char>, b: Seq<char>) -> Seq<char> {
    b + "::"@ + case_ident(c@) + " => "@ + n + "::"@ + c@
}

/// A match arm taking an enum case from the user's type to the bindings.
pub open spec fn enum_arm_from_user(c: String, n: Seq<char>, b: Seq<char>) -> Seq<char> {
    n + "::"@ + c@ + " => "@ + b + "::"@ + case_ident(c@)
}

/// The match arms of an enum's conversion, in the direction named by `to_user`.
pub open spec fn enum_arms_text(cs: Seq<String>, n: Seq<char>, b: Seq<char>, to_user: bool) -> Seq<char> {
    joined(cs.map_values(|c: String| if to_user { enum_arm_to_user(c, n, b) } else { enum_arm_from_user(c, n, b) }), ", "@)
}

/// The conversions of an enum, case by case.
pub open spec fn enum_conversions_text(e: ResolvedEnum, iface: Seq<char>) -> Seq<char> {
    let n = e.name@;
    let b = bindings_type_text(n, iface);
    conversion_pair_text(n, b,
        "match v { "@ + enum_arms_text(e.cases@, n, b, true) + " }"@,
        "match v { "@ + enum_arms_text(e.cases@, n, b, false) + " }"@)
}

/// A match arm taking a variant case from the bindings to the user's type,
/// its payload converted.
pub open spec fn variant_arm_to_user(c: (String, Option<ResolvedType>), n: Seq<char>, b: Seq<char>) -> Seq<char> {
    match c.1 {
        Some(t) => b + "::"@ + case_ident(c.0@) + "(inner) => "@ + n + "::"@ + c.0@ + "("@ + wrap_text("inner"@, t@, true) + ")"@,
        None => b + "::"@ + case_ident(c.0@) + " => "@ + n + "::"@ + c.0@,
    }
}

/// A match arm taking a variant case from the user's type to the bindings.
pub open spec fn variant_arm_from_user(c: (String, Option<ResolvedType>), n: Seq<char>, b: Seq<char>) -> Seq<char> {
    match c.1 {
        Some(t) => n + "::"@ + c.0@ + "(inner) => "@ + b + "::"@ + case_ident(c.0@) + "("@ + wrap_text("inner"@, t@, false) + ")"@,
        None => n + "::"@ + c.0@ + " => "@ + b + "::"@ + case_ident(c.0@),
    }
}

/// The match arms of a variant's conversion, in the direction named by `to_user`.
pub open spec fn variant_arms_text(cs: Seq<(String, Option<ResolvedType>)>, n: Seq<char>, b: Seq<char>, to_user: bool) -> Seq<char> {
    joined(cs.map_values(|c: (String, Option<ResolvedType>)|
        if to_user { variant_arm_to_user(c, n, b) } else { variant_arm_from_user(c, n, b) }), ", "@)
}

/// The conversions of a variant, case by case.
pub open spec fn variant_conversions_text(v: ResolvedVariant, iface: Seq<char>) -> Seq<char> {
    let n = v.name@;
    let b = bindings_type_text(n, iface);
    conversion_pair_text(n, b,
        "match v { "@ + variant_arms_text(v.cases@, n, b, true) + " }"@,
        "match v { "@ + variant_arms_text(v.cases@, n, b, false) + " }"@)
}

fn conversion_pair(n: &str, b: &str, to_body: String, from_body: String) -> (r: String)
    ensures
        r@ == conversion_pair_text(n@, b@, to_body@, from_body@),
{
    proof { reveal(conversion_pair_text); }
    let mut r = "fn ".to_string();
    r.push_str(crate::rs_glue::to_user_fn_name(n).as_str());
    r.push_str("(v: ");
    r.push_str(b);
    r.push_str(") -> ");
    r.push_str(n);
    r.push_str(" {\n");
    r.push_str(to_body.as_str());
    r.push_str("\n}\n");
    r.push_str("fn ");
    r.push_str(crate::rs_glue::from_user_fn_name(n).as_str());
    r.push_str("(v: ");
    r.push_str(n);
    r.push_str(") -> ");
    r.push_str(b);
    r.push_str(" {\n");
    r.push_str(from_body.as_str());
    r.push_str("\n}\n");
    r
}

fn record_fields(fs: &Vec<(String, ResolvedType)>, to_user: bool) -> (r: String)
    ensures
        r@ == fields_text(fs@, to_user),
{
    let ghost g = |f: (String, ResolvedType)| if to_user { field_to_user_text(f) } else { field_from_user_text(f) };
    let mut parts: Vec<String> = Vec::new();
    let mut i: usize = 0;
    while i < fs.len()
        invariant
            i <= fs.len(),
            g == (|f: (String, ResolvedType)| if to_user { field_to_user_text(f) } else { field_from_user_text(f) }),
            strs_of(parts@) == fs@.take(i as int).map_values(g),
        decreases fs.len() - i,
    {
        let name = &fs[i].0;
        let id = binding_ident_of(name.as_str());
        let s = if to_user {
            let mut src = "v.".to_string();
            src.push_str(id.as_str());
            let mut s = name.clone();
            s.push_str(": ");
            s.push_str(crate::rs_glue::wrap_to_user_expr(src.as_str(), &fs[i].1).as_str());
            s
        } else {
            let mut src = "v.".to_string();
            src.push_str(name.as_str());
            let mut s = id;
            s.push_str(": ");
            s.push_str(crate::rs_glue::wrap_from_user_expr(src.as_str(), &fs[i].1).as_str());
            s
        };
        proof {
            lemma_strs_push(parts@, s);
            lemma_map_take_push(fs@, g, i as int);
        }
        parts.push(s);
        i = i + 1;
    }
    assert(fs@.take(fs.len() as int) =~= fs@);
    join_strings(&parts, ", ")
}

/// The conversions of a record.
pub fn gen_record_conversions(r: &ResolvedRecord, iface_path: &str) -> (out: String)
    ensures
        out@ == record_conversions_text(*r, iface_path@),
{
    let b = crate::rs_glue::bindings_type_ident(r.name.as_str(), iface_path);
    let tf = record_fields(&r.fields, true);
    let ff = record_fields(&r.fields, false);
    let mut to_body = String::new();
    to_body.push_str(r.name.as_str());
    to_body.push_str(" { ");
    to_body.push_str(tf.as_str());
    to_body.push_str(" }");
    let mut from_body = String::new();
    from_body.push_str(b.as_str());
    from_body.push_str(" { ");
    from_body.push_str(ff.as_str());
    from_body.push_str(" }");
    proof { reveal_strlit(""); }
    let out = conversion_pair(r.name.as_str(), b.as_str(), to_body, from_body);
    assert(out@ =~= record_conversions_text(*r, iface_path@));
    out
}

fn case_ident_of(c: &str) -> (r: String)
    ensures
        r@ == case_ident(c@),
{
    let k = crate::wit_common::to_kebab_case(c);
    crate::rs_glue::pascal_case(k.as_str())
}

fn enum_arms(cases: &Vec<String>, n: &str, b: &str, to_user: bool) -> (r: String)
    ensures
        r@ == enum_arms_text(cases@, n@, b@, to_user),
{
    let ghost g = |c: String| if to_user { enum_arm_to_user(c, n@, b@) } else { enum_arm_from_user(c, n@, b@) };
    let mut parts: Vec<String> = Vec::new();
    let mut i: usize = 0;
    while i < cases.len()
        invariant
            i <= cases.len(),
            g == (|c: String| if to_user { enum_arm_to_user(c, n@, b@) } else { enum_arm_from_user(c, n@, b@) }),
            strs_of(parts@) == cases@.take(i as int).map_values(g),
        decreases cases.len() - i,
    {
        let c = &cases[i];
        let ci = case_ident_of(c.as_str());
        let mut s = String::new();
        if to_user {
            s.push_str(b);
            s.push_str("::");
            s.push_str(ci.as_str());
            s.push_str(" => ");
            s.push_str(n);
            s.push_str("::");
            s.push_str(c.as_str());
        } else {
            s.push_str(n);
            s.push_str("::");
            s.push_str(c.as_str());
            s.push_str(" => ");
            s.push_str(b);
            s.push_str("::");
            s.push_str(ci.as_str());
        }
        proof {
            reveal_strlit("");
            assert(s@ =~= g(cases@[i as int]));
            lemma_strs_push(parts@, s);
            lemma_map_take_push(cases@, g, i as int);
        }
        parts.push(s);
        i = i + 1;
    }
    assert(cases@.take(cases.len() as int) =~= cases@);
    join_strings(&parts, ", ")
}

/// The conversions of an enum.
pub fn gen_enum_conversions(e: &ResolvedEnum, iface_path: &str) -> (out: String)
    ensures
        out@ == enum_conversions_text(*e, iface_path@),
{
    let b = crate::rs_glue::bindings_type_ident(e.name.as_str(), iface_path);
    let ta = enum_arms(&e.cases, e.name.as_str(), b.as_str(), true);
    let fa = enum_arms(&e.cases, e.name.as_str(), b.as_str(), false);
    let mut to_body = "match v { ".to_string();
    to_body.push_str(ta.as_str());
    to_body.push_str(" }");
    let mut from_body = "match v { ".to_string();
    from_body.push_str(fa.as_str());
    from_body.push_str(" }");
    let out = conversion_pair(e.name.as_str(), b.as_str(), to_body, from_body);
    assert(out@ =~= enum_conversions_text(*e, iface_path@));
    out
}

fn variant_arms(cases: &Vec<(String, Option<ResolvedType>)>, n: &str, b: &str, to_user: bool) -> (r: String)
    ensures
        r@ == variant_arms_text(cases@, n@, b@, to_user),
{
    let ghost g = |c: (String, Option<ResolvedType>)| if to_user { variant_arm_to_user(c, n@, b@) } else { variant_arm_from_user(c, n@, b@) };
    let mut parts: Vec<String> = Vec::new();
    let mut i: usize = 0;
    while i < cases.len()
        invariant
            i <= cases.len(),
            g == (|c: (String, Option<ResolvedType>)| if to_user { variant_arm_to_user(c, n@, b@) } else { variant_arm_from_user(c, n@, b@) }),
            strs_of(parts@) == cases@.take(i as int).map_values(g),
        decreases cases.len() - i,
    {
        let c = &cases[i].0;
        let ci = case_ident_of(c.as_str());
        let mut user = n.to_string();
        user.push_str("::");
        user.push_str(c.as_str());
        let mut bind = b.to_string();
        bind.push_str("::");
        bind.push_str(ci.as_str());
        let s = match &cases[i].1 {
            Some(t) => {
                if to_user {
                    let mut s = bind;
                    s.push_str("(inner) => ");
                    s.push_str(user.as_str());
                    s.push_str("(");
                    s.push_str(crate::rs_glue::wrap_to_user_expr("inner", t).as_str());
                    s.push_str(")");
                    s
                } else {
                    let mut s = user;
                    s.push_str("(inner) => ");
                    s.push_str(bind.as_str());
                    s.push_str("(");
                    s.push_str(crate::rs_glue::wrap_from_user_expr("inner", t).as_str());
                    s.push_str(")");
                    s
                }
            },
            None => {
                if to_user {
                    let mut s = bind;
                    s.push_str(" => ");
                    s.push_str(user.as_str());
                    s
                } else {
                    let mut s = user;
                    s.push_str(" => ");
                    s.push_str(bind.as_str());
                    s
                }
            },
        };
        proof {
            assert(s@ =~= g(cases@[i as int]));
            lemma_strs_push(parts@, s);
            lemma_map_take_push(cases@, g, i as int);
        }
        parts.push(s);
        i = i + 1;
    }
    assert(cases@.take(cases.len() as int) =~= cases@);
    join_strings(&parts, ", ")
}

/// The conversions of a variant.
pub fn gen_variant_conversions(v: &ResolvedVariant, iface_path: &str) -> (out: String)
    ensures
        out@ == variant_conversions_text(*v, iface_path@),
{
    let b = crate::rs_glue::bindings_type_ident(v.name.as_str(), iface_path);
    let ta = variant_arms(&v.cases, v.name.as_str(), b.as_str(), true);
    let fa = variant_arms(&v.cases, v.name.as_str(), b.as_str(), false);
    let mut to_body = "match v { ".to_string();
    to_body.push_str(ta.as_str());
    to_body.push_str(" }");
    let mut from_body = "match v { ".to_string();
    from_body.push_str(fa.as_str());
    from_body.push_str(" }");
    let out = conversion_pair(v.name.as_str(), b.as_str(), to_body, from_body);
    assert(out@ =~= variant_conversions_text(*v, iface_path@));
    out
}

// ---------------------------------------------------------------------------
// Resources, the Guest implementations, and the whole
// ---------------------------------------------------------------------------

/// The parts written one after another.
pub open spec fn concat(parts: Seq<Seq<char>>) -> Seq<char> {
    joined(parts, Seq::empty())
}

/// The wrapper struct of a resource, holding the user's value in a `RefCell`.
pub open spec fn wrapper_text(imp: ExportedImpl) -> Seq<char> {
    "struct __"@ + imp.impl_name@ + "Wrapper(std::cell::RefCell<"@ + imp.impl_name@ + ">);\n"@
}

/// The wrapper structs of all resources.
pub open spec fn wrappers_text(is: Seq<ExportedImpl>) -> Seq<char> {
    concat(is.map_values(|i: ExportedImpl| wrapper_text(i)))
}

/// The associated type naming a resource's wrapper in the `Guest` impl.
pub open spec fn resource_type_text(imp: ExportedImpl) -> Seq<char> {
    "type "@ + imp.impl_name@ + " = __"@ + imp.impl_name@ + "Wrapper;\n"@
}

/// The associated types of all resources.
pub open spec fn resource_types_text(is: Seq<ExportedImpl>) -> Seq<char> {
    concat(is.map_values(|i: ExportedImpl| resource_type_text(i)))
}

/// The delegations of the free functions.
pub open spec fn fn_delegations_text(fs: Seq<ExportedFunction>, iface: Seq<char>) -> Seq<char> {
    concat(fs.map_values(|f: ExportedFunction| fn_delegation_text(f, iface)))
}

/// The interface's `Guest` impl: resource types and free functions.
pub open spec fn guest_impl_text(d: TypeDiscovery, iface: Seq<char>) -> Seq<char> {
    "impl "@ + iface + "::Guest for __WitgensteinComponent {\n"@ + resource_types_text(d.impls@)
        + fn_delegations_text(d.functions@, iface) + "}\n"@
}

/// The delegations of a resource's methods.
pub open spec fn method_delegations_text(fs: Seq<ExportedFunction>, ty: Seq<char>, iface: Seq<char>) -> Seq<char> {
    concat(fs.map_values(|f: ExportedFunction| method_delegation_text(f, ty, iface)))
}

/// The delegations of a resource's static functions.
pub open spec fn static_delegations_text(fs: Seq<ExportedFunction>, ty: Seq<char>, iface: Seq<char>) -> Seq<char> {
    concat(fs.map_values(|f: ExportedFunction| static_delegation_text(f, ty, iface)))
}

/// A resource's `Guest` impl on its wrapper: constructor, methods, statics.
#[verifier::opaque]
pub open spec fn resource_impl_text(imp: ExportedImpl, iface: Seq<char>) -> Seq<char> {
    let t = imp.impl_name@;
    "impl "@ + iface + "::Guest"@ + t + " for __"@ + t + "Wrapper {\n"@
        + (match imp.constructor { Some(c) => ctor_delegation_text(c, t, iface), None => Seq::empty() })
        + method_delegations_text(imp.methods@, t, iface) + static_delegations_text(imp.static_funcs@, t, iface)
        + "}\n"@
}

/// The `Guest` impls of all resources.
pub open spec fn resource_impls_text(is: Seq<ExportedImpl>, iface: Seq<char>) -> Seq<char> {
    concat(is.map_values(|i: ExportedImpl| resource_impl_text(i, iface)))
}

/// The name of a type definition.
pub open spec fn def_name(td: ResolvedTypeDef) -> Seq<char> {
    match td {
        ResolvedTypeDef::Record(r) => r.name@,
        ResolvedTypeDef::Enum(e) => e.name@,
        ResolvedTypeDef::Variant(v) => v.name@,
    }
}

/// The conversions of a type definition.
pub open spec fn def_conversions_text(td: ResolvedTypeDef, iface: Seq<char>) -> Seq<char> {
    match td {
        ResolvedTypeDef::Record(r) => record_conversions_text(r, iface),
        ResolvedTypeDef::Enum(e) => enum_conversions_text(e, iface),
        ResolvedTypeDef::Variant(v) => variant_conversions_text(v, iface),
    }
}

/// The conversions of the definitions whose names are in `named`, in the
/// order of the definitions.
pub open spec fn conversions_text(defs: Seq<ResolvedTypeDef>, iface: Seq<char>, named: Set<Seq<char>>) -> Seq<char> {
    concat(defs.map_values(|td: ResolvedTypeDef|
        if named.contains(def_name(td)) { def_conversions_text(td, iface) } else { Seq::empty() }))
}

/// Join the strings with nothing between them.
pub fn concat_strings(parts: &Vec<String>) -> (r: String)
    ensures
        r@ == concat(strs_of(parts@)),
{
    let empty = "";
    proof {
        reveal_strlit("");
        assert(empty@ =~= Seq::<char>::empty());
    }
    join_strings(parts, empty)
}

fn gen_wrapper(imp: &ExportedImpl) -> (r: String)
    ensures
        r@ == wrapper_text(*imp),
{
    let mut r = "struct __".to_string();
    r.push_str(imp.impl_name.as_str());
    r.push_str("Wrapper(std::cell::RefCell<");
    r.push_str(imp.impl_name.as_str());
    r.push_str(">);\n");
    r
}

fn gen_resource_type(imp: &ExportedImpl) -> (r: String)
    ensures
        r@ == resource_type_text(*imp),
{
    let mut r = "type ".to_string();
    r.push_str(imp.impl_name.as_str());
    r.push_str(" = __");
    r.push_str(imp.impl_name.as_str());
    r.push_str("Wrapper;\n");
    r
}

/// The wrapper structs of all resources.
pub fn generate_resource_wrappers(discovery: &TypeDiscovery) -> (r: String)
    ensures
        r@ == wrappers_text(discovery.impls@),
{
    let is = &discovery.impls;
    let ghost f = |i: ExportedImpl| wrapper_text(i);
    let mut parts: Vec<String> = Vec::new();
    let mut k: usize = 0;
    while k < is.len()
        invariant
            k <= is.len(),
            f == (|i: ExportedImpl| wrapper_text(i)),
            strs_of(parts@) == is@.take(k as int).map_values(f),
        decreases is.len() - k,
    {
        let s = gen_wrapper(&is[k]);
        proof {
            lemma_strs_push(parts@, s);
            lemma_map_take_push(is@, f, k as int);
        }
        parts.push(s);
        k = k + 1;
    }
    assert(is@.take(is.len() as int) =~= is@);
    concat_strings(&parts)
}

fn gen_resource_types(is: &Vec<ExportedImpl>) -> (r: String)
    ensures
        r@ == resource_types_text(is@),
{
    let ghost f = |i: ExportedImpl| resource_type_text(i);
    let mut parts: Vec<String> = Vec::new();
    let mut k: usize = 0;
    while k < is.len()
        invariant
            k <= is.len(),
            f == (|i: ExportedImpl| resource_type_text(i)),
            strs_of(parts@) == is@.take(k as int).map_values(f),
        decreases is.len() - k,
    {
        let s = gen_resource_type(&is[k]);
        proof {
            lemma_strs_push(parts@, s);
            lemma_map_take_push(is@, f, k as int);
        }
        parts.push(s);
        k = k + 1;
    }
    assert(is@.take(is.len() as int) =~= is@);
    concat_strings(&parts)
}

fn gen_fn_delegations(fs: &Vec<ExportedFunction>, iface: &str) -> (r: String)
    ensures
        r@ == fn_delegations_text(fs@, iface@),
{
    let ghost f = |x: ExportedFunction| fn_delegation_text(x, iface@);
    let mut parts: Vec<String> = Vec::new();
    let mut k: usize = 0;
    while k < fs.len()
        invariant
            k <= fs.len(),
            f == (|x: ExportedFunction| fn_delegation_text(x, iface@)),
            strs_of(parts@) == fs@.take(k as int).map_values(f),
        decreases fs.len() - k,
    {
        let s = gen_fn_delegation(&fs[k], iface);
        proof {
            lemma_strs_push(parts@, s);
            lemma_map_take_push(fs@, f, k as int);
        }
        parts.push(s);
        k = k + 1;
    }
    assert(fs@.take(fs.len() as int) =~= fs@);
    concat_strings(&parts)
}

/// The interface's `Guest` impl.
pub fn generate_guest_impl(discovery: &TypeDiscovery, iface_path: &str) -> (r: String)
    ensures
        r@ == guest_impl_text(*discovery, iface_path@),
{
    let mut r = "impl ".to_string();
    r.push_str(iface_path);
    r.push_str("::Guest for __WitgensteinComponent {\n");
    r.push_str(gen_resource_types(&discovery.impls).as_str());
    r.push_str(gen_fn_delegations(&discovery.functions, iface_path).as_str());
    r.push_str("}\n");
    r
}

fn gen_method_delegations(fs: &Vec<ExportedFunction>, ty: &str, iface: &str) -> (r: String)
    ensures
        r@ == method_delegations_text(fs@, ty@, iface@),
{
    let ghost f = |x: ExportedFunction| method_delegation_text(x, ty@, iface@);
    let mut parts: Vec<String> = Vec::new();
    let mut k: usize = 0;
    while k < fs.len()
        invariant
            k <= fs.len(),
            f == (|x: ExportedFunction| method_delegation_text(x, ty@, iface@)),
            strs_of(parts@) == fs@.take(k as int).map_values(f),
        decreases fs.len() - k,
    {
        let s = gen_method_delegation(&fs[k], ty, iface);
        proof {
            lemma_strs_push(parts@, s);
            lemma_map_take_push(fs@, f, k as int);
        }
        parts.push(s);
        k = k + 1;
    }
    assert(fs@.take(fs.len() as int) =~= fs@);
    concat_strings(&parts)
}

fn gen_static_delegations(fs: &Vec<ExportedFunction>, ty: &str, iface: &str) -> (r: String)
    ensures
        r@ == static_delegations_text(fs@, ty@, iface@),
{
    let ghost f = |x: ExportedFunction| static_delegation_text(x, ty@, iface@);
    let mut parts: Vec<String> = Vec::new();
    let mut k: usize = 0;
    while k < fs.len()
        invariant
            k <= fs.len(),
            f == (|x: ExportedFunction| static_delegation_text(x, ty@, iface@)),
            strs_of(parts@) == fs@.take(k as int).map_values(f),
        decreases fs.len() - k,
    {
        let s = gen_static_delegation(&fs[k], ty, iface);
        proof {
            lemma_strs_push(parts@, s);
            lemma_map_take_push(fs@, f, k as int);
        }
        parts.push(s);
        k = k + 1;
    }
    assert(fs@.take(fs.len() as int) =~= fs@);
    concat_strings(&parts)
}

/// A resource's `Guest` impl on its wrapper.
pub fn gen_resource_impl(imp: &ExportedImpl, iface_path: &str) -> (r: String)
    ensures
        r@ == resource_impl_text(*imp, iface_path@),
{
    proof { reveal(resource_impl_text); }
    let t = imp.impl_name.as_str();
    let mut r = "impl ".to_string();
    r.push_str(iface_path);
    r.push_str("::Guest");
    r.push_str(t);
    r.push_str(" for __");
    r.push_str(t);
    r.push_str("Wrapper {\n");
    match &imp.constructor {
        Some(c) => r.push_str(gen_ctor_delegation(c, t, iface_path).as_str()),
        None => {},
    }
    r.push_str(gen_method_delegations(&imp.methods, t, iface_path).as_str());
    r.push_str(gen_static_delegations(&imp.static_funcs, t, iface_path).as_str());
    r.push_str("}\n");
    r
}

/// The `Guest` impls of all resources.
pub fn generate_resource_impls(discovery: &TypeDiscovery, iface_path: &str) -> (r: String)
    ensures
        r@ == resource_impls_text(discovery.impls@, iface_path@),
{
    let is = &discovery.impls;
    let ghost f = |i: ExportedImpl| resource_impl_text(i, iface_path@);
    let mut parts: Vec<String> = Vec::new();
    let mut k: usize = 0;
    while k < is.len()
        invariant
            k <= is.len(),
            f == (|i: ExportedImpl| resource_impl_text(i, iface_path@)),
            strs_of(parts@) == is@.take(k as int).map_values(f),
        decreases is.len() - k,
    {
        let s = gen_resource_impl(&is[k], iface_path);
        proof {
            lemma_strs_push(parts@, s);
            lemma_map_take_push(is@, f, k as int);
        }
        parts.push(s);
        k = k + 1;
    }
    assert(is@.take(is.len() as int) =~= is@);
    concat_strings(&parts)
}

/// The conversions of the type definitions named in `named_types`, in the
/// order of the definitions.
pub fn generate_type_conversions(discovery: &TypeDiscovery, iface_path: &str, named_types: &Vec<String>) -> (r: String)
    ensures
        r@ == conversions_text(discovery.type_defs@, iface_path@, strs_of(named_types@).to_set()),
{
    let ds = &discovery.type_defs;
    let ghost named = strs_of(named_types@).to_set();
    let ghost f = |td: ResolvedTypeDef| if named.contains(def_name(td)) { def_conversions_text(td, iface_path@) } else { Seq::empty() };
    let mut parts: Vec<String> = Vec::new();
    let mut k: usize = 0;
    while k < ds.len()
        invariant
            k <= ds.len(),
            named == strs_of(named_types@).to_set(),
            f == (|td: ResolvedTypeDef| if named.contains(def_name(td)) { def_conversions_text(td, iface_path@) } else { Seq::empty() }),
            strs_of(parts@) == ds@.take(k as int).map_values(f),
        decreases ds.len() - k,
    {
        let name = match &ds[k] {
            ResolvedTypeDef::Record(r) => r.name.as_str(),
            ResolvedTypeDef::Enum(e) => e.name.as_str(),
            ResolvedTypeDef::Variant(v) => v.name.as_str(),
        };
        let s = if crate::ts_project::contains_str(named_types.as_slice(), name) {
            match &ds[k] {
                ResolvedTypeDef::Record(r) => gen_record_conversions(r, iface_path),
                ResolvedTypeDef::Enum(e) => gen_enum_conversions(e, iface_path),
                ResolvedTypeDef::Variant(v) => gen_variant_conversions(v, iface_path),
            }
        } else {
            String::new()
        };
        proof {
            lemma_strs_push(parts@, s);
            lemma_map_take_push(ds@, f, k as int);
        }
        parts.push(s);
        k = k + 1;
    }
    assert(ds@.take(ds.len() as int) =~= ds@);
    concat_strings(&parts)
}

// ---------------------------------------------------------------------------
// The bindings module and the whole glue
// ---------------------------------------------------------------------------

/// How a character is written inside a Rust string literal: `\`, `"` and a
/// carriage return escaped, anything else as it is.
pub open spec fn escape_char(c: char) -> Seq<char> {
    if c == '\\' {
        seq!['\\', '\\']
    } else if c == '"' {
        seq!['\\', '"']
    } else if c == '\r' {
        seq!['\\', 'r']
    } else {
        seq![c]
    }
}

/// The characters of `s` written inside a Rust string literal.
pub open spec fn escaped(s: Seq<char>) -> Seq<char>
    decreases s.len(),
{
    if s.len() == 0 {
        Seq::empty()
    } else {
        escaped(s.drop_last()) + escape_char(s.last())
    }
}

/// A Rust string literal whose value is `s`.
pub open spec fn str_literal(s: Seq<char>) -> Seq<char> {
    seq!['"'] + escaped(s) + seq!['"']
}

/// A Rust string literal whose value is `s`.
pub fn string_literal(s: &str) -> (r: String)
    ensures
        r@ == str_literal(s@),
{
    let cs = crate::text::str_chars(s);
    let mut out: Vec<char> = Vec::new();
    out.push('"');
    let mut i: usize = 0;
    while i < cs.len()
        invariant
            i <= cs.len(),
            cs@ == s@,
            out@ == seq!['"'] + escaped(s@.take(i as int)),
        decreases cs.len() - i,
    {
        let c = cs[i];
        if c == '\\' {
            out.push('\\');
            out.push('\\');
        } else if c == '"' {
            out.push('\\');
            out.push('"');
        } else if c == '\r' {
            out.push('\\');
            out.push('r');
        } else {
            out.push(c);
        }
        assert(s@.take(i + 1).drop_last() =~= s@.take(i as int));
        assert(out@ =~= seq!['"'] + escaped(s@.take(i + 1)));
        i = i + 1;
    }
    out.push('"');
    assert(s@.take(cs.len() as int) =~= s@);
    assert(out@ =~= str_literal(s@));
    crate::text::string_from_chars(out.as_slice())
}

/// The module holding the bindings generated from the inline WIT text.
pub open spec fn bindings_mod_text(wit: Seq<char>) -> Seq<char> {
    "#[allow(warnings)]\nmod bindings {\nwit_bindgen::generate!({\nworld: \"component-world\",\ninline: "@
        + str_literal(wit) + ",\n});\n}\n"@
}

/// The module holding the bindings generated from the inline WIT text.
pub fn generate_bindings_mod(wit_content: &str) -> (r: String)
    ensures
        r@ == bindings_mod_text(wit_content@),
{
    let mut r = "#[allow(warnings)]\nmod bindings {\nwit_bindgen::generate!({\nworld: \"component-world\",\ninline: ".to_string();
    r.push_str(string_literal(wit_content).as_str());
    r.push_str(",\n});\n}\n");
    r
}

/// The glue of a component: the bindings module, the conversions of the
/// named types that need them, the resource wrappers, the component struct,
/// the `Guest` impls, and the export of the component.
pub open spec fn glue_text(d: TypeDiscovery, wit: Seq<char>, package: Seq<char>, interface: Seq<char>) -> Seq<char> {
    let iface = iface_path_text(package, interface);
    bindings_mod_text(wit) + conversions_text(d.type_defs@, iface, crate::rs_glue::needed_types(d))
        + wrappers_text(d.impls@) + "struct __WitgensteinComponent;\n"@ + guest_impl_text(d, iface)
        + resource_impls_text(d.impls@, iface) + "bindings::export!(__WitgensteinComponent with_types_in bindings);\n"@
}

/// Generate all glue code, as Rust source text.
pub fn generate_glue(discovery: &TypeDiscovery, wit_content: &str, package: &str, interface: &str) -> (r: String)
    ensures
        r@ == glue_text(*discovery, wit_content@, package@, interface@),
{
    let mut r = generate_bindings_mod(wit_content);
    let iface_path = crate::rs_glue::build_iface_path(package, interface);
    let named_types = crate::rs_glue::collect_named_types(discovery);
    r.push_str(generate_type_conversions(discovery, iface_path.as_str(), &named_types).as_str());
    r.push_str(generate_resource_wrappers(discovery).as_str());
    r.push_str("struct __WitgensteinComponent;\n");
    r.push_str(generate_guest_impl(discovery, iface_path.as_str()).as_str());
    r.push_str(generate_resource_impls(discovery, iface_path.as_str()).as_str());
    r.push_str("bindings::export!(__WitgensteinComponent with_types_in bindings);\n");
    r
}

// ---------------------------------------------------------------------------
// The component macro's configuration and output
// ---------------------------------------------------------------------------

/// The WIT package and interface a component exports.
pub struct ComponentConfig {
    /// Full WIT package id, e.g. `myorg:my-pkg@1.0.0`.
    pub package: String,
    /// WIT interface name, e.g. `my-api`.
    pub interface: String,
}

impl Default for ComponentConfig {
    /// Package `component:pkg`, interface `exports`.
    fn default() -> (c: Self)
        ensures
            c.package@ == "component:pkg"@,
            c.interface@ == "exports"@,
    {
        ComponentConfig { package: "component:pkg".to_string(), interface: "exports".to_string() }
    }
}

/// Whether an inner attribute with this path configures the component.
pub open spec fn is_config_path(path: Seq<char>) -> bool {
    path == "package"@ || path == "interface"@
}

/// Whether an inner attribute with this path configures the component
/// (`package` or `interface`); its argument is then a string literal.
pub fn is_config_attr(path: &str) -> (b: bool)
    ensures
        b == is_config_path(path@),
{
    crate::text::str_eq(path, "package") || crate::text::str_eq(path, "interface")
}

/// The value the last attribute of the given path sets, if any.
pub open spec fn last_value(attrs: Seq<(String, String)>, path: Seq<char>) -> Option<Seq<char>>
    decreases attrs.len(),
{
    if attrs.len() == 0 {
        None
    } else if attrs.last().0@ == path {
        Some(attrs.last().1@)
    } else {
        last_value(attrs.drop_last(), path)
    }
}

/// The configuration from the inner attributes, given as path and string
/// value: the last `package` and the last `interface` win; each keeps its
/// default when no attribute sets it.
pub fn parse_config(attrs: &Vec<(String, String)>) -> (c: ComponentConfig)
    ensures
        c.package@ == (match last_value(attrs@, "package"@) { Some(v) => v, None => "component:pkg"@ }),
        c.interface@ == (match last_value(attrs@, "interface"@) { Some(v) => v, None => "exports"@ }),
{
    let mut c = ComponentConfig::default();
    let mut i: usize = 0;
    while i < attrs.len()
        invariant
            i <= attrs.len(),
            c.package@ == (match last_value(attrs@.take(i as int), "package"@) { Some(v) => v, None => "component:pkg"@ }),
            c.interface@ == (match last_value(attrs@.take(i as int), "interface"@) { Some(v) => v, None => "exports"@ }),
        decreases attrs.len() - i,
    {
        proof {
            assert(attrs@.take(i + 1).drop_last() =~= attrs@.take(i as int));
            assert(attrs@.take(i + 1).last() == attrs@[i as int]);
            reveal_strlit("package");
            reveal_strlit("interface");
            assert("package"@.len() != "interface"@.len());
        }
        let path = &attrs[i].0;
        let value = &attrs[i].1;
        let ghost pre = attrs@.take(i as int);
        let ghost post = attrs@.take(i + 1);
        if crate::text::str_eq(path.as_str(), "package") {
            c.package = value.clone();
            assert(last_value(post, "interface"@) == last_value(pre, "interface"@));
        } else if crate::text::str_eq(path.as_str(), "interface") {
            c.interface = value.clone();
            assert(last_value(post, "package"@) == last_value(pre, "package"@));
        } else {
            assert(last_value(post, "interface"@) == last_value(pre, "interface"@));
            assert(last_value(post, "package"@) == last_value(pre, "package"@));
        }
        i = i + 1;
    }
    assert(attrs@.take(attrs.len() as int) =~= attrs@);
    c
}

/// The glue the component macro adds after the user's items: none when
/// nothing is exported, else the glue built on the component's WIT text.
pub fn component_glue(discovery: &TypeDiscovery, config: &ComponentConfig) -> (r: Option<String>)
    ensures
        match r {
            Some(g) => {
                &&& discovery.functions@.len() > 0 || discovery.impls@.len() > 0
                &&& g@ == glue_text(*discovery,
                    crate::rs_macros_wit::generate_wit_text(*discovery, config.package@, config.interface@),
                    config.package@, config.interface@)
            },
            None => discovery.functions@.len() == 0 && discovery.impls@.len() == 0,
        },
{
    if discovery.functions.len() == 0 && discovery.impls.len() == 0 {
        return None;
    }
    let wit = crate::rs_macros_wit::generate_wit(discovery, config.package.as_str(), config.interface.as_str());
    Some(generate_glue(discovery, wit.as_str(), config.package.as_str(), config.interface.as_str()))
}

} // verus!
