//! From resolved Rust exports to the WIT package of a crate: types,
//! functions and resources in WIT form, and the package that holds them.
use vstd::prelude::*;
use crate::text::str_eq;
use crate::ts_types::{
    funcs_of, named_tys, opt_wit, strs_of, type_defs_of, tys_of, WitEnum, WitFunc, WitInterface,
    WitRecord, WitResource, WitTy, WitType, WitTypeDef, WitVariant,
};
use crate::rs_resolve::{
    opt_res, res_of, ress_of, ResolveResult, ResolvedFunction, ResolvedImpl, ResolvedType,
    ResolvedTypeDef,
};
use crate::rs_emit::EmitConfig;
use crate::wit_common::{kebab_case, to_kebab_case};

verus! {

// ---------------------------------------------------------------------------
// Types
// ---------------------------------------------------------------------------

/// The WIT type of a resolved type: names in kebab case, an owned handle
/// written as its type's name, and `()` (which WIT lacks) as `bool`.
pub open spec fn map_ty(t: WitTy) -> WitTy
    decreases t, 1nat,
{
    match t {
        WitTy::List(i) => WitTy::List(Box::new(map_ty(*i))),
        WitTy::Option(i) => WitTy::Option(Box::new(map_ty(*i))),
        WitTy::Result { ok, err } => WitTy::Result { ok: map_opt(ok), err: map_opt(err) },
        WitTy::Tuple(es) => if es.len() == 0 { WitTy::Bool } else { WitTy::Tuple(map_all(es)) },
        WitTy::Future(o) => WitTy::Future(map_opt(o)),
        WitTy::Stream(o) => WitTy::Stream(map_opt(o)),
        WitTy::Named(n) => WitTy::Named(kebab_case(n)),
        WitTy::Own(n) => WitTy::Named(kebab_case(n)),
        WitTy::Borrow(n) => WitTy::Borrow(kebab_case(n)),
        _ => t,
    }
}

/// `map_ty` inside an optional box.
pub open spec fn map_opt(o: Option<Box<WitTy>>) -> Option<Box<WitTy>>
    decreases o, 2nat,
{
    match o {
        Some(b) => Some(Box::new(map_ty(*b))),
        None => None,
    }
}

/// `map_ty` on each element.
pub open spec fn map_all(es: Seq<WitTy>) -> Seq<WitTy>
    decreases es, 0nat,
{
    if es.len() == 0 {
        Seq::empty()
    } else {
        map_all(es.drop_last()).push(map_ty(es.last()))
    }
}

fn map_boxed(b: &Box<ResolvedType>) -> (r: Box<WitType>)
    ensures
        crate::ts_types::ty_of(*r) == map_ty(res_of(**b)),
    decreases *b, 2nat,
{
    Box::new(map_type(&**b))
}

fn map_opt_boxed(o: &Option<Box<ResolvedType>>) -> (r: Option<Box<WitType>>)
    ensures
        crate::ts_types::opt_ty(r) == map_opt(opt_res(*o)),
    decreases *o, 3nat,
{
    proof {
        reveal_with_fuel(opt_res, 2);
        reveal_with_fuel(crate::ts_types::opt_ty, 2);
    }
    match o {
        Some(b) => Some(map_boxed(b)),
        None => None,
    }
}

/// Map a resolved type to its WIT type.
#[verifier::rlimit(50)]
pub fn map_type(resolved: &ResolvedType) -> (r: WitType)
    ensures
        r@ == map_ty(resolved@),
    decreases *resolved, 1nat,
{
    proof {
        reveal_with_fuel(res_of, 2);
        reveal_with_fuel(crate::ts_types::ty_of, 2);
    }
    match resolved {
        ResolvedType::Bool => WitType::Bool,
        ResolvedType::U8 => WitType::U8,
        ResolvedType::U16 => WitType::U16,
        ResolvedType::U32 => WitType::U32,
        ResolvedType::U64 => WitType::U64,
        ResolvedType::S8 => WitType::S8,
        ResolvedType::S16 => WitType::S16,
        ResolvedType::S32 => WitType::S32,
        ResolvedType::S64 => WitType::S64,
        ResolvedType::F32 => WitType::F32,
        ResolvedType::F64 => WitType::F64,
        ResolvedType::Char => WitType::Char,
        ResolvedType::WitString => WitType::WitString,
        ResolvedType::List(inner) => WitType::List(map_boxed(inner)),
        ResolvedType::Option(inner) => WitType::Option(map_boxed(inner)),
        ResolvedType::Result { ok, err } => WitType::Result { ok: map_opt_boxed(ok), err: map_opt_boxed(err) },
        ResolvedType::Tuple(elems) => {
            proof { crate::rs_resolve::lemma_ress_of(elems@); }
            if elems.len() == 0 {
                WitType::Bool
            } else {
                let ghost ev = *elems;
                proof {
                    assert(decreases_to!(*resolved => ev));
                    vstd::std_specs::vec::axiom_vec_decreases_to_view(ev);
                }
                let mut out: Vec<WitType> = Vec::new();
                let mut i: usize = 0;
                while i < elems.len()
                    invariant
                        i <= elems.len(),
                        ev == *elems,
                        decreases_to!(*resolved => ev),
                        decreases_to!(ev => ev@),
                        tys_of(out@) == map_all(ress_of(elems@.take(i as int))),
                    decreases elems.len() - i,
                {
                    proof {
                        assert(decreases_to!(ev@ => ev@[i as int]));
                    }
                    let m = map_type(&elems[i]);
                    proof {
                        crate::ts_types::lemma_tys_of_push(out@, m);
                        assert(elems@.take(i + 1) =~= elems@.take(i as int).push(elems@[i as int]));
                        crate::rs_resolve::lemma_ress_of_push(elems@.take(i as int), elems@[i as int]);
                        let rs = ress_of(elems@.take(i + 1));
                        assert(rs.drop_last() == ress_of(elems@.take(i as int)));
                    }
                    out.push(m);
                    i = i + 1;
                }
                assert(elems@.take(elems.len() as int) =~= elems@);
                WitType::Tuple(out)
            }
        },
        ResolvedType::Named(name) => WitType::Named(to_kebab_case(name.as_str())),
        ResolvedType::Own(name) => WitType::Named(to_kebab_case(name.as_str())),
        ResolvedType::Borrow(name) => WitType::Borrow(to_kebab_case(name.as_str())),
    }
}

// ---------------------------------------------------------------------------
// Functions and resources
// ---------------------------------------------------------------------------

/// Parameters in WIT form: kebab-case names and mapped types.
pub open spec fn map_params_spec(ps: Seq<(Seq<char>, WitTy)>) -> Seq<(Seq<char>, WitTy)> {
    ps.map_values(|p: (Seq<char>, WitTy)| (kebab_case(p.0), map_ty(p.1)))
}

/// The WIT result of a return type: none for none or `()`.
pub open spec fn map_result(rt: Option<WitTy>) -> Option<WitTy> {
    match rt {
        Some(t) => if t == WitTy::Tuple(Seq::empty()) { None } else { Some(map_ty(t)) },
        None => None,
    }
}

fn map_params(ps: &Vec<(String, ResolvedType)>) -> (r: Vec<(String, WitType)>)
    ensures
        named_tys(r@) == map_params_spec(crate::rs_resolve::fields_of(ps@)),
{
    let mut out: Vec<(String, WitType)> = Vec::new();
    let mut i: usize = 0;
    while i < ps.len()
        invariant
            i <= ps.len(),
            named_tys(out@) == map_params_spec(crate::rs_resolve::fields_of(ps@.take(i as int))),
        decreases ps.len() - i,
    {
        let name = to_kebab_case(ps[i].0.as_str());
        let ty = map_type(&ps[i].1);
        proof {
            assert(named_tys(out@.push((name, ty))) =~= named_tys(out@).push((name@, ty@)));
            assert(map_params_spec(crate::rs_resolve::fields_of(ps@.take(i + 1)))
                =~= map_params_spec(crate::rs_resolve::fields_of(ps@.take(i as int))).push((name@, ty@)));
        }
        out.push((name, ty));
        i = i + 1;
    }
    assert(ps@.take(ps.len() as int) =~= ps@);
    out
}

fn map_return(rt: &Option<ResolvedType>) -> (r: Option<WitType>)
    ensures
        opt_wit(r) == map_result(crate::rs_resolve::opt_res_ty(*rt)),
{
    match rt {
        Some(t) => {
            let unit = match t {
                ResolvedType::Tuple(es) => {
                    proof {
                        crate::rs_resolve::lemma_ress_of(es@);
                        reveal_with_fuel(res_of, 2);
                    }
                    es.len() == 0
                },
                _ => {
                    proof { reveal_with_fuel(res_of, 2); }
                    false
                },
            };
            if unit {
                None
            } else {
                Some(map_type(t))
            }
        },
        None => None,
    }
}

/// The WIT function of a resolved function.
pub open spec fn map_fn_spec(f: crate::rs_resolve::FnModel) -> crate::ts_types::FuncModel {
    crate::ts_types::FuncModel {
        name: kebab_case(f.name),
        params: map_params_spec(f.params),
        result: map_result(f.return_type),
        is_async: f.is_async,
    }
}

/// Map a resolved function to a WIT function.
pub fn map_function(func: &ResolvedFunction) -> (r: WitFunc)
    ensures
        r@ == map_fn_spec(func@),
{
    WitFunc {
        name: to_kebab_case(func.name.as_str()),
        params: map_params(&func.params),
        result: map_return(&func.return_type),
        is_async: func.is_async,
    }
}

pub(crate) fn map_functions(fs: &Vec<ResolvedFunction>) -> (r: Vec<WitFunc>)
    ensures
        funcs_of(r@) == crate::rs_resolve::fns_of(fs@).map_values(|f: crate::rs_resolve::FnModel| map_fn_spec(f)),
{
    let mut out: Vec<WitFunc> = Vec::new();
    let mut i: usize = 0;
    while i < fs.len()
        invariant
            i <= fs.len(),
            funcs_of(out@) == crate::rs_resolve::fns_of(fs@.take(i as int)).map_values(|f: crate::rs_resolve::FnModel| map_fn_spec(f)),
        decreases fs.len() - i,
    {
        let m = map_function(&fs[i]);
        proof {
            assert(funcs_of(out@.push(m)) =~= funcs_of(out@).push(m@));
            assert(crate::rs_resolve::fns_of(fs@.take(i + 1)).map_values(|f: crate::rs_resolve::FnModel| map_fn_spec(f))
                =~= crate::rs_resolve::fns_of(fs@.take(i as int)).map_values(|f: crate::rs_resolve::FnModel| map_fn_spec(f)).push(map_fn_spec(fs@[i as int]@)));
        }
        out.push(m);
        i = i + 1;
    }
    assert(fs@.take(fs.len() as int) =~= fs@);
    out
}

/// The WIT resource of a resolved impl block, under the kebab-case name of its type.
pub open spec fn map_resource_spec(i: crate::rs_resolve::ImplModel) -> crate::ts_types::ResourceModel {
    crate::ts_types::ResourceModel {
        name: kebab_case(i.impl_name),
        constructor_params: match i.constructor {
            Some(c) => Some(map_params_spec(c.params)),
            None => None,
        },
        methods: i.methods.map_values(|f: crate::rs_resolve::FnModel| map_fn_spec(f)),
        static_funcs: i.static_funcs.map_values(|f: crate::rs_resolve::FnModel| map_fn_spec(f)),
    }
}

/// Map a resolved impl block to a WIT resource.
pub fn map_resource(imp: &ResolvedImpl) -> (r: WitResource)
    ensures
        r@ == map_resource_spec(imp@),
{
    let constructor_params = match &imp.constructor {
        Some(c) => Some(map_params(&c.params)),
        None => None,
    };
    WitResource {
        name: to_kebab_case(imp.impl_name.as_str()),
        constructor_params,
        methods: map_functions(&imp.methods),
        static_funcs: map_functions(&imp.static_funcs),
    }
}

/// The WIT definition of a resolved definition, names in kebab case.
pub open spec fn map_def_spec(d: crate::rs_resolve::DefModel) -> crate::ts_types::TypeDefModel {
    match d {
        crate::rs_resolve::DefModel::Record(n, fs) => crate::ts_types::TypeDefModel::Record(
            crate::ts_types::RecordModel { name: kebab_case(n), fields: map_params_spec(fs) },
        ),
        crate::rs_resolve::DefModel::Enum(n, cs) => crate::ts_types::TypeDefModel::Enum(
            crate::ts_types::EnumModel { name: kebab_case(n), cases: cs.map_values(|c: Seq<char>| kebab_case(c)) },
        ),
        crate::rs_resolve::DefModel::Variant(n, cs) => crate::ts_types::TypeDefModel::Variant(
            crate::ts_types::VariantModel {
                name: kebab_case(n),
                cases: cs.map_values(|c: (Seq<char>, Option<WitTy>)| (kebab_case(c.0), match c.1 {
                    Some(t) => Some(map_ty(t)),
                    None => None,
                })),
            },
        ),
    }
}

/// Map a resolved type definition to a WIT type definition.
pub fn map_type_def(resolved: &ResolvedTypeDef) -> (r: WitTypeDef)
    ensures
        r@ == map_def_spec(resolved@),
{
    match resolved {
        ResolvedTypeDef::Record(rec) => {
            WitTypeDef::Record(WitRecord { name: to_kebab_case(rec.name.as_str()), fields: map_params(&rec.fields) })
        },
        ResolvedTypeDef::Enum(e) => {
            let mut cases: Vec<String> = Vec::new();
            let mut i: usize = 0;
            while i < e.cases.len()
                invariant
                    i <= e.cases.len(),
                    strs_of(cases@) == strs_of(e.cases@.take(i as int)).map_values(|c: Seq<char>| kebab_case(c)),
                decreases e.cases.len() - i,
            {
                let c = to_kebab_case(e.cases[i].as_str());
                proof {
                    assert(strs_of(cases@.push(c)) =~= strs_of(cases@).push(c@));
                    assert(strs_of(e.cases@.take(i + 1)).map_values(|c: Seq<char>| kebab_case(c))
                        =~= strs_of(e.cases@.take(i as int)).map_values(|c: Seq<char>| kebab_case(c)).push(kebab_case(e.cases@[i as int]@)));
                }
                cases.push(c);
                i = i + 1;
            }
            assert(e.cases@.take(e.cases.len() as int) =~= e.cases@);
            WitTypeDef::Enum(WitEnum { name: to_kebab_case(e.name.as_str()), cases })
        },
        ResolvedTypeDef::Variant(v) => {
            let mut cases: Vec<(String, Option<WitType>)> = Vec::new();
            let mut i: usize = 0;
            while i < v.cases.len()
                invariant
                    i <= v.cases.len(),
                    crate::ts_types::cases_of(cases@) == crate::rs_resolve::vcases_of(v.cases@.take(i as int)).map_values(
                        |c: (Seq<char>, Option<WitTy>)| (kebab_case(c.0), match c.1 {
                            Some(t) => Some(map_ty(t)),
                            None => None,
                        }),
                    ),
                decreases v.cases.len() - i,
            {
                let name = to_kebab_case(v.cases[i].0.as_str());
                let payload = match &v.cases[i].1 {
                    Some(t) => Some(map_type(t)),
                    None => None,
                };
                let ghost f = |c: (Seq<char>, Option<WitTy>)| (kebab_case(c.0), match c.1 {
                    Some(t) => Some(map_ty(t)),
                    None => None,
                });
                proof {
                    assert(crate::ts_types::cases_of(cases@.push((name, payload))) =~= crate::ts_types::cases_of(cases@).push((name@, opt_wit(payload))));
                    assert(crate::rs_resolve::vcases_of(v.cases@.take(i + 1)).map_values(f)
                        =~= crate::rs_resolve::vcases_of(v.cases@.take(i as int)).map_values(f).push(f((v.cases@[i as int].0@, crate::rs_resolve::opt_res_ty(v.cases@[i as int].1)))));
                }
                cases.push((name, payload));
                i = i + 1;
            }
            assert(v.cases@.take(v.cases.len() as int) =~= v.cases@);
            WitTypeDef::Variant(WitVariant { name: to_kebab_case(v.name.as_str()), cases })
        },
    }
}


// ---------------------------------------------------------------------------
// The package
// ---------------------------------------------------------------------------

/// A SemVer version: its major, minor and patch numbers, and its
/// pre-release and build metadata as written (empty when absent).
#[derive(Debug, Clone, PartialEq, Eq)]
pub struct SemVer {
    pub major: u64,
    pub minor: u64,
    pub patch: u64,
    pub pre: String,
    pub build: String,
}

/// A version as plain values.
pub type SemVerModel = (u64, u64, u64, Seq<char>, Seq<char>);

impl View for SemVer {
    type V = SemVerModel;

    open spec fn view(&self) -> SemVerModel {
        (self.major, self.minor, self.patch, self.pre@, self.build@)
    }
}

/// The view of an optional version.
pub open spec fn opt_semver(o: Option<SemVer>) -> Option<SemVerModel> {
    match o {
        Some(v) => Some(v@),
        None => None,
    }
}

/// What `semver::Version::parse` gives for the text: the version's parts,
/// or `None` when it refuses the text.
pub uninterp spec fn semver_of(text: Seq<char>) -> Option<SemVerModel>;

/// `semver::Version::parse`, its error dropped and its result taken apart.
///
/// Trusted: the parts are named `semver_of`, a function of the text alone
/// (the parser reads nothing else); the SemVer grammar it checks is not
/// restated.
#[verifier::external_body]
pub(crate) fn parse_version(text: &str) -> (r: Option<SemVer>)
    ensures
        opt_semver(r) == semver_of(text@),
{
    match semver::Version::parse(text) {
        Ok(v) => Some(SemVer {
            major: v.major,
            minor: v.minor,
            patch: v.patch,
            pre: v.pre.as_str().to_string(),
            build: v.build.as_str().to_string(),
        }),
        Err(_) => None,
    }
}

/// The WIT package generated for a crate, before rendering.
pub struct RsWitPackage {
    pub namespace: String,
    pub package_name: String,
    /// The version, when it is valid SemVer.
    pub version: Option<SemVer>,
    /// The interface holding every export, when there are exports.
    pub interface: Option<WitInterface>,
    pub world_name: String,
    /// The interface the world exports, when there are exports.
    pub world_export: Option<String>,
}

/// The WIT definitions of resolved definitions.
pub open spec fn defs_mapped(s: Seq<crate::rs_resolve::DefModel>) -> Seq<crate::ts_types::TypeDefModel> {
    s.map_values(|d: crate::rs_resolve::DefModel| map_def_spec(d))
}

/// The WIT resources of resolved impl blocks, as definitions.
pub open spec fn impls_mapped(s: Seq<crate::rs_resolve::ImplModel>) -> Seq<crate::ts_types::TypeDefModel> {
    s.map_values(|i: crate::rs_resolve::ImplModel| crate::ts_types::TypeDefModel::Resource(map_resource_spec(i)))
}

/// Whether a resolution has exports.
pub open spec fn has_exports_spec(r: ResolveResult) -> bool {
    r.type_defs@.len() > 0 || r.impls@.len() > 0 || r.functions@.len() > 0
}

/// The interface holding every export: the type definitions, then a
/// resource per impl block, and the standalone functions.
pub open spec fn exports_interface(name: Seq<char>, r: ResolveResult) -> crate::ts_types::InterfaceModel {
    crate::ts_types::InterfaceModel {
        name,
        type_defs: defs_mapped(crate::rs_resolve::defs_of(r.type_defs@)) + impls_mapped(crate::rs_resolve::impls_of(r.impls@)),
        functions: crate::rs_resolve::fns_of(r.functions@).map_values(|f: crate::rs_resolve::FnModel| map_fn_spec(f)),
    }
}

/// The WIT definitions of a resolution: its type definitions, then a
/// resource per impl block.
pub(crate) fn map_defs_and_resources(resolved: &ResolveResult) -> (r: Vec<WitTypeDef>)
    ensures
        type_defs_of(r@) == defs_mapped(crate::rs_resolve::defs_of(resolved.type_defs@))
            + impls_mapped(crate::rs_resolve::impls_of(resolved.impls@)),
{
    let mut type_defs: Vec<WitTypeDef> = Vec::new();
    let mut i: usize = 0;
    while i < resolved.type_defs.len()
        invariant
            i <= resolved.type_defs.len(),
            type_defs_of(type_defs@) == defs_mapped(crate::rs_resolve::defs_of(resolved.type_defs@.take(i as int))),
        decreases resolved.type_defs.len() - i,
    {
        let d = map_type_def(&resolved.type_defs[i]);
        proof {
            assert(type_defs_of(type_defs@.push(d)) =~= type_defs_of(type_defs@).push(d@));
            assert(defs_mapped(crate::rs_resolve::defs_of(resolved.type_defs@.take(i + 1)))
                =~= defs_mapped(crate::rs_resolve::defs_of(resolved.type_defs@.take(i as int))).push(map_def_spec(resolved.type_defs@[i as int]@)));
        }
        type_defs.push(d);
        i = i + 1;
    }
    assert(resolved.type_defs@.take(resolved.type_defs.len() as int) =~= resolved.type_defs@);
    let ghost defs_part = type_defs_of(type_defs@);
    let mut j: usize = 0;
    while j < resolved.impls.len()
        invariant
            j <= resolved.impls.len(),
            type_defs_of(type_defs@) == defs_part + impls_mapped(crate::rs_resolve::impls_of(resolved.impls@.take(j as int))),
        decreases resolved.impls.len() - j,
    {
        let r = map_resource(&resolved.impls[j]);
        let d = WitTypeDef::Resource(r);
        proof {
            assert(type_defs_of(type_defs@.push(d)) =~= type_defs_of(type_defs@).push(d@));
            assert(impls_mapped(crate::rs_resolve::impls_of(resolved.impls@.take(j + 1)))
                =~= impls_mapped(crate::rs_resolve::impls_of(resolved.impls@.take(j as int))).push(
                    crate::ts_types::TypeDefModel::Resource(map_resource_spec(resolved.impls@[j as int]@))));
        }
        type_defs.push(d);
        j = j + 1;
    }
    assert(resolved.impls@.take(resolved.impls.len() as int) =~= resolved.impls@);
    type_defs
}

/// Assemble the WIT package of a crate from its resolved exports: one
/// interface named after the crate holds them all, and the world exports
/// it; without exports both are empty.
pub fn emit_wit(config: &EmitConfig, resolved: &ResolveResult) -> (p: RsWitPackage)
    ensures
        p.namespace@ == config.namespace@,
        p.package_name@ == config.package_name@,
        opt_semver(p.version) == match config.version {
            Some(v) => semver_of(v@),
            None => None,
        },
        p.world_name@ == config.spec_world_name(),
        has_exports_spec(*resolved) ==> (p.interface matches Some(i) && i@ == exports_interface(config.spec_interface_name(), *resolved)),
        has_exports_spec(*resolved) ==> (p.world_export matches Some(e) && e@ == config.spec_interface_name()),
        !has_exports_spec(*resolved) ==> p.interface is None && p.world_export is None,
{
    let version = match &config.version {
        Some(v) => parse_version(v.as_str()),
        None => None,
    };
    let interface_name = config.interface_name();
    let has = resolved.has_exports();
    let mut interface: Option<WitInterface> = None;
    let mut world_export: Option<String> = None;
    if has {
        let type_defs = map_defs_and_resources(resolved);
        let functions = map_functions(&resolved.functions);
        interface = Some(WitInterface { name: interface_name.clone(), type_defs, functions });
        world_export = Some(interface_name);
    }
    RsWitPackage {
        namespace: config.namespace.clone(),
        package_name: config.package_name.clone(),
        version,
        interface,
        world_name: config.world_name(),
        world_export,
    }
}

/// The WIT package identity of a crate: from the `--package` argument when
/// given, else the crate name with `_` written `-`, as namespace and name.
pub open spec fn crate_package_spec(package_arg: Option<Seq<char>>, crate_name: Seq<char>) -> Result<(Seq<char>, Seq<char>, Option<Seq<char>>), Seq<char>> {
    match package_arg {
        Some(s) => if crate::wit_common::has_package_colon(s) {
            let (rest, version) = crate::wit_common::split_version(s);
            let colon = crate::text::first_index_of(rest, ':');
            Ok((rest.take(colon), rest.skip(colon + 1), version))
        } else {
            Err(crate::wit_common::package_id_error(s))
        },
        None => {
            let name = crate_name.map_values(|c: char| if c == '_' { '-' } else { c });
            Ok((name, name, None))
        },
    }
}

/// Resolve the WIT package identity of a crate.
pub fn resolve_package(package_arg: Option<&str>, crate_name: &str) -> (r: Result<(String, String, Option<String>), String>)
    ensures
        match r {
            Ok((ns, name, ver)) => crate_package_spec(
                match package_arg { Some(s) => Some(s@), None => None },
                crate_name@,
            ) == Ok::<_, Seq<char>>((ns@, name@, crate::ts_project::opt_str(ver))),
            Err(e) => crate_package_spec(
                match package_arg { Some(s) => Some(s@), None => None },
                crate_name@,
            ) == Err::<(Seq<char>, Seq<char>, Option<Seq<char>>), _>(e@),
        },
{
    match package_arg {
        Some(s) => crate::wit_common::parse_wit_package_id(s),
        None => {
            let cs = crate::text::str_chars(crate_name);
            let mut out: Vec<char> = Vec::new();
            let mut i: usize = 0;
            while i < cs.len()
                invariant
                    i <= cs.len(),
                    cs@ == crate_name@,
                    out@ == crate_name@.take(i as int).map_values(|c: char| if c == '_' { '-' } else { c }),
                decreases cs.len() - i,
            {
                let c = cs[i];
                out.push(if c == '_' { '-' } else { c });
                assert(crate_name@.take(i + 1).map_values(|c: char| if c == '_' { '-' } else { c })
                    =~= crate_name@.take(i as int).map_values(|c: char| if c == '_' { '-' } else { c }).push(if c == '_' { '-' } else { c }));
                i = i + 1;
            }
            assert(crate_name@.take(cs.len() as int) =~= crate_name@);
            let name = crate::text::string_from_chars(out.as_slice());
            Ok((name.clone(), name, None))
        },
    }
}

/// The file name of the component built for a crate.
pub open spec fn component_wasm_spec(crate_name: Seq<char>) -> Seq<char> {
    crate::rs_emit::hyphens_to_underscores(crate_name) + "_component.wasm"@
}

/// The file name of the component built for a crate:
/// `<crate_name with _ for ->_component.wasm`.
pub fn component_wasm_name(crate_name: &str) -> (r: String)
    ensures
        r@ == component_wasm_spec(crate_name@),
{
    let mut r = crate::rs_glue::hyphens_to_underscores(crate_name);
    r.push_str("_component.wasm");
    r
}

/// The places and the cargo invocation of a component build.
pub struct BuildPlan {
    /// Where the wrapper crate is written.
    pub wrapper_dir: String,
    /// The target directory of the wasm build.
    pub build_target_dir: String,
    /// The arguments handed to `cargo`.
    pub cargo_args: Vec<String>,
    /// Where the component lands.
    pub wasm_path: String,
}

/// The arguments of the wasm build of the wrapper crate.
pub open spec fn cargo_args_spec(wrapper_dir: Seq<char>, build_dir: Seq<char>, release: bool) -> Seq<Seq<char>> {
    seq!["build"@, "--target"@, "wasm32-wasip2"@, "--manifest-path"@,
        crate::ts_project::joined_path(wrapper_dir, "Cargo.toml"@), "--target-dir"@, build_dir]
        + (if release { seq!["--release"@] } else { Seq::empty() })
}

/// Plan the component build of a crate whose cargo target directory is
/// `target_dir`: the wrapper crate under `witgenstein/component`, the build
/// under `witgenstein/build`, and the component at
/// `<build>/wasm32-wasip2/<profile>/<name>_component.wasm`.
pub fn build_plan(target_dir: &str, crate_name: &str, release: bool) -> (p: BuildPlan)
    ensures
        p.wrapper_dir@ == crate::ts_project::joined_path(target_dir@, "witgenstein/component"@),
        p.build_target_dir@ == crate::ts_project::joined_path(target_dir@, "witgenstein/build"@),
        strs_of(p.cargo_args@) == cargo_args_spec(p.wrapper_dir@, p.build_target_dir@, release),
        p.wasm_path@ == crate::ts_project::joined_path(
            crate::ts_project::joined_path(
                crate::ts_project::joined_path(p.build_target_dir@, "wasm32-wasip2"@),
                if release { "release"@ } else { "debug"@ },
            ),
            component_wasm_spec(crate_name@),
        ),
{
    let wrapper_dir = crate::ts_project::path_join(target_dir, "witgenstein/component");
    let build_target_dir = crate::ts_project::path_join(target_dir, "witgenstein/build");
    let mut cargo_args: Vec<String> = Vec::new();
    cargo_args.push("build".to_string());
    cargo_args.push("--target".to_string());
    cargo_args.push("wasm32-wasip2".to_string());
    cargo_args.push("--manifest-path".to_string());
    cargo_args.push(crate::ts_project::path_join(wrapper_dir.as_str(), "Cargo.toml"));
    cargo_args.push("--target-dir".to_string());
    cargo_args.push(build_target_dir.clone());
    if release {
        cargo_args.push("--release".to_string());
    }
    let profile = if release { "release" } else { "debug" };
    let arch_dir = crate::ts_project::path_join(build_target_dir.as_str(), "wasm32-wasip2");
    let profile_dir = crate::ts_project::path_join(arch_dir.as_str(), profile);
    let wasm_path = crate::ts_project::path_join(profile_dir.as_str(), component_wasm_name(crate_name).as_str());
    assert(strs_of(cargo_args@) =~= cargo_args_spec(wrapper_dir@, build_target_dir@, release));
    BuildPlan { wrapper_dir, build_target_dir, cargo_args, wasm_path }
}

/// The error of a crate with nothing exported.
pub open spec fn no_exports_message() -> Seq<char> {
    "no #[export] annotations found in the crate"@
}

/// Refuse a crate with nothing exported.
pub fn require_exports(items: &Vec<crate::rs_auto::ExportedItem>) -> (r: Result<(), String>)
    ensures
        r is Ok <==> items@.len() > 0,
        r matches Err(e) ==> e@ == no_exports_message(),
{
    if items.len() == 0 {
        Err("no #[export] annotations found in the crate".to_string())
    } else {
        Ok(())
    }
}

} // verus!
