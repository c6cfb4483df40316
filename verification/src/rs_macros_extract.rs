//! The model of exported Rust items that the `component!` macro builds: the
//! resolved types, exported functions, resources, and type definitions.
use vstd::prelude::*;
use crate::text::str_eq;
use crate::ts_types::WitTy;

verus! {

/// A Rust type resolved to its WIT meaning.
#[derive(Debug, PartialEq, Eq)]
pub enum ResolvedType {
    Bool,
    U8,
    U16,
    U32,
    U64,
    S8,
    S16,
    S32,
    S64,
    F32,
    F64,
    Char,
    WitString,
    List(Box<ResolvedType>),
    Option(Box<ResolvedType>),
    Result { ok: Option<Box<ResolvedType>>, err: Option<Box<ResolvedType>> },
    Tuple(Vec<ResolvedType>),
    Future(Option<Box<ResolvedType>>),
    Stream(Option<Box<ResolvedType>>),
    Named(String),
    Own(String),
    Borrow(String),
}

/// The model of an optional boxed type.
pub open spec fn opt_rty(o: Option<Box<ResolvedType>>) -> Option<Box<WitTy>>
    decreases o, 2nat,
{
    match o {
        Some(b) => Some(Box::new(rty_of(*b))),
        None => None,
    }
}

/// The model of a resolved type.
pub open spec fn rty_of(t: ResolvedType) -> WitTy
    decreases t, 1nat,
{
    match t {
        ResolvedType::Bool => WitTy::Bool,
        ResolvedType::U8 => WitTy::U8,
        ResolvedType::U16 => WitTy::U16,
        ResolvedType::U32 => WitTy::U32,
        ResolvedType::U64 => WitTy::U64,
        ResolvedType::S8 => WitTy::S8,
        ResolvedType::S16 => WitTy::S16,
        ResolvedType::S32 => WitTy::S32,
        ResolvedType::S64 => WitTy::S64,
        ResolvedType::F32 => WitTy::F32,
        ResolvedType::F64 => WitTy::F64,
        ResolvedType::Char => WitTy::Char,
        ResolvedType::WitString => WitTy::Str,
        ResolvedType::List(inner) => WitTy::List(Box::new(rty_of(*inner))),
        ResolvedType::Option(inner) => WitTy::Option(Box::new(rty_of(*inner))),
        ResolvedType::Result { ok, err } => WitTy::Result { ok: opt_rty(ok), err: opt_rty(err) },
        ResolvedType::Tuple(elems) => WitTy::Tuple(rtys_of(elems@)),
        ResolvedType::Future(inner) => WitTy::Future(opt_rty(inner)),
        ResolvedType::Stream(inner) => WitTy::Stream(opt_rty(inner)),
        ResolvedType::Named(name) => WitTy::Named(name@),
        ResolvedType::Own(name) => WitTy::Own(name@),
        ResolvedType::Borrow(name) => WitTy::Borrow(name@),
    }
}

/// The models of a sequence of resolved types.
pub open spec fn rtys_of(s: Seq<ResolvedType>) -> Seq<WitTy>
    decreases s, 0nat,
{
    if s.len() == 0 {
        Seq::empty()
    } else {
        rtys_of(s.drop_last()).push(rty_of(s.last()))
    }
}

impl View for ResolvedType {
    type V = WitTy;

    open spec fn view(&self) -> WitTy {
        rty_of(*self)
    }
}

pub proof fn lemma_rtys_of_push(s: Seq<ResolvedType>, t: ResolvedType)
    ensures
        rtys_of(s.push(t)) == rtys_of(s).push(rty_of(t)),
{
    assert(s.push(t).drop_last() == s);
}

pub proof fn lemma_rtys_of(s: Seq<ResolvedType>)
    ensures
        rtys_of(s).len() == s.len(),
        forall|i: int| 0 <= i < s.len() ==> #[trigger] rtys_of(s)[i] == rty_of(s[i]),
    decreases s.len(),
{
    if s.len() > 0 {
        lemma_rtys_of(s.drop_last());
        assert forall|i: int| 0 <= i < s.len() implies #[trigger] rtys_of(s)[i] == rty_of(s[i]) by {
            if i < s.len() - 1 {
                assert(s.drop_last()[i] == s[i]);
            }
        }
    }
}

/// The model with every `Self` name replaced by an owned handle to `name`.
pub open spec fn replace_self_spec(t: WitTy, name: Seq<char>) -> WitTy
    decreases t, 1nat,
{
    match t {
        WitTy::Named(n) => if n == "Self"@ { WitTy::Own(name) } else { t },
        WitTy::List(inner) => WitTy::List(Box::new(replace_self_spec(*inner, name))),
        WitTy::Option(inner) => WitTy::Option(Box::new(replace_self_spec(*inner, name))),
        WitTy::Result { ok, err } => WitTy::Result {
            ok: replace_self_opt(ok, name),
            err: replace_self_opt(err, name),
        },
        WitTy::Tuple(elems) => WitTy::Tuple(replace_self_all(elems, name)),
        WitTy::Future(inner) => WitTy::Future(replace_self_opt(inner, name)),
        WitTy::Stream(inner) => WitTy::Stream(replace_self_opt(inner, name)),
        _ => t,
    }
}

/// `replace_self_spec` inside an optional box.
pub open spec fn replace_self_opt(o: Option<Box<WitTy>>, name: Seq<char>) -> Option<Box<WitTy>>
    decreases o, 2nat,
{
    match o {
        Some(b) => Some(Box::new(replace_self_spec(*b, name))),
        None => None,
    }
}

/// `replace_self_spec` on each element.
pub open spec fn replace_self_all(s: Seq<WitTy>, name: Seq<char>) -> Seq<WitTy>
    decreases s, 0nat,
{
    if s.len() == 0 {
        Seq::empty()
    } else {
        replace_self_all(s.drop_last(), name).push(replace_self_spec(s.last(), name))
    }
}

fn replace_self_boxed(b: Box<ResolvedType>, owner: &str) -> (r: Box<ResolvedType>)
    ensures
        rty_of(*r) == replace_self_spec(rty_of(*b), owner@),
    decreases *b, 2nat,
{
    Box::new(replace_self_type(*b, owner))
}

fn replace_self_opt_boxed(o: Option<Box<ResolvedType>>, owner: &str) -> (r: Option<Box<ResolvedType>>)
    ensures
        opt_rty(r) == replace_self_opt(opt_rty(o), owner@),
    decreases o, 3nat,
{
    proof {
        reveal_with_fuel(opt_rty, 2);
    }
    match o {
        Some(b) => Some(replace_self_boxed(b, owner)),
        None => None,
    }
}

/// Replace `Named("Self")` with `Own(owner)` throughout a resolved type.
pub fn replace_self_type(ty: ResolvedType, owner: &str) -> (r: ResolvedType)
    ensures
        r@ == replace_self_spec(ty@, owner@),
    decreases ty, 1nat,
{
    proof {
        reveal_with_fuel(rty_of, 3);
    }
    match ty {
        ResolvedType::Named(n) => {
            if str_eq(n.as_str(), "Self") {
                let mut own = String::new();
                own.push_str(owner);
                ResolvedType::Own(own)
            } else {
                ResolvedType::Named(n)
            }
        },
        ResolvedType::List(inner) => ResolvedType::List(replace_self_boxed(inner, owner)),
        ResolvedType::Option(inner) => ResolvedType::Option(replace_self_boxed(inner, owner)),
        ResolvedType::Result { ok, err } => ResolvedType::Result {
            ok: replace_self_opt_boxed(ok, owner),
            err: replace_self_opt_boxed(err, owner),
        },
        ResolvedType::Tuple(elems) => {
            let ghost orig = elems@;
            let ghost ev = elems;
            proof {
                assert(decreases_to!(ty => ev));
                vstd::std_specs::vec::axiom_vec_decreases_to_view(ev);
            }
            let n = elems.len();
            let mut rest = elems;
            let mut out: Vec<ResolvedType> = Vec::new();
            let mut k: usize = 0;
            while rest.len() > 0
                invariant
                    k + rest@.len() == orig.len(),
                    orig.len() == n,
                    orig == ev@,
                    decreases_to!(ty => ev@),
                    rest@ == orig.skip(k as int),
                    rtys_of(out@) == replace_self_all(rtys_of(orig.take(k as int)), owner@),
                decreases rest.len(),
            {
                let e = rest.remove(0);
                proof {
                    assert(e == orig[k as int]);
                    assert(decreases_to!(ev@ => ev@[k as int]));
                    assert(decreases_to!(ty => orig[k as int]));
                }
                let r = replace_self_type(e, owner);
                proof {
                    lemma_rtys_of_push(out@, r);
                    assert(orig.take(k + 1) == orig.take(k as int).push(orig[k as int]));
                    lemma_rtys_of_push(orig.take(k as int), orig[k as int]);
                    assert(orig.skip(k as int).drop_first() == orig.skip(k + 1));
                    let a = rtys_of(orig.take(k as int));
                    let b = a.push(rty_of(orig[k as int]));
                    assert(b.drop_last() == a);
                    assert(replace_self_all(b, owner@) == replace_self_all(a, owner@).push(replace_self_spec(rty_of(orig[k as int]), owner@)));
                }
                out.push(r);
                k = k + 1;
            }
            assert(orig.take(k as int) == orig);
            ResolvedType::Tuple(out)
        },
        ResolvedType::Future(inner) => ResolvedType::Future(replace_self_opt_boxed(inner, owner)),
        ResolvedType::Stream(inner) => ResolvedType::Stream(replace_self_opt_boxed(inner, owner)),
        other => other,
    }
}

} // verus!

verus! {

/// A named, resolved parameter, as a model.
pub open spec fn rparams_of(s: Seq<(String, ResolvedType)>) -> Seq<(Seq<char>, WitTy)> {
    s.map_values(|p: (String, ResolvedType)| (p.0@, p.1@))
}

/// The model of an optional resolved type.
pub open spec fn opt_rtype(o: Option<ResolvedType>) -> Option<WitTy> {
    match o {
        Some(t) => Some(t@),
        None => None,
    }
}

/// An exported function or method.
#[derive(Debug)]
pub struct ExportedFunction {
    pub name: String,
    pub params: Vec<(String, ResolvedType)>,
    pub return_type: Option<ResolvedType>,
    pub is_async: bool,
    pub is_mut_self: bool,
}

/// An exported `impl` block, which becomes a resource.
#[derive(Debug)]
pub struct ExportedImpl {
    pub impl_name: String,
    pub constructor: Option<ExportedFunction>,
    pub methods: Vec<ExportedFunction>,
    pub static_funcs: Vec<ExportedFunction>,
}

/// A type definition referenced by the exports.
#[derive(Debug)]
pub enum ResolvedTypeDef {
    Record(ResolvedRecord),
    Enum(ResolvedEnum),
    Variant(ResolvedVariant),
}

/// A struct, as a record.
#[derive(Debug)]
pub struct ResolvedRecord {
    pub name: String,
    pub fields: Vec<(String, ResolvedType)>,
}

/// A fieldless enum.
#[derive(Debug)]
pub struct ResolvedEnum {
    pub name: String,
    pub cases: Vec<String>,
}

/// An enum with payloads.
#[derive(Debug)]
pub struct ResolvedVariant {
    pub name: String,
    pub cases: Vec<(String, Option<ResolvedType>)>,
}

} // verus!

verus! {

/// Discovers exports and the types they reference from Rust items.
pub struct TypeDiscovery {
    pub functions: Vec<ExportedFunction>,
    pub impls: Vec<ExportedImpl>,
    pub type_defs: Vec<ResolvedTypeDef>,
    /// Struct definitions available, in the order they were registered.
    pub structs: Vec<crate::rs_syntax::StructDef>,
    /// Enum definitions available, in the order they were registered.
    pub enums: Vec<crate::rs_syntax::EnumDef>,
    /// Names for which a definition has been looked up.
    pub visited_types: Vec<String>,
    /// Names of the types whose `impl` blocks are exported as resources.
    pub resource_types: Vec<String>,
}

impl TypeDiscovery {
    /// A discovery with nothing found yet.
    pub fn new() -> (d: Self)
        ensures
            d.functions@.len() == 0,
            d.impls@.len() == 0,
            d.type_defs@.len() == 0,
            d.structs@.len() == 0,
            d.enums@.len() == 0,
            d.visited_types@.len() == 0,
            d.resource_types@.len() == 0,
    {
        TypeDiscovery {
            functions: Vec::new(),
            impls: Vec::new(),
            type_defs: Vec::new(),
            structs: Vec::new(),
            enums: Vec::new(),
            visited_types: Vec::new(),
            resource_types: Vec::new(),
        }
    }
}

} // verus!
