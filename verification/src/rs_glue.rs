//! Glue between the user's Rust types and the generated bindings: which
//! named types need conversions, how binding types and conversion calls are
//! written, and where the bindings live.
use vstd::prelude::*;
use crate::text::str_eq;
use crate::wit_common::{char_after, kebab_case, kebab_prefix, kebab_step};
use crate::ts_types::{strs_of, WitTy};
use crate::rs_macros_extract::{
    opt_rty, rty_of, rtys_of, lemma_rtys_of, ExportedFunction, ExportedImpl, ResolvedType,
    ResolvedTypeDef, TypeDiscovery,
};

verus! {

// ---------------------------------------------------------------------------
// Named types
// ---------------------------------------------------------------------------

/// The names of the user types a type refers to by value (`Named`), through
/// lists, options, results, tuples, futures and streams.
pub open spec fn names_in(t: WitTy) -> Set<Seq<char>>
    decreases t, 1nat,
{
    match t {
        WitTy::Named(n) => set![n],
        WitTy::List(i) => names_in(*i),
        WitTy::Option(i) => names_in(*i),
        WitTy::Result { ok, err } => opt_names(ok) + opt_names(err),
        WitTy::Tuple(es) => names_all(es),
        WitTy::Future(o) => opt_names(o),
        WitTy::Stream(o) => opt_names(o),
        _ => Set::empty(),
    }
}

/// The names in an optional boxed type.
pub open spec fn opt_names(o: Option<Box<WitTy>>) -> Set<Seq<char>>
    decreases o, 2nat,
{
    match o {
        Some(b) => names_in(*b),
        None => Set::empty(),
    }
}

/// The names in a sequence of types.
pub open spec fn names_all(es: Seq<WitTy>) -> Set<Seq<char>>
    decreases es, 0nat,
{
    if es.len() == 0 {
        Set::empty()
    } else {
        names_all(es.drop_last()) + names_in(es.last())
    }
}

/// The names a type refers to form a finite set.
pub proof fn lemma_names_finite(t: WitTy)
    ensures
        names_in(t).finite(),
    decreases t, 1nat,
{
    match t {
        WitTy::List(i) => lemma_names_finite(*i),
        WitTy::Option(i) => lemma_names_finite(*i),
        WitTy::Result { ok, err } => {
            lemma_opt_names_finite(ok);
            lemma_opt_names_finite(err);
        },
        WitTy::Tuple(es) => lemma_names_all_finite(es),
        WitTy::Future(o) => lemma_opt_names_finite(o),
        WitTy::Stream(o) => lemma_opt_names_finite(o),
        _ => {},
    }
}

proof fn lemma_opt_names_finite(o: Option<Box<WitTy>>)
    ensures
        opt_names(o).finite(),
    decreases o, 2nat,
{
    match o {
        Some(b) => lemma_names_finite(*b),
        None => {},
    }
}

proof fn lemma_names_all_finite(es: Seq<WitTy>)
    ensures
        names_all(es).finite(),
    decreases es, 0nat,
{
    if es.len() > 0 {
        lemma_names_all_finite(es.drop_last());
        lemma_names_finite(es.last());
    }
}

/// Whether a type refers to a user type by value.
pub open spec fn has_named(t: WitTy) -> bool
    decreases t, 1nat,
{
    match t {
        WitTy::Named(_) => true,
        WitTy::List(i) => has_named(*i),
        WitTy::Option(i) => has_named(*i),
        WitTy::Result { ok, err } => opt_has_named(ok) || opt_has_named(err),
        WitTy::Tuple(es) => any_named(es),
        WitTy::Future(o) => opt_has_named(o),
        WitTy::Stream(o) => opt_has_named(o),
        _ => false,
    }
}

/// Whether an optional boxed type refers to a user type by value.
pub open spec fn opt_has_named(o: Option<Box<WitTy>>) -> bool
    decreases o, 2nat,
{
    match o {
        Some(b) => has_named(*b),
        None => false,
    }
}

/// Whether any of a sequence of types refers to a user type by value.
pub open spec fn any_named(es: Seq<WitTy>) -> bool
    decreases es, 0nat,
{
    if es.len() == 0 {
        false
    } else {
        any_named(es.drop_last()) || has_named(es.last())
    }
}

/// Add each element of `s` to a duplicate-free list of names.
fn add_name(names: &mut Vec<String>, n: &String)
    requires
        strs_of(old(names)@).no_duplicates(),
    ensures
        strs_of(final(names)@).no_duplicates(),
        strs_of(final(names)@).to_set() == strs_of(old(names)@).to_set().insert(n@),
        final(names)@.len() >= old(names)@.len(),
        (final(names)@.len() == old(names)@.len()) == strs_of(old(names)@).to_set().contains(n@),
{
    let ghost before = strs_of(names@);
    if crate::ts_project::contains_str(names.as_slice(), n.as_str()) {
        assert(before.to_set().insert(n@) =~= before.to_set());
        return;
    }
    names.push(n.clone());
    proof {
        assert(strs_of(names@) =~= before.push(n@));
        before.lemma_push_to_set_commute(n@);
        assert(strs_of(names@).no_duplicates()) by {
            assert forall|i: int, j: int| 0 <= i < j < strs_of(names@).len() implies strs_of(names@)[i] != strs_of(names@)[j] by {
                if j == before.len() {
                    assert(before.contains(before[i]));
                }
            }
        }
    }
}

proof fn lemma_opt_box(o: Option<Box<ResolvedType>>)
    ensures
        opt_names(opt_rty(o)) == match o {
            Some(b) => names_in(rty_of(*b)),
            None => Set::<Seq<char>>::empty(),
        },
        opt_has_named(opt_rty(o)) == match o {
            Some(b) => has_named(rty_of(*b)),
            None => false,
        },
{
    reveal_with_fuel(opt_rty, 2);
}

/// Collect the names a type refers to by value into a duplicate-free list.
pub fn collect_named_in(ty: &ResolvedType, names: &mut Vec<String>)
    requires
        strs_of(old(names)@).no_duplicates(),
    ensures
        strs_of(final(names)@).no_duplicates(),
        strs_of(final(names)@).to_set() == strs_of(old(names)@).to_set() + names_in(ty@),
        final(names)@.len() >= old(names)@.len(),
    decreases *ty,
{
    proof { reveal_with_fuel(rty_of, 2); }
    let ghost s0 = strs_of(names@).to_set();
    match ty {
        ResolvedType::Named(n) => {
            add_name(names, n);
            assert(s0.insert(n@) =~= s0 + set![n@]);
        },
        ResolvedType::List(inner) | ResolvedType::Option(inner) => {
            collect_named_in(&**inner, names);
        },
        ResolvedType::Future(o) | ResolvedType::Stream(o) => {
            proof { lemma_opt_box(*o); }
            match o {
                Some(inner) => collect_named_in(&**inner, names),
                None => {
                    assert(s0 + Set::<Seq<char>>::empty() =~= s0);
                },
            }
        },
        ResolvedType::Result { ok, err } => {
            proof {
                lemma_opt_box(*ok);
                lemma_opt_box(*err);
            }
            match ok {
                Some(t) => collect_named_in(&**t, names),
                None => {},
            }
            let ghost s1 = strs_of(names@).to_set();
            match err {
                Some(t) => collect_named_in(&**t, names),
                None => {},
            }
            assert(strs_of(names@).to_set() =~= s0 + (opt_names(opt_rty(*ok)) + opt_names(opt_rty(*err))));
        },
        ResolvedType::Tuple(elems) => {
            let ghost ev = *elems;
            proof {
                lemma_rtys_of(elems@);
                vstd::std_specs::vec::axiom_vec_decreases_to_view(ev);
            }
            let mut i: usize = 0;
            assert(rtys_of(elems@).take(0) =~= Seq::<WitTy>::empty());
            while i < elems.len()
                invariant
                    i <= elems.len(),
                    ev == *elems,
                    decreases_to!(*ty => ev),
                    decreases_to!(ev => ev@),
                    strs_of(names@).no_duplicates(),
                    strs_of(names@).to_set() == s0 + names_all(rtys_of(elems@).take(i as int)),
                    names@.len() >= old(names)@.len(),
                    rtys_of(elems@).len() == elems@.len(),
                    forall|j: int| 0 <= j < elems@.len() ==> #[trigger] rtys_of(elems@)[j] == rty_of(elems@[j]),
                decreases elems.len() - i,
            {
                proof {
                    assert(decreases_to!(ev@ => ev@[i as int]));
                }
                collect_named_in(&elems[i], names);
                proof {
                    let es = rtys_of(elems@);
                    assert(es.take(i + 1).drop_last() =~= es.take(i as int));
                    assert(es.take(i + 1).last() == rty_of(elems@[i as int]));
                }
                assert(strs_of(names@).to_set() =~= s0 + names_all(rtys_of(elems@).take(i + 1)));
                i = i + 1;
            }
            assert(rtys_of(elems@).take(elems.len() as int) =~= rtys_of(elems@));
        },
        _ => {
            assert(s0 + Set::<Seq<char>>::empty() =~= s0);
        },
    }
}

/// Whether a type refers to a user type by value.
pub fn contains_named(ty: &ResolvedType) -> (b: bool)
    ensures
        b == has_named(ty@),
    decreases *ty,
{
    proof { reveal_with_fuel(rty_of, 2); }
    match ty {
        ResolvedType::Named(_) => true,
        ResolvedType::List(inner) | ResolvedType::Option(inner) => contains_named(&**inner),
        ResolvedType::Future(o) | ResolvedType::Stream(o) => {
            proof { lemma_opt_box(*o); }
            match o {
                Some(inner) => contains_named(&**inner),
                None => false,
            }
        },
        ResolvedType::Result { ok, err } => {
            proof {
                lemma_opt_box(*ok);
                lemma_opt_box(*err);
            }
            let a = match ok {
                Some(t) => contains_named(&**t),
                None => false,
            };
            if a {
                return true;
            }
            match err {
                Some(t) => contains_named(&**t),
                None => false,
            }
        },
        ResolvedType::Tuple(elems) => {
            let ghost ev = *elems;
            proof {
                lemma_rtys_of(elems@);
                vstd::std_specs::vec::axiom_vec_decreases_to_view(ev);
            }
            let mut i: usize = 0;
            while i < elems.len()
                invariant
                    i <= elems.len(),
                    ev == *elems,
                    decreases_to!(*ty => ev),
                    decreases_to!(ev => ev@),
                    any_named(rtys_of(elems@).take(i as int)) == false,
                    has_named(rty_of(*ty)) == any_named(rtys_of(elems@)),
                    rtys_of(elems@).len() == elems@.len(),
                    forall|j: int| 0 <= j < elems@.len() ==> #[trigger] rtys_of(elems@)[j] == rty_of(elems@[j]),
                decreases elems.len() - i,
            {
                proof {
                    assert(decreases_to!(ev@ => ev@[i as int]));
                    let es = rtys_of(elems@);
                    assert(es.take(i + 1).drop_last() =~= es.take(i as int));
                    assert(es.take(i + 1).last() == rty_of(elems@[i as int]));
                }
                if contains_named(&elems[i]) {
                    proof {
                        assert(any_named(rtys_of(elems@).take(i + 1)));
                        lemma_any_named_prefix(rtys_of(elems@), i as int + 1);
                    }
                    return true;
                }
                i = i + 1;
            }
            assert(rtys_of(elems@).take(elems.len() as int) =~= rtys_of(elems@));
            false
        },
        _ => false,
    }
}

/// A named type in a prefix is a named type in the whole.
proof fn lemma_any_named_prefix(es: Seq<WitTy>, n: int)
    requires
        0 <= n <= es.len(),
        any_named(es.take(n)),
    ensures
        any_named(es),
    decreases es.len() - n,
{
    if n < es.len() {
        assert(es.take(n + 1).drop_last() =~= es.take(n));
        lemma_any_named_prefix(es, n + 1);
    } else {
        assert(es.take(n) =~= es);
    }
}

/// Whether either side of a `Result` refers to a user type by value.
pub fn result_contains_named(ok: &Option<Box<ResolvedType>>, err: &Option<Box<ResolvedType>>) -> (b: bool)
    ensures
        b == (opt_has_named(opt_rty(*ok)) || opt_has_named(opt_rty(*err))),
{
    proof {
        lemma_opt_box(*ok);
        lemma_opt_box(*err);
    }
    let a = match ok {
        Some(t) => contains_named(&**t),
        None => false,
    };
    if a {
        return true;
    }
    match err {
        Some(t) => contains_named(&**t),
        None => false,
    }
}


/// The names the types of named fields refer to.
pub open spec fn params_names(ps: Seq<(String, ResolvedType)>) -> Set<Seq<char>>
    decreases ps.len(),
{
    if ps.len() == 0 {
        Set::empty()
    } else {
        params_names(ps.drop_last()) + names_in(ps.last().1@)
    }
}

/// The names an optional type refers to.
pub open spec fn ret_names(r: Option<ResolvedType>) -> Set<Seq<char>> {
    match r {
        Some(t) => names_in(t@),
        None => Set::empty(),
    }
}

/// The names the parameters and return type of a function refer to.
pub open spec fn fn_names(f: ExportedFunction) -> Set<Seq<char>> {
    params_names(f.params@) + ret_names(f.return_type)
}

/// The names a sequence of functions refers to.
pub open spec fn fns_names(fs: Seq<ExportedFunction>) -> Set<Seq<char>>
    decreases fs.len(),
{
    if fs.len() == 0 {
        Set::empty()
    } else {
        fns_names(fs.drop_last()) + fn_names(fs.last())
    }
}

/// The names a resource's signatures refer to: the constructor's
/// parameters, and the methods' and static functions' signatures.
pub open spec fn impl_names(i: ExportedImpl) -> Set<Seq<char>> {
    (match i.constructor {
        Some(c) => params_names(c.params@),
        None => Set::empty(),
    }) + fns_names(i.methods@) + fns_names(i.static_funcs@)
}

/// The names a sequence of resources refers to.
pub open spec fn impls_names(is: Seq<ExportedImpl>) -> Set<Seq<char>>
    decreases is.len(),
{
    if is.len() == 0 {
        Set::empty()
    } else {
        impls_names(is.drop_last()) + impl_names(is.last())
    }
}

/// The names the exported signatures refer to directly.
pub open spec fn direct_names(d: TypeDiscovery) -> Set<Seq<char>> {
    fns_names(d.functions@) + impls_names(d.impls@)
}

/// The names the payloads of variant cases refer to.
pub open spec fn payload_names(cs: Seq<(String, Option<ResolvedType>)>) -> Set<Seq<char>>
    decreases cs.len(),
{
    if cs.len() == 0 {
        Set::empty()
    } else {
        payload_names(cs.drop_last()) + ret_names(cs.last().1)
    }
}

/// The name under which a record or variant definition is referred to.
pub open spec fn def_key(td: ResolvedTypeDef) -> Option<Seq<char>> {
    match td {
        ResolvedTypeDef::Record(r) => Some(r.name@),
        ResolvedTypeDef::Variant(v) => Some(v.name@),
        ResolvedTypeDef::Enum(_) => None,
    }
}

/// The names the fields or payloads of a definition refer to.
pub open spec fn def_fields_names(td: ResolvedTypeDef) -> Set<Seq<char>> {
    match td {
        ResolvedTypeDef::Record(r) => params_names(r.fields@),
        ResolvedTypeDef::Variant(v) => payload_names(v.cases@),
        ResolvedTypeDef::Enum(_) => Set::empty(),
    }
}

/// The names all definitions' fields refer to.
pub open spec fn all_field_names(defs: Seq<ResolvedTypeDef>) -> Set<Seq<char>>
    decreases defs.len(),
{
    if defs.len() == 0 {
        Set::empty()
    } else {
        all_field_names(defs.drop_last()) + def_fields_names(defs.last())
    }
}

/// Whether `s` holds the field names of every record or variant it names.
pub open spec fn closed_under(s: Set<Seq<char>>, defs: Seq<ResolvedTypeDef>) -> bool {
    forall|i: int| 0 <= i < defs.len() ==> (def_key(#[trigger] defs[i]) matches Some(k) && s.contains(k)
        ==> def_fields_names(defs[i]).subset_of(s))
}

/// Whether `s` lies inside every set that holds `direct` and is closed under `defs`.
pub open spec fn least_closed(s: Set<Seq<char>>, direct: Set<Seq<char>>, defs: Seq<ResolvedTypeDef>) -> bool {
    forall|t: Set<Seq<char>>| #[trigger] closed_under(t, defs) && direct.subset_of(t) ==> s.subset_of(t)
}

/// The least set of names that holds `direct` and is closed under `defs`:
/// the names in every such set.
pub open spec fn least_closed_set(direct: Set<Seq<char>>, defs: Seq<ResolvedTypeDef>) -> Set<Seq<char>> {
    Set::new(|n: Seq<char>| forall|t: Set<Seq<char>>| #[trigger] closed_under(t, defs) && direct.subset_of(t) ==> t.contains(n))
}

/// The named types of a discovery that need conversions.
pub open spec fn needed_types(d: TypeDiscovery) -> Set<Seq<char>> {
    least_closed_set(direct_names(d), d.type_defs@)
}

/// A set that holds `direct`, is closed under `defs` and lies inside every
/// other such set is the least closed set.
pub proof fn lemma_least_closed_unique(s: Set<Seq<char>>, direct: Set<Seq<char>>, defs: Seq<ResolvedTypeDef>)
    requires
        direct.subset_of(s),
        closed_under(s, defs),
        least_closed(s, direct, defs),
    ensures
        s == least_closed_set(direct, defs),
{
    let l = least_closed_set(direct, defs);
    assert forall|n: Seq<char>| s.contains(n) implies l.contains(n) by {
        assert forall|t: Set<Seq<char>>| #[trigger] closed_under(t, defs) && direct.subset_of(t) implies t.contains(n) by {
            assert(s.subset_of(t));
        }
    }
    assert forall|n: Seq<char>| l.contains(n) implies s.contains(n) by {
        assert(closed_under(s, defs) && direct.subset_of(s));
    }
    assert(s =~= l);
}

proof fn lemma_def_fields_in_all(defs: Seq<ResolvedTypeDef>, i: int)
    requires
        0 <= i < defs.len(),
    ensures
        def_fields_names(defs[i]).subset_of(all_field_names(defs)),
    decreases defs.len(),
{
    if i < defs.len() - 1 {
        lemma_def_fields_in_all(defs.drop_last(), i);
        assert(defs.drop_last()[i] == defs[i]);
    }
}

proof fn lemma_params_names_finite(ps: Seq<(String, ResolvedType)>)
    ensures
        params_names(ps).finite(),
    decreases ps.len(),
{
    if ps.len() > 0 {
        lemma_params_names_finite(ps.drop_last());
        lemma_names_finite(ps.last().1@);
    }
}

proof fn lemma_payload_names_finite(cs: Seq<(String, Option<ResolvedType>)>)
    ensures
        payload_names(cs).finite(),
    decreases cs.len(),
{
    if cs.len() > 0 {
        lemma_payload_names_finite(cs.drop_last());
        match cs.last().1 {
            Some(t) => lemma_names_finite(t@),
            None => {},
        }
    }
}

proof fn lemma_all_field_names_finite(defs: Seq<ResolvedTypeDef>)
    ensures
        all_field_names(defs).finite(),
    decreases defs.len(),
{
    if defs.len() > 0 {
        lemma_all_field_names_finite(defs.drop_last());
        match defs.last() {
            ResolvedTypeDef::Record(r) => lemma_params_names_finite(r.fields@),
            ResolvedTypeDef::Variant(v) => lemma_payload_names_finite(v.cases@),
            ResolvedTypeDef::Enum(_) => {},
        }
    }
}

/// Collect the names the types of named fields refer to.
fn collect_params_names(ps: &Vec<(String, ResolvedType)>, names: &mut Vec<String>)
    requires
        strs_of(old(names)@).no_duplicates(),
    ensures
        strs_of(final(names)@).no_duplicates(),
        strs_of(final(names)@).to_set() == strs_of(old(names)@).to_set() + params_names(ps@),
{
    let ghost s0 = strs_of(names@).to_set();
    let mut i: usize = 0;
    assert(ps@.take(0) =~= Seq::<(String, ResolvedType)>::empty());
    assert(s0 + Set::<Seq<char>>::empty() =~= s0);
    while i < ps.len()
        invariant
            i <= ps.len(),
            strs_of(names@).no_duplicates(),
            strs_of(names@).to_set() == s0 + params_names(ps@.take(i as int)),
        decreases ps.len() - i,
    {
        collect_named_in(&ps[i].1, names);
        proof {
            assert(ps@.take(i + 1).drop_last() =~= ps@.take(i as int));
            assert(ps@.take(i + 1).last() == ps@[i as int]);
        }
        assert(strs_of(names@).to_set() =~= s0 + params_names(ps@.take(i + 1)));
        i = i + 1;
    }
    assert(ps@.take(ps.len() as int) =~= ps@);
}

/// Collect the names the payloads of variant cases refer to.
fn collect_payload_names(cs: &Vec<(String, Option<ResolvedType>)>, names: &mut Vec<String>)
    requires
        strs_of(old(names)@).no_duplicates(),
    ensures
        strs_of(final(names)@).no_duplicates(),
        strs_of(final(names)@).to_set() == strs_of(old(names)@).to_set() + payload_names(cs@),
{
    let ghost s0 = strs_of(names@).to_set();
    let mut i: usize = 0;
    assert(cs@.take(0) =~= Seq::<(String, Option<ResolvedType>)>::empty());
    assert(s0 + Set::<Seq<char>>::empty() =~= s0);
    while i < cs.len()
        invariant
            i <= cs.len(),
            strs_of(names@).no_duplicates(),
            strs_of(names@).to_set() == s0 + payload_names(cs@.take(i as int)),
        decreases cs.len() - i,
    {
        let ghost s1 = strs_of(names@).to_set();
        match &cs[i].1 {
            Some(t) => collect_named_in(t, names),
            None => {
                assert(s1 + Set::<Seq<char>>::empty() =~= s1);
            },
        }
        proof {
            assert(cs@.take(i + 1).drop_last() =~= cs@.take(i as int));
            assert(cs@.take(i + 1).last() == cs@[i as int]);
        }
        assert(strs_of(names@).to_set() =~= s0 + payload_names(cs@.take(i + 1)));
        i = i + 1;
    }
    assert(cs@.take(cs.len() as int) =~= cs@);
}

/// Collect the names a function's signature refers to.
fn collect_fn_names(f: &ExportedFunction, names: &mut Vec<String>)
    requires
        strs_of(old(names)@).no_duplicates(),
    ensures
        strs_of(final(names)@).no_duplicates(),
        strs_of(final(names)@).to_set() == strs_of(old(names)@).to_set() + fn_names(*f),
{
    let ghost s0 = strs_of(names@).to_set();
    collect_params_names(&f.params, names);
    let ghost s1 = strs_of(names@).to_set();
    match &f.return_type {
        Some(t) => collect_named_in(t, names),
        None => {
            assert(s1 + Set::<Seq<char>>::empty() =~= s1);
        },
    }
    assert(strs_of(names@).to_set() =~= s0 + fn_names(*f));
}

/// Collect the names a sequence of functions refers to.
fn collect_fns_names(fs: &Vec<ExportedFunction>, names: &mut Vec<String>)
    requires
        strs_of(old(names)@).no_duplicates(),
    ensures
        strs_of(final(names)@).no_duplicates(),
        strs_of(final(names)@).to_set() == strs_of(old(names)@).to_set() + fns_names(fs@),
{
    let ghost s0 = strs_of(names@).to_set();
    let mut i: usize = 0;
    assert(fs@.take(0) =~= Seq::<ExportedFunction>::empty());
    assert(s0 + Set::<Seq<char>>::empty() =~= s0);
    while i < fs.len()
        invariant
            i <= fs.len(),
            strs_of(names@).no_duplicates(),
            strs_of(names@).to_set() == s0 + fns_names(fs@.take(i as int)),
        decreases fs.len() - i,
    {
        collect_fn_names(&fs[i], names);
        proof {
            assert(fs@.take(i + 1).drop_last() =~= fs@.take(i as int));
            assert(fs@.take(i + 1).last() == fs@[i as int]);
        }
        assert(strs_of(names@).to_set() =~= s0 + fns_names(fs@.take(i + 1)));
        i = i + 1;
    }
    assert(fs@.take(fs.len() as int) =~= fs@);
}

/// Collect the names the exported signatures refer to directly.
fn collect_direct_names(d: &TypeDiscovery) -> (names: Vec<String>)
    ensures
        strs_of(names@).no_duplicates(),
        strs_of(names@).to_set() == direct_names(*d),
{
    let mut names: Vec<String> = Vec::new();
    assert(strs_of(names@).to_set() =~= Set::<Seq<char>>::empty());
    collect_fns_names(&d.functions, &mut names);
    let ghost s1 = strs_of(names@).to_set();
    let mut i: usize = 0;
    assert(d.impls@.take(0) =~= Seq::<ExportedImpl>::empty());
    assert(s1 + Set::<Seq<char>>::empty() =~= s1);
    while i < d.impls.len()
        invariant
            i <= d.impls.len(),
            strs_of(names@).no_duplicates(),
            strs_of(names@).to_set() == s1 + impls_names(d.impls@.take(i as int)),
        decreases d.impls.len() - i,
    {
        let imp = &d.impls[i];
        let ghost s2 = strs_of(names@).to_set();
        match &imp.constructor {
            Some(c) => collect_params_names(&c.params, &mut names),
            None => {
                assert(s2 + Set::<Seq<char>>::empty() =~= s2);
            },
        }
        collect_fns_names(&imp.methods, &mut names);
        collect_fns_names(&imp.static_funcs, &mut names);
        proof {
            assert(d.impls@.take(i + 1).drop_last() =~= d.impls@.take(i as int));
            assert(d.impls@.take(i + 1).last() == d.impls@[i as int]);
        }
        assert(strs_of(names@).to_set() =~= s1 + impls_names(d.impls@.take(i + 1)));
        i = i + 1;
    }
    assert(d.impls@.take(d.impls.len() as int) =~= d.impls@);
    assert(strs_of(names@).to_set() =~= direct_names(*d));
    names
}

/// The named types that need conversions: those the exported signatures
/// refer to by value, and, transitively, those the fields of such records
/// and variants refer to. The result is the least set of names that holds
/// the direct ones and is closed under the definitions.
pub fn collect_named_types(d: &TypeDiscovery) -> (names: Vec<String>)
    ensures
        strs_of(names@).no_duplicates(),
        direct_names(*d).subset_of(strs_of(names@).to_set()),
        closed_under(strs_of(names@).to_set(), d.type_defs@),
        least_closed(strs_of(names@).to_set(), direct_names(*d), d.type_defs@),
        strs_of(names@).to_set() == needed_types(*d),
{
    let mut names = collect_direct_names(d);
    let ghost direct = direct_names(*d);
    let ghost defs = d.type_defs@;
    let ghost universe = direct + all_field_names(defs);
    proof {
        lemma_all_field_names_finite(defs);
        vstd::seq_lib::seq_to_set_is_finite(strs_of(names@));
    }
    let mut changed = true;
    while changed
        invariant
            defs == d.type_defs@,
            universe == direct + all_field_names(defs),
            universe.finite(),
            strs_of(names@).no_duplicates(),
            direct.subset_of(strs_of(names@).to_set()),
            strs_of(names@).to_set().subset_of(universe),
            least_closed(strs_of(names@).to_set(), direct, defs),
            !changed ==> closed_under(strs_of(names@).to_set(), defs),
        decreases (if changed { universe.difference(strs_of(names@).to_set()).len() + 1 } else { 0 }),
    {
        let ghost s0 = strs_of(names@).to_set();
        let ghost m0 = if changed { universe.difference(s0).len() + 1 } else { 0 };
        changed = false;
        let mut i: usize = 0;
        while i < d.type_defs.len()
            invariant
                i <= d.type_defs.len(),
                defs == d.type_defs@,
                universe == direct + all_field_names(defs),
                universe.finite(),
                strs_of(names@).no_duplicates(),
                direct.subset_of(strs_of(names@).to_set()),
                s0.subset_of(strs_of(names@).to_set()),
                strs_of(names@).to_set().subset_of(universe),
                least_closed(strs_of(names@).to_set(), direct, defs),
                !changed ==> strs_of(names@).to_set() == s0,
                changed ==> strs_of(names@).to_set() != s0,
                !changed ==> forall|j: int| 0 <= j < i ==> (def_key(#[trigger] defs[j]) matches Some(k)
                    && s0.contains(k) ==> def_fields_names(defs[j]).subset_of(s0)),
            decreases d.type_defs.len() - i,
        {
            let td = &d.type_defs[i];
            let key = match td {
                ResolvedTypeDef::Record(r) => Some(&r.name),
                ResolvedTypeDef::Variant(v) => Some(&v.name),
                ResolvedTypeDef::Enum(_) => None,
            };
            let named = match key {
                Some(k) => crate::ts_project::contains_str(names.as_slice(), k.as_str()),
                None => false,
            };
            if named {
                let ghost s1 = strs_of(names@).to_set();
                let ghost seq1 = strs_of(names@);
                let before = names.len();
                match td {
                    ResolvedTypeDef::Record(r) => collect_params_names(&r.fields, &mut names),
                    ResolvedTypeDef::Variant(v) => collect_payload_names(&v.cases, &mut names),
                    ResolvedTypeDef::Enum(_) => {},
                }
                proof {
                    let s2 = strs_of(names@).to_set();
                    assert(s2 == s1 + def_fields_names(defs[i as int]));
                    lemma_def_fields_in_all(defs, i as int);
                    assert forall|t: Set<Seq<char>>| #[trigger] closed_under(t, defs) && direct.subset_of(t) implies s2.subset_of(t) by {
                        assert(s1.subset_of(t));
                        assert(def_key(defs[i as int]) matches Some(k) && t.contains(k));
                    }
                    strs_of(names@).unique_seq_to_set();
                }
                if names.len() > before {
                    proof {
                        seq1.unique_seq_to_set();
                        assert(strs_of(names@).to_set().len() > s1.len());
                        if !changed {
                            assert(s1 == s0);
                        } else {
                            assert(s1 != s0);
                            assert(s0.subset_of(s1));
                            if strs_of(names@).to_set() == s0 {
                                assert(s1.subset_of(s0));
                                assert(s1 =~= s0);
                            }
                        }
                    }
                    changed = true;
                } else {
                    proof {
                        seq1.unique_seq_to_set();
                        vstd::seq_lib::seq_to_set_is_finite(strs_of(names@));
                        assert(s1.subset_of(strs_of(names@).to_set()));
                        vstd::set_lib::lemma_len_subset(s1, strs_of(names@).to_set());
                        if strs_of(names@).to_set() != s1 {
                            assert(exists|x: Seq<char>| strs_of(names@).to_set().contains(x) && !s1.contains(x)) by {
                                if forall|x: Seq<char>| strs_of(names@).to_set().contains(x) ==> s1.contains(x) {
                                    assert(strs_of(names@).to_set() =~= s1);
                                }
                            }
                            let x = choose|x: Seq<char>| strs_of(names@).to_set().contains(x) && !s1.contains(x);
                            s1.lemma_subset_not_in_lt(strs_of(names@).to_set(), x);
                        }
                        assert(strs_of(names@).to_set() == s1);
                    }
                }
            }
            i = i + 1;
        }
        proof {
            if changed {
                let s = strs_of(names@).to_set();
                vstd::set_lib::lemma_len_subset(universe.difference(s), universe.difference(s0));
                assert(exists|x: Seq<char>| s.contains(x) && !s0.contains(x)) by {
                    if forall|x: Seq<char>| s.contains(x) ==> s0.contains(x) {
                        assert(s =~= s0);
                    }
                }
                let x = choose|x: Seq<char>| s.contains(x) && !s0.contains(x);
                universe.difference(s).lemma_subset_not_in_lt(universe.difference(s0), x);
            }
        }
    }
    proof { lemma_least_closed_unique(strs_of(names@).to_set(), direct, defs); }
    names
}


// ---------------------------------------------------------------------------
// Names in the bindings
// ---------------------------------------------------------------------------

/// `s` with each `-` replaced by `_`.
pub open spec fn snake_of(s: Seq<char>) -> Seq<char> {
    s.map_values(|c: char| if c == '-' { '_' } else { c })
}

/// `s` with each `-` replaced by `_`.
pub fn hyphens_to_underscores(s: &str) -> (r: String)
    ensures
        r@ == snake_of(s@),
{
    let cs = crate::text::str_chars(s);
    let mut out: Vec<char> = Vec::new();
    let mut i: usize = 0;
    while i < cs.len()
        invariant
            i <= cs.len(),
            cs@ == s@,
            out@ == snake_of(s@.take(i as int)),
        decreases cs.len() - i,
    {
        let c = cs[i];
        out.push(if c == '-' { '_' } else { c });
        assert(snake_of(s@.take(i + 1)) =~= snake_of(s@.take(i as int)).push(if c == '-' { '_' } else { c }));
        i = i + 1;
    }
    assert(s@.take(cs.len() as int) =~= s@);
    crate::text::string_from_chars(out.as_slice())
}

/// The PascalCase form of a kebab-case name, built from its first `n`
/// characters, and whether the next character starts a segment.
pub open spec fn pascal_prefix(s: Seq<char>, n: nat) -> (Seq<char>, bool)
    decreases n,
{
    if n == 0 || n > s.len() {
        (Seq::empty(), true)
    } else {
        let (o, at_start) = pascal_prefix(s, (n - 1) as nat);
        let c = s[n - 1];
        if c == '-' {
            (o, true)
        } else if at_start {
            (o + crate::text::uppercase_mapping(c), false)
        } else {
            (o.push(c), false)
        }
    }
}

/// The PascalCase form of a kebab-case name: each `-`-separated segment
/// with its first character upper-cased, joined.
pub open spec fn pascal(s: Seq<char>) -> Seq<char> {
    pascal_prefix(s, s.len()).0
}

/// Whether position `i` of `k` starts a `-`-separated segment.
pub open spec fn starts_segment(k: Seq<char>, i: int) -> bool {
    i == 0 || k[i - 1] == '-'
}

/// A kebab-case name whose PascalCase form converts back: non-empty
/// segments of an ASCII lower-case letter followed by lower-case letters and
/// digits, separated by single hyphens, each segment but the last of at
/// least two characters.
pub open spec fn round_trip_kebab(k: Seq<char>) -> bool {
    &&& k.len() > 0
    &&& k[k.len() - 1] != '-'
    &&& forall|i: int| 0 <= i < k.len() && starts_segment(k, i) ==> crate::text::is_ascii_lower(#[trigger] k[i])
    &&& forall|i: int| 0 <= i < k.len() && !starts_segment(k, i) ==>
        crate::text::is_ascii_lower(#[trigger] k[i]) || crate::text::is_ascii_digit(k[i]) || k[i] == '-'
    &&& forall|i: int| 0 < i < k.len() && #[trigger] k[i] == '-' ==> i >= 2 && k[i - 2] != '-'
}

proof fn lemma_pascal_prefix_grows(k: Seq<char>, n: nat, m: nat)
    requires
        n <= m <= k.len(),
    ensures
        pascal_prefix(k, n).0.is_prefix_of(pascal_prefix(k, m).0),
    decreases m,
{
    if n < m {
        lemma_pascal_prefix_grows(k, n, (m - 1) as nat);
        let a = pascal_prefix(k, n).0;
        let b = pascal_prefix(k, (m - 1) as nat).0;
        let c = pascal_prefix(k, m).0;
        assert forall|i: int| 0 <= i < a.len() implies a[i] == c[i] by {
            assert(a[i] == b[i]);
        }
    }
}

proof fn lemma_pascal_kebab_prefix(k: Seq<char>, n: nat)
    requires
        round_trip_kebab(k),
        n <= k.len(),
    ensures
        pascal_prefix(k, n).1 == (n == 0 || k[n - 1] == '-'),
        kebab_prefix(pascal(k), pascal_prefix(k, n).0.len()) == (
            if n > 0 && k[n - 1] == '-' { k.take(n - 1) } else { k.take(n as int) },
            n > 0 && k[n - 1] != '-' && starts_segment(k, n - 1),
            false,
        ),
    decreases n,
{
    let p = pascal(k);
    if n == 0 {
        assert(k.take(0) =~= Seq::<char>::empty());
    } else {
        lemma_pascal_kebab_prefix(k, (n - 1) as nat);
        lemma_pascal_prefix_grows(k, n, k.len());
        let (o, at) = pascal_prefix(k, (n - 1) as nat);
        let c = k[n - 1];
        let m = o.len();
        let st = kebab_prefix(p, m);
        if c == '-' {
            assert(n - 1 > 0);
            assert(n - 1 >= 2 && k[n - 3] != '-');
        } else if at {
            assert(starts_segment(k, n - 1));
            assert(crate::text::is_ascii_lower(c));
            let u = crate::text::ascii_upper_of(c);
            assert(crate::text::uppercase_mapping(c) == seq![u]);
            assert(pascal_prefix(k, n).0 == o.push(u));
            let q = pascal_prefix(k, n).0;
            assert(q[m as int] == u);
            assert(q.is_prefix_of(p));
            assert(p.subrange(0, q.len() as int)[m as int] == p[m as int]);
            assert(p[m as int] == u);
            assert(crate::text::is_ascii_upper(u) && crate::text::is_ascii_char(u));
            assert(crate::text::lowercase_mapping(u) == seq![c]);
            assert(kebab_prefix(p, m + 1) == kebab_step(st, u, char_after(p, (m + 1) as int)));
            if n - 1 > 0 {
                assert(k[n - 2] == '-');
                assert(k.take(n - 2).push('-').push(c) =~= k.take(n as int));
            } else {
                assert(k.take(n as int) =~= seq![c]);
            }
        } else {
            assert(!starts_segment(k, n - 1));
            assert(pascal_prefix(k, n).0 == o.push(c));
            let q = pascal_prefix(k, n).0;
            assert(q[m as int] == c);
            assert(q.is_prefix_of(p));
            assert(p.subrange(0, q.len() as int)[m as int] == p[m as int]);
            assert(p[m as int] == c);
            assert(kebab_prefix(p, m + 1) == kebab_step(st, c, char_after(p, (m + 1) as int)));
            assert(k.take(n - 1).push(c) =~= k.take(n as int));
        }
    }
}

/// Law: converting the PascalCase form of a kebab-case name (lower-case
/// segments, each but the last of at least two characters) back to kebab
/// case gives the name.
pub proof fn lemma_pascal_kebab_roundtrip(k: Seq<char>)
    requires
        round_trip_kebab(k),
    ensures
        kebab_case(pascal(k)) == k,
{
    lemma_pascal_kebab_prefix(k, k.len());
    assert(pascal_prefix(k, k.len()).0 == pascal(k));
    assert(k.take(k.len() as int) =~= k);
}

/// Convert a kebab-case name to PascalCase.
pub fn pascal_case(kebab: &str) -> (r: String)
    ensures
        r@ == pascal(kebab@),
{
    let cs = crate::text::str_chars(kebab);
    let mut out: Vec<char> = Vec::new();
    let mut at_start = true;
    let mut i: usize = 0;
    while i < cs.len()
        invariant
            i <= cs.len(),
            cs@ == kebab@,
            (out@, at_start) == pascal_prefix(kebab@, i as nat),
        decreases cs.len() - i,
    {
        let c = cs[i];
        if c == '-' {
            at_start = true;
        } else if at_start {
            let mut up = crate::text::to_uppercase_chars(c);
            out.append(&mut up);
            at_start = false;
        } else {
            out.push(c);
            at_start = false;
        }
        i = i + 1;
    }
    crate::text::string_from_chars(out.as_slice())
}

/// The bindings type for a user type: `<iface>::<PascalName>`.
pub open spec fn bindings_type_text(name: Seq<char>, iface: Seq<char>) -> Seq<char> {
    iface + "::"@ + pascal(crate::wit_common::kebab_case(name))
}

/// The bindings type for a user type.
pub fn bindings_type_ident(name: &str, iface_path: &str) -> (r: String)
    ensures
        r@ == bindings_type_text(name@, iface_path@),
{
    let kebab = crate::wit_common::to_kebab_case(name);
    let p = pascal_case(kebab.as_str());
    let mut r = iface_path.to_string();
    r.push_str("::");
    r.push_str(p.as_str());
    r
}

/// The name of the conversion from the bindings type to the user type.
pub open spec fn to_user_name(name: Seq<char>) -> Seq<char> {
    "__cvt_"@ + snake_of(crate::wit_common::kebab_case(name)) + "_to_user"@
}

/// The name of the conversion from the user type to the bindings type.
pub open spec fn from_user_name(name: Seq<char>) -> Seq<char> {
    "__cvt_"@ + snake_of(crate::wit_common::kebab_case(name)) + "_from_user"@
}

/// The name of the conversion from the bindings type to the user type.
pub fn to_user_fn_name(name: &str) -> (r: String)
    ensures
        r@ == to_user_name(name@),
{
    let kebab = crate::wit_common::to_kebab_case(name);
    let snake = hyphens_to_underscores(kebab.as_str());
    let mut r = "__cvt_".to_string();
    r.push_str(snake.as_str());
    r.push_str("_to_user");
    r
}

/// The name of the conversion from the user type to the bindings type.
pub fn from_user_fn_name(name: &str) -> (r: String)
    ensures
        r@ == from_user_name(name@),
{
    let kebab = crate::wit_common::to_kebab_case(name);
    let snake = hyphens_to_underscores(kebab.as_str());
    let mut r = "__cvt_".to_string();
    r.push_str(snake.as_str());
    r.push_str("_from_user");
    r
}

/// The module path of an exported interface's bindings for the package
/// `ns:pkg@version` (the version dropped; a package without `:` uses its
/// name twice), with `-` written `_`.
pub open spec fn iface_path_text(package: Seq<char>, interface: Seq<char>) -> Seq<char> {
    let no_version = match crate::ts_project::split_once_spec(package, '@') {
        Some((a, _)) => a,
        None => package,
    };
    let (ns, pkg) = match crate::ts_project::split_once_spec(no_version, ':') {
        Some((a, b)) => (a, b),
        None => (no_version, no_version),
    };
    "bindings::exports::"@ + snake_of(ns) + "::"@ + snake_of(pkg) + "::"@ + snake_of(interface)
}

/// Build the module path of an exported interface's bindings.
pub fn build_iface_path(package: &str, interface: &str) -> (r: String)
    ensures
        r@ == iface_path_text(package@, interface@),
{
    let no_version = match crate::ts_project::split_once(package, '@') {
        Some((a, _)) => a,
        None => package.to_string(),
    };
    let (ns, pkg) = match crate::ts_project::split_once(no_version.as_str(), ':') {
        Some((a, b)) => (a, b),
        None => (no_version.clone(), no_version),
    };
    let mut r = "bindings::exports::".to_string();
    r.push_str(hyphens_to_underscores(ns.as_str()).as_str());
    r.push_str("::");
    r.push_str(hyphens_to_underscores(pkg.as_str()).as_str());
    r.push_str("::");
    r.push_str(hyphens_to_underscores(interface).as_str());
    r
}

// ---------------------------------------------------------------------------
// Bindings types
// ---------------------------------------------------------------------------

/// The Rust type the bindings use for a WIT type.
pub open spec fn ty_bindings(t: WitTy, iface: Seq<char>) -> Seq<char>
    decreases t, 1nat,
{
    match t {
        WitTy::Bool => "bool"@,
        WitTy::U8 => "u8"@,
        WitTy::U16 => "u16"@,
        WitTy::U32 => "u32"@,
        WitTy::U64 => "u64"@,
        WitTy::S8 => "i8"@,
        WitTy::S16 => "i16"@,
        WitTy::S32 => "i32"@,
        WitTy::S64 => "i64"@,
        WitTy::F32 => "f32"@,
        WitTy::F64 => "f64"@,
        WitTy::Char => "char"@,
        WitTy::Str => "String"@,
        WitTy::List(i) => "Vec<"@ + ty_bindings(*i, iface) + ">"@,
        WitTy::Option(i) => "Option<"@ + ty_bindings(*i, iface) + ">"@,
        WitTy::Result { ok, err } => "Result<"@ + opt_bindings(ok, iface) + ", "@ + opt_bindings(err, iface) + ">"@,
        WitTy::Tuple(es) => if es.len() == 0 { "()"@ } else { "("@ + tys_bindings(es, iface) + ")"@ },
        WitTy::Named(n) => bindings_type_text(n, iface),
        WitTy::Own(n) => bindings_type_text(n, iface),
        WitTy::Borrow(n) => bindings_type_text(n, iface),
        WitTy::Future(o) => opt_bindings(o, iface),
        WitTy::Stream(o) => "wit_bindgen::rt::async_support::StreamReader<"@ + opt_bindings(o, iface) + ">"@,
    }
}

/// The bindings type of an optional boxed type, `()` when absent.
pub open spec fn opt_bindings(o: Option<Box<WitTy>>, iface: Seq<char>) -> Seq<char>
    decreases o, 2nat,
{
    match o {
        Some(b) => ty_bindings(*b, iface),
        None => "()"@,
    }
}

/// The bindings types of a sequence of types, separated by `, `.
pub open spec fn tys_bindings(es: Seq<WitTy>, iface: Seq<char>) -> Seq<char>
    decreases es, 0nat,
{
    if es.len() == 0 {
        Seq::empty()
    } else if es.len() == 1 {
        ty_bindings(es[0], iface)
    } else {
        tys_bindings(es.drop_last(), iface) + ", "@ + ty_bindings(es.last(), iface)
    }
}

fn append(out: &mut Vec<char>, s: &str)
    ensures
        final(out)@ == old(out)@ + s@,
{
    crate::text::append_str(out, s);
}

fn write_opt_bindings(out: &mut Vec<char>, o: &Option<Box<ResolvedType>>, iface: &str)
    ensures
        final(out)@ == old(out)@ + opt_bindings(opt_rty(*o), iface@),
    decreases *o, 3nat,
{
    proof { reveal_with_fuel(opt_rty, 2); }
    match o {
        Some(b) => write_bindings(out, &**b, iface),
        None => append(out, "()"),
    }
}

/// Append the bindings type of `t`.
#[verifier::rlimit(50)]
fn write_bindings(out: &mut Vec<char>, t: &ResolvedType, iface: &str)
    ensures
        final(out)@ == old(out)@ + ty_bindings(t@, iface@),
    decreases *t, 1nat,
{
    proof { reveal_with_fuel(rty_of, 2); }
    match t {
        ResolvedType::Bool => append(out, "bool"),
        ResolvedType::U8 => append(out, "u8"),
        ResolvedType::U16 => append(out, "u16"),
        ResolvedType::U32 => append(out, "u32"),
        ResolvedType::U64 => append(out, "u64"),
        ResolvedType::S8 => append(out, "i8"),
        ResolvedType::S16 => append(out, "i16"),
        ResolvedType::S32 => append(out, "i32"),
        ResolvedType::S64 => append(out, "i64"),
        ResolvedType::F32 => append(out, "f32"),
        ResolvedType::F64 => append(out, "f64"),
        ResolvedType::Char => append(out, "char"),
        ResolvedType::WitString => append(out, "String"),
        ResolvedType::List(i) => {
            append(out, "Vec<");
            write_bindings(out, &**i, iface);
            append(out, ">");
        },
        ResolvedType::Option(i) => {
            append(out, "Option<");
            write_bindings(out, &**i, iface);
            append(out, ">");
        },
        ResolvedType::Result { ok, err } => {
            append(out, "Result<");
            write_opt_bindings(out, ok, iface);
            append(out, ", ");
            write_opt_bindings(out, err, iface);
            append(out, ">");
        },
        ResolvedType::Tuple(es) => {
            proof { lemma_rtys_of(es@); }
            if es.len() == 0 {
                append(out, "()");
            } else {
                append(out, "(");
                write_tys_bindings(out, es, iface);
                append(out, ")");
            }
        },
        ResolvedType::Named(n) | ResolvedType::Own(n) | ResolvedType::Borrow(n) => {
            let b = bindings_type_ident(n.as_str(), iface);
            append(out, b.as_str());
        },
        ResolvedType::Future(o) => write_opt_bindings(out, o, iface),
        ResolvedType::Stream(o) => {
            append(out, "wit_bindgen::rt::async_support::StreamReader<");
            write_opt_bindings(out, o, iface);
            append(out, ">");
        },
    }
}

fn write_tys_bindings(out: &mut Vec<char>, ts: &Vec<ResolvedType>, iface: &str)
    ensures
        final(out)@ == old(out)@ + tys_bindings(rtys_of(ts@), iface@),
    decreases *ts, 0nat,
{
    let ghost start = out@;
    let mut i: usize = 0;
    while i < ts.len()
        invariant
            i <= ts.len(),
            out@ == start + tys_bindings(rtys_of(ts@.take(i as int)), iface@),
        decreases ts.len() - i,
    {
        proof {
            assert(decreases_to!(ts => ts@[i as int]));
            assert(ts@.take(i + 1) == ts@.take(i as int).push(ts@[i as int]));
            crate::rs_macros_extract::lemma_rtys_of_push(ts@.take(i as int), ts@[i as int]);
            lemma_rtys_of(ts@.take(i as int));
        }
        let ghost prev = rtys_of(ts@.take(i as int));
        let ghost next = rtys_of(ts@.take(i + 1));
        proof {
            assert(next == prev.push(rty_of(ts@[i as int])));
            assert(next.drop_last() == prev);
            assert(next.last() == rty_of(ts@[i as int]));
        }
        if i > 0 {
            append(out, ", ");
        }
        write_bindings(out, &ts[i], iface);
        proof {
            if i > 0 {
                assert(tys_bindings(next, iface@) == tys_bindings(prev, iface@) + ", "@ + ty_bindings(rty_of(ts@[i as int]), iface@));
            } else {
                assert(prev.len() == 0);
                assert(tys_bindings(next, iface@) == ty_bindings(next[0], iface@));
            }
        }
        i = i + 1;
    }
    assert(ts@.take(ts.len() as int) == ts@);
}

/// The Rust type the bindings use for a resolved type.
pub fn type_as_bindings(ty: &ResolvedType, iface_path: &str) -> (r: String)
    ensures
        r@ == ty_bindings(ty@, iface_path@),
{
    let mut out: Vec<char> = Vec::new();
    write_bindings(&mut out, ty, iface_path);
    assert(out@ =~= ty_bindings(ty@, iface_path@));
    crate::text::string_from_chars(out.as_slice())
}

/// The return-type annotation of a delegating function: none for no type or `()`.
pub open spec fn return_bindings_text(rt: Option<WitTy>, iface: Seq<char>) -> Seq<char> {
    match rt {
        Some(t) => if t == WitTy::Tuple(Seq::empty()) { Seq::empty() } else { "-> "@ + ty_bindings(t, iface) },
        None => Seq::empty(),
    }
}

/// The return-type annotation of a delegating function.
pub fn return_type_bindings(return_type: &Option<ResolvedType>, iface_path: &str) -> (r: String)
    ensures
        r@ == return_bindings_text(crate::rs_discover::opt_ty_of(*return_type), iface_path@),
{
    match return_type {
        Some(t) => {
            let unit = match t {
                ResolvedType::Tuple(es) => {
                    proof {
                        lemma_rtys_of(es@);
                        reveal_with_fuel(rty_of, 2);
                    }
                    es.len() == 0
                },
                _ => {
                    proof { reveal_with_fuel(rty_of, 2); }
                    false
                },
            };
            if unit {
                String::new()
            } else {
                let mut r = "-> ".to_string();
                r.push_str(type_as_bindings(t, iface_path).as_str());
                r
            }
        },
        None => String::new(),
    }
}


// ---------------------------------------------------------------------------
// Conversion expressions
// ---------------------------------------------------------------------------

/// An expression converting `expr` of a type between the bindings and the
/// user's types, in the direction named by `to_user`: a named type goes
/// through its conversion function, options, lists and results that hold
/// named types are mapped, anything else is used as it is.
pub open spec fn wrap_text(expr: Seq<char>, t: WitTy, to_user: bool) -> Seq<char>
    decreases t, 1nat,
{
    match t {
        WitTy::Named(n) => (if to_user { to_user_name(n) } else { from_user_name(n) }) + "("@ + expr + ")"@,
        WitTy::Option(i) => if has_named(*i) {
            expr + ".map(|v| "@ + wrap_text("v"@, *i, to_user) + ")"@
        } else {
            expr
        },
        WitTy::List(i) => if has_named(*i) {
            expr + ".into_iter().map(|v| "@ + wrap_text("v"@, *i, to_user) + ").collect()"@
        } else {
            expr
        },
        WitTy::Result { ok, err } => if opt_has_named(ok) || opt_has_named(err) {
            expr + ".map(|v| "@ + wrap_opt_text("v"@, ok, to_user) + ").map_err(|e| "@ + wrap_opt_text("e"@, err, to_user) + ")"@
        } else {
            expr
        },
        _ => expr,
    }
}

/// The conversion of `expr` for an optional side of a `Result`: itself when absent.
pub open spec fn wrap_opt_text(expr: Seq<char>, o: Option<Box<WitTy>>, to_user: bool) -> Seq<char>
    decreases o, 2nat,
{
    match o {
        Some(b) => wrap_text(expr, *b, to_user),
        None => expr,
    }
}

fn wrap_opt(expr: &str, o: &Option<Box<ResolvedType>>, to_user: bool) -> (r: String)
    ensures
        r@ == wrap_opt_text(expr@, opt_rty(*o), to_user),
    decreases *o, 2nat,
{
    proof { reveal_with_fuel(opt_rty, 2); }
    match o {
        Some(b) => wrap_expr(expr, &**b, to_user),
        None => expr.to_string(),
    }
}

fn wrap_expr(expr: &str, ty: &ResolvedType, to_user: bool) -> (r: String)
    ensures
        r@ == wrap_text(expr@, ty@, to_user),
    decreases *ty, 1nat,
{
    proof { reveal_with_fuel(rty_of, 2); }
    match ty {
        ResolvedType::Named(name) => {
            let mut r = if to_user { to_user_fn_name(name.as_str()) } else { from_user_fn_name(name.as_str()) };
            r.push_str("(");
            r.push_str(expr);
            r.push_str(")");
            r
        },
        ResolvedType::Option(inner) => {
            if contains_named(&**inner) {
                let mut r = expr.to_string();
                r.push_str(".map(|v| ");
                r.push_str(wrap_expr("v", &**inner, to_user).as_str());
                r.push_str(")");
                r
            } else {
                expr.to_string()
            }
        },
        ResolvedType::List(inner) => {
            if contains_named(&**inner) {
                let mut r = expr.to_string();
                r.push_str(".into_iter().map(|v| ");
                r.push_str(wrap_expr("v", &**inner, to_user).as_str());
                r.push_str(").collect()");
                r
            } else {
                expr.to_string()
            }
        },
        ResolvedType::Result { ok, err } => {
            if result_contains_named(ok, err) {
                let mut r = expr.to_string();
                r.push_str(".map(|v| ");
                r.push_str(wrap_opt("v", ok, to_user).as_str());
                r.push_str(").map_err(|e| ");
                r.push_str(wrap_opt("e", err, to_user).as_str());
                r.push_str(")");
                r
            } else {
                expr.to_string()
            }
        },
        _ => expr.to_string(),
    }
}

/// The expression converting `expr`, of type `ty` in the bindings, to the user's type.
pub fn wrap_to_user_expr(expr: &str, ty: &ResolvedType) -> (r: String)
    ensures
        r@ == wrap_text(expr@, ty@, true),
{
    wrap_expr(expr, ty, true)
}

/// The expression converting `expr`, of type `ty` for the user, to the bindings' type.
pub fn wrap_from_user_expr(expr: &str, ty: &ResolvedType) -> (r: String)
    ensures
        r@ == wrap_text(expr@, ty@, false),
{
    wrap_expr(expr, ty, false)
}

/// The body returning the result of `call` to the bindings: converted when
/// it holds named types; a stream is answered with a fresh reader.
pub open spec fn return_from_user_text(call: Seq<char>, rt: Option<WitTy>) -> Seq<char> {
    match rt {
        Some(t) => if has_named(t) {
            wrap_text(call, t, false)
        } else {
            match t {
                WitTy::Stream(inner) => "{ let _ = "@ + call + "; let (_writer, reader) = bindings::wit_stream::new::<"@
                    + opt_bindings(inner, Seq::empty()) + ">(); reader }"@,
                _ => call,
            }
        },
        None => call,
    }
}

/// The body returning the result of `call` to the bindings.
pub fn wrap_return_from_user(call: &str, return_type: &Option<ResolvedType>) -> (r: String)
    ensures
        r@ == return_from_user_text(call@, crate::rs_discover::opt_ty_of(*return_type)),
{
    match return_type {
        Some(t) => {
            if contains_named(t) {
                return wrap_from_user_expr(call, t);
            }
            proof { reveal_with_fuel(rty_of, 2); }
            match t {
                ResolvedType::Stream(inner) => {
                    let mut out: Vec<char> = Vec::new();
                    let empty = "";
                    proof {
                        reveal_strlit("");
                        assert(empty@ =~= Seq::<char>::empty());
                    }
                    write_opt_bindings(&mut out, inner, empty);
                    assert(out@ =~= opt_bindings(opt_rty(*inner), Seq::empty()));
                    let inner_ty = crate::text::string_from_chars(out.as_slice());
                    let mut r = "{ let _ = ".to_string();
                    r.push_str(call);
                    r.push_str("; let (_writer, reader) = bindings::wit_stream::new::<");
                    r.push_str(inner_ty.as_str());
                    r.push_str(">(); reader }");
                    r
                },
                _ => call.to_string(),
            }
        },
        None => call.to_string(),
    }
}

} // verus!
