//! Resolution of exported Rust items through the rustdoc index: the index
//! is held as plain values (`DocCrate`), and every type reference becomes a
//! WIT-ready `ResolvedType`, discovering the user types it names.
use vstd::prelude::*;
use crate::text::{str_chars, str_eq, slice_string};
use crate::ts_types::{strs_of, WitTy};
use crate::rs_auto::{items_of, ExportedItem, ExportedItemModel};

verus! {

// ---------------------------------------------------------------------------
// The rustdoc index, as plain values
// ---------------------------------------------------------------------------

/// A type as rustdoc describes it.
pub enum DocType {
    /// A primitive such as `u32` or `str`.
    Primitive(String),
    /// A path to a struct, enum, union or alias, with its item id and its
    /// generic arguments (empty when not angle-bracketed).
    ResolvedPath { path: String, id: u32, args: Vec<DocArg> },
    /// `&T` or `&mut T`.
    BorrowedRef { is_mutable: bool, inner: Box<DocType> },
    /// `[T]`.
    Slice(Box<DocType>),
    /// `(A, B, ..)`.
    Tuple(Vec<DocType>),
    /// `*const T` or `*mut T`.
    RawPointer,
    /// A generic parameter such as `T` or `Self`.
    Generic(String),
    /// Any other type, with its debug rendering.
    Unsupported(String),
}

/// A generic argument.
pub enum DocArg {
    Type(DocType),
    /// A lifetime, constant or inferred argument.
    Other,
}

/// A function signature.
pub struct DocSig {
    pub inputs: Vec<(String, DocType)>,
    pub output: Option<DocType>,
}

/// The shape of a struct: its field ids.
pub enum DocStructKind {
    Plain(Vec<u32>),
    /// Tuple fields; a stripped field has no id.
    Tuple(Vec<Option<u32>>),
    Unit,
}

/// The shape of an enum variant: its field ids.
pub enum DocVariantKind {
    Plain,
    Tuple(Vec<Option<u32>>),
    Struct(Vec<u32>),
}

/// What an item is.
pub enum DocItemKind {
    Function { sig: DocSig, is_async: bool },
    Struct(DocStructKind),
    /// An enum, with its variant ids.
    Enum(Vec<u32>),
    TypeAlias(DocType),
    StructField(DocType),
    Variant(DocVariantKind),
    /// An impl block: whether it implements a trait, its self type, and its item ids.
    Impl { is_trait: bool, for_type: DocType, items: Vec<u32> },
    Other,
}

/// An item of the index.
pub struct DocItem {
    pub id: u32,
    pub name: Option<String>,
    pub kind: DocItemKind,
}

/// The rustdoc index of a crate, in the order it is walked.
pub struct DocCrate {
    pub items: Vec<DocItem>,
}

/// The item with id `id`, the first such in `items`.
pub open spec fn item_in(items: Seq<DocItem>, id: u32) -> Option<DocItem>
    decreases items.len(),
{
    if items.len() == 0 {
        None
    } else if items[0].id == id {
        Some(items[0])
    } else {
        item_in(items.drop_first(), id)
    }
}

/// The ids of a sequence of items.
pub open spec fn ids_of(items: Seq<DocItem>) -> Seq<u32> {
    items.map_values(|i: DocItem| i.id)
}

/// The ids of the items of a crate.
pub open spec fn crate_ids(k: DocCrate) -> Set<u32> {
    ids_of(k.items@).to_set()
}

/// An item that is in the index is found.
proof fn lemma_item_in(items: Seq<DocItem>, id: u32)
    ensures
        item_in(items, id) matches Some(it) ==> it.id == id && items.contains(it),
        item_in(items, id) is None ==> !ids_of(items).contains(id),
    decreases items.len(),
{
    if items.len() > 0 {
        lemma_item_in(items.drop_first(), id);
        if items[0].id != id {
            if item_in(items.drop_first(), id) is Some {
                let it = item_in(items.drop_first(), id).unwrap();
                let k = choose|k: int| 0 <= k < items.drop_first().len() && items.drop_first()[k] == it;
                assert(items[k + 1] == it);
            } else {
                assert forall|k: int| 0 <= k < items.len() implies #[trigger] ids_of(items)[k] != id by {
                    if k > 0 {
                        assert(ids_of(items.drop_first())[k - 1] == items[k].id);
                    }
                }
            }
        }
    }
}

/// Look up an item by id.
pub fn find_item<'a>(k: &'a DocCrate, id: u32) -> (r: Option<&'a DocItem>)
    ensures
        match r {
            Some(it) => item_in(k.items@, id) == Some(*it),
            None => item_in(k.items@, id) is None,
        },
{
    let mut i: usize = 0;
    assert(k.items@.skip(0) == k.items@);
    while i < k.items.len()
        invariant
            i <= k.items.len(),
            item_in(k.items@, id) == item_in(k.items@.skip(i as int), id),
        decreases k.items.len() - i,
    {
        proof {
            assert(k.items@.skip(i as int)[0] == k.items@[i as int]);
            assert(k.items@.skip(i as int).drop_first() == k.items@.skip(i + 1));
        }
        if k.items[i].id == id {
            return Some(&k.items[i]);
        }
        i = i + 1;
    }
    None
}

// ---------------------------------------------------------------------------
// Resolved types
// ---------------------------------------------------------------------------

/// A resolved type reference.
#[derive(Debug, PartialEq, Eq)]
pub enum ResolvedType {
    Bool,
    U8,
    U16,
    U32,
    U64,
    S8,
    S16,
    S32,
    S64,
    F32,
    F64,
    Char,
    WitString,
    List(Box<ResolvedType>),
    Option(Box<ResolvedType>),
    Result { ok: Option<Box<ResolvedType>>, err: Option<Box<ResolvedType>> },
    Tuple(Vec<ResolvedType>),
    Named(String),
    Own(String),
    Borrow(String),
}

/// The model of an optional boxed type.
pub open spec fn opt_res(o: Option<Box<ResolvedType>>) -> Option<Box<WitTy>>
    decreases o, 2nat,
{
    match o {
        Some(b) => Some(Box::new(res_of(*b))),
        None => None,
    }
}

/// The model of a resolved type.
pub open spec fn res_of(t: ResolvedType) -> WitTy
    decreases t, 1nat,
{
    match t {
        ResolvedType::Bool => WitTy::Bool,
        ResolvedType::U8 => WitTy::U8,
        ResolvedType::U16 => WitTy::U16,
        ResolvedType::U32 => WitTy::U32,
        ResolvedType::U64 => WitTy::U64,
        ResolvedType::S8 => WitTy::S8,
        ResolvedType::S16 => WitTy::S16,
        ResolvedType::S32 => WitTy::S32,
        ResolvedType::S64 => WitTy::S64,
        ResolvedType::F32 => WitTy::F32,
        ResolvedType::F64 => WitTy::F64,
        ResolvedType::Char => WitTy::Char,
        ResolvedType::WitString => WitTy::Str,
        ResolvedType::List(inner) => WitTy::List(Box::new(res_of(*inner))),
        ResolvedType::Option(inner) => WitTy::Option(Box::new(res_of(*inner))),
        ResolvedType::Result { ok, err } => WitTy::Result { ok: opt_res(ok), err: opt_res(err) },
        ResolvedType::Tuple(elems) => WitTy::Tuple(ress_of(elems@)),
        ResolvedType::Named(name) => WitTy::Named(name@),
        ResolvedType::Own(name) => WitTy::Own(name@),
        ResolvedType::Borrow(name) => WitTy::Borrow(name@),
    }
}

/// The models of a sequence of resolved types.
pub open spec fn ress_of(s: Seq<ResolvedType>) -> Seq<WitTy>
    decreases s, 0nat,
{
    if s.len() == 0 {
        Seq::empty()
    } else {
        ress_of(s.drop_last()).push(res_of(s.last()))
    }
}

impl View for ResolvedType {
    type V = WitTy;

    open spec fn view(&self) -> WitTy {
        res_of(*self)
    }
}

pub(crate) proof fn lemma_ress_of_push(s: Seq<ResolvedType>, t: ResolvedType)
    ensures
        ress_of(s.push(t)) == ress_of(s).push(res_of(t)),
{
    assert(s.push(t).drop_last() == s);
}

pub(crate) proof fn lemma_ress_of(s: Seq<ResolvedType>)
    ensures
        ress_of(s).len() == s.len(),
        forall|i: int| 0 <= i < s.len() ==> #[trigger] ress_of(s)[i] == res_of(s[i]),
    decreases s.len(),
{
    if s.len() > 0 {
        lemma_ress_of(s.drop_last());
        assert forall|i: int| 0 <= i < s.len() implies #[trigger] ress_of(s)[i] == res_of(s[i]) by {
            if i < s.len() - 1 {
                assert(s.drop_last()[i] == s[i]);
            }
        }
    }
}

// ---------------------------------------------------------------------------
// Names
// ---------------------------------------------------------------------------

/// Whether `::` starts at `i` in `s`.
pub open spec fn is_sep_at(s: Seq<char>, i: int) -> bool {
    0 <= i && i + 1 < s.len() && s[i] == ':' && s[i + 1] == ':'
}

/// The start of the last `::` in `s`, or -1.
pub open spec fn last_sep(s: Seq<char>) -> int
    decreases s.len(),
{
    if s.len() < 2 {
        -1
    } else if is_sep_at(s, s.len() - 2) {
        s.len() - 2
    } else {
        last_sep(s.drop_last())
    }
}

proof fn lemma_last_sep(s: Seq<char>)
    ensures
        -1 <= last_sep(s) <= s.len() - 2 || last_sep(s) == -1,
        last_sep(s) >= 0 ==> is_sep_at(s, last_sep(s)),
        forall|j: int| last_sep(s) < j < s.len() - 1 ==> !is_sep_at(s, j),
    decreases s.len(),
{
    if s.len() >= 2 && !is_sep_at(s, s.len() - 2) {
        lemma_last_sep(s.drop_last());
        assert forall|j: int| last_sep(s) < j < s.len() - 1 implies !is_sep_at(s, j) by {
            if j < s.len() - 2 {
                assert(is_sep_at(s, j) == is_sep_at(s.drop_last(), j));
            }
        }
        if last_sep(s) >= 0 {
            assert(is_sep_at(s.drop_last(), last_sep(s)));
        }
    }
}

/// The last segment of a `::`-separated path.
pub open spec fn simple_name(s: Seq<char>) -> Seq<char> {
    let i = last_sep(s);
    if i < 0 { s } else { s.skip(i + 2) }
}

/// The last segment of a `::`-separated path (`rsplit("::").next()`).
pub fn last_segment(s: &str) -> (r: String)
    ensures
        r@ == simple_name(s@),
{
    let cs = str_chars(s);
    proof { lemma_last_sep(s@); }
    if cs.len() < 2 {
        return s.to_string();
    }
    let mut i: usize = cs.len() - 1;
    while i > 0
        invariant
            cs@ == s@,
            cs.len() >= 2,
            1 <= i + 1 <= cs.len(),
            i <= cs.len() - 1,
            forall|j: int| i <= j < cs.len() - 1 ==> !is_sep_at(s@, j),
        decreases i,
    {
        if cs[i - 1] == ':' && cs[i] == ':' {
            proof { lemma_last_sep(s@); }
            assert(is_sep_at(s@, i - 1));
            assert(last_sep(s@) == i - 1);
            return slice_string(&cs, i + 1, cs.len());
        }
        i = i - 1;
    }
    proof { lemma_last_sep(s@); }
    assert(last_sep(s@) < 0);
    s.to_string()
}

/// The decimal digits of `n`.
pub open spec fn decimal(n: nat) -> Seq<char>
    decreases n,
{
    if n < 10 {
        seq![digit_char(n)]
    } else {
        decimal(n / 10).push(digit_char(n % 10))
    }
}

/// The digit for `d < 10`.
pub open spec fn digit_char(d: nat) -> char {
    if d == 0 { '0' } else if d == 1 { '1' } else if d == 2 { '2' } else if d == 3 { '3' } else if d == 4 { '4' }
    else if d == 5 { '5' } else if d == 6 { '6' } else if d == 7 { '7' } else if d == 8 { '8' } else { '9' }
}

fn digit(d: usize) -> (c: char)
    requires
        d < 10,
    ensures
        c == digit_char(d as nat),
{
    if d == 0 { '0' } else if d == 1 { '1' } else if d == 2 { '2' } else if d == 3 { '3' } else if d == 4 { '4' }
    else if d == 5 { '5' } else if d == 6 { '6' } else if d == 7 { '7' } else if d == 8 { '8' } else { '9' }
}

/// Append the decimal digits of `n`.
pub(crate) fn push_decimal(out: &mut String, n: usize)
    ensures
        final(out)@ == old(out)@ + decimal(n as nat),
    decreases n,
{
    if n >= 10 {
        push_decimal(out, n / 10);
    }
    out.push(digit(n % 10));
    proof {
        if n >= 10 {
            assert(decimal(n as nat) == decimal((n / 10) as nat).push(digit_char((n % 10) as nat)));
        }
    }
}

/// The name `f<i>` of the `i`-th tuple field.
pub open spec fn tuple_field_name(i: nat) -> Seq<char> {
    seq!['f'] + decimal(i)
}

pub(crate) fn tuple_field_name_of(i: usize) -> (r: String)
    ensures
        r@ == tuple_field_name(i as nat),
{
    let mut s = String::new();
    s.push('f');
    push_decimal(&mut s, i);
    s
}


// ---------------------------------------------------------------------------
// What a type resolves to
// ---------------------------------------------------------------------------

/// What type resolution depends on besides the type: the resource types
/// (exported impl blocks) and the type `Self` stands for.
pub struct Env {
    pub resources: Set<Seq<char>>,
    pub self_type: Option<Seq<char>>,
}

/// The WIT type of a primitive: unknown primitives become `string`.
pub open spec fn prim_ty(n: Seq<char>) -> WitTy {
    if n == "bool"@ { WitTy::Bool }
    else if n == "u8"@ { WitTy::U8 }
    else if n == "u16"@ { WitTy::U16 }
    else if n == "u32"@ { WitTy::U32 }
    else if n == "u64"@ { WitTy::U64 }
    else if n == "i8"@ { WitTy::S8 }
    else if n == "i16"@ { WitTy::S16 }
    else if n == "i32"@ { WitTy::S32 }
    else if n == "i64"@ { WitTy::S64 }
    else if n == "f32"@ { WitTy::F32 }
    else if n == "f64"@ { WitTy::F64 }
    else if n == "char"@ { WitTy::Char }
    else { WitTy::Str }
}

/// Law: a rustdoc primitive resolves to the WIT type its name spells, of
/// the same width and signedness: `uN` to `uN`, `iN` to `sN`, `fN` to `fN`,
/// `bool` and `char` to themselves, `str` to `string`.
pub proof fn lemma_rustdoc_primitive_resolves_to_its_keyword(env: Env, t: DocType)
    ensures
        t matches DocType::Primitive(n) ==> (crate::rs_syntax::rust_prim_names().contains(n@)
            ==> crate::ts_types::ty_text(rty_spec(env, t)) == crate::rs_syntax::rust_prim_keyword(n@)),
{
    if let DocType::Primitive(s) = t {
        let n = s@;
        let names = crate::rs_syntax::rust_prim_names();
        if names.contains(n) {
            crate::rs_syntax::lemma_prim_literals();
            let j = choose|j: int| 0 <= j < names.len() && names[j] == n;
            assert(n == names[j]);
            assert(crate::ts_types::ty_text(rty_spec(env, t)) =~= crate::rs_syntax::rust_prim_keyword(n));
        }
    }
}

/// Whether `prim_ty` knows the primitive `n`.
pub open spec fn known_prim(n: Seq<char>) -> bool {
    n == "bool"@ || n == "u8"@ || n == "u16"@ || n == "u32"@ || n == "u64"@ || n == "i8"@ || n == "i16"@
        || n == "i32"@ || n == "i64"@ || n == "f32"@ || n == "f64"@ || n == "char"@ || n == "str"@
}

/// An owned handle when `s` is a resource, else a named type.
pub open spec fn handle_or_named(env: Env, s: Seq<char>) -> WitTy {
    if env.resources.contains(s) { WitTy::Own(s) } else { WitTy::Named(s) }
}

/// The first type argument's type, or `string` when there is none.
pub open spec fn first_or_string(args: Seq<WitTy>) -> WitTy {
    if args.len() > 0 { args[0] } else { WitTy::Str }
}

/// The `i`-th type argument's type, if any.
pub open spec fn nth_boxed(args: Seq<WitTy>, i: int) -> Option<Box<WitTy>> {
    if 0 <= i < args.len() { Some(Box::new(args[i])) } else { None }
}

/// The type of a path with simple name `s` and resolved type arguments
/// `args`: the standard containers map to their WIT forms, anything else is
/// a user type.
pub open spec fn path_ty(env: Env, s: Seq<char>, args: Seq<WitTy>) -> WitTy {
    if s == "String"@ {
        WitTy::Str
    } else if s == "Vec"@ || s == "HashSet"@ || s == "BTreeSet"@ {
        WitTy::List(Box::new(first_or_string(args)))
    } else if s == "Option"@ {
        WitTy::Option(Box::new(first_or_string(args)))
    } else if s == "Result"@ {
        WitTy::Result { ok: nth_boxed(args, 0), err: nth_boxed(args, 1) }
    } else if s == "Box"@ || s == "Arc"@ || s == "Rc"@ {
        first_or_string(args)
    } else if s == "HashMap"@ || s == "BTreeMap"@ {
        WitTy::List(Box::new(WitTy::Tuple(args)))
    } else {
        handle_or_named(env, s)
    }
}

/// Whether a path with simple name `s` is a user type (discovered).
pub open spec fn is_user_path(s: Seq<char>) -> bool {
    !(s == "String"@ || s == "Vec"@ || s == "HashSet"@ || s == "BTreeSet"@ || s == "Option"@ || s == "Result"@
        || s == "Box"@ || s == "Arc"@ || s == "Rc"@ || s == "HashMap"@ || s == "BTreeMap"@)
}

/// The ids of the user types that resolving `t` discovers: a path that is
/// not `String` or a known container names its item; containers pass on to
/// their first type argument (`Vec`, sets, `Option`, `Box`, `Arc`, `Rc`) or
/// to all of them (`Result`, maps); a borrowed resource is not discovered.
pub open spec fn used_ids(res: Set<Seq<char>>, t: DocType) -> Set<u32>
    decreases t, 2nat,
{
    match t {
        DocType::ResolvedPath { path, id, args } => {
            let n = simple_name(path@);
            if n == "String"@ {
                Set::empty()
            } else if n == "Vec"@ || n == "HashSet"@ || n == "BTreeSet"@ || n == "Option"@ || n == "Box"@
                || n == "Arc"@ || n == "Rc"@ {
                first_arg_ids(res, args@)
            } else if n == "Result"@ || n == "HashMap"@ || n == "BTreeMap"@ {
                args_ids(res, args@)
            } else {
                set![id]
            }
        },
        DocType::BorrowedRef { is_mutable, inner } => match *inner {
            DocType::ResolvedPath { path, id, args } => if res.contains(simple_name(path@)) {
                Set::empty()
            } else {
                used_ids(res, *inner)
            },
            _ => used_ids(res, *inner),
        },
        DocType::Slice(e) => used_ids(res, *e),
        DocType::Tuple(es) => tys_ids(res, es@),
        _ => Set::empty(),
    }
}

/// A path to `Result` or a map discovers what all its type arguments do.
proof fn lemma_used_ids_all_args(res: Set<Seq<char>>, t: DocType)
    requires
        t matches DocType::ResolvedPath { path, id, args }
            && (simple_name(path@) == "Result"@ || simple_name(path@) == "HashMap"@ || simple_name(path@) == "BTreeMap"@),
    ensures
        t matches DocType::ResolvedPath { path, id, args } && used_ids(res, t) == args_ids(res, args@),
{
    reveal_strlit("String");
    reveal_strlit("Vec");
    reveal_strlit("HashSet");
    reveal_strlit("BTreeSet");
    reveal_strlit("Option");
    reveal_strlit("Box");
    reveal_strlit("Arc");
    reveal_strlit("Rc");
    reveal_strlit("Result");
    reveal_strlit("HashMap");
    reveal_strlit("BTreeMap");
    if let DocType::ResolvedPath { path, id, args } = t {
        let n = simple_name(path@);
        let others = seq!["String"@, "Vec"@, "HashSet"@, "BTreeSet"@, "Option"@, "Box"@, "Arc"@, "Rc"@];
        assert forall|j: int| 0 <= j < others.len() implies n != #[trigger] others[j] by {
            if n.len() == others[j].len() {
                if n == "Result"@ {
                    assert(n[0] != others[j][0] || n[1] != others[j][1]);
                } else if n == "HashMap"@ {
                    assert(n[4] != others[j][4] || n[0] != others[j][0]);
                } else {
                    assert(n[5] != others[j][5]);
                }
            }
        }
        assert(n != others[0] && n != others[1] && n != others[2] && n != others[3]);
        assert(n != others[4] && n != others[5] && n != others[6] && n != others[7]);
    }
}

/// The ids the first type argument among `args` discovers.
pub open spec fn first_arg_ids(res: Set<Seq<char>>, args: Seq<DocArg>) -> Set<u32>
    decreases args, 1nat,
{
    if args.len() == 0 {
        Set::empty()
    } else {
        match args[0] {
            DocArg::Type(t) => used_ids(res, t),
            DocArg::Other => first_arg_ids(res, args.drop_first()),
        }
    }
}

/// The ids all type arguments among `args` discover.
pub open spec fn args_ids(res: Set<Seq<char>>, args: Seq<DocArg>) -> Set<u32>
    decreases args, 0nat,
{
    if args.len() == 0 {
        Set::empty()
    } else {
        let rest = args_ids(res, args.drop_first());
        match args[0] {
            DocArg::Type(t) => used_ids(res, t) + rest,
            DocArg::Other => rest,
        }
    }
}

/// The ids a sequence of types discovers.
pub open spec fn tys_ids(res: Set<Seq<char>>, ts: Seq<DocType>) -> Set<u32>
    decreases ts, 0nat,
{
    if ts.len() == 0 {
        Set::empty()
    } else {
        used_ids(res, ts[0]) + tys_ids(res, ts.drop_first())
    }
}

/// Whether resolving the parameters (other than `self`) and the return type
/// of `sig` discovers `id`.
pub open spec fn sig_uses(env: Env, sig: DocSig, id: u32) -> bool {
    ||| exists|j: int| 0 <= j < sig.inputs@.len() && (#[trigger] sig.inputs@[j]).0@ != "self"@
        && used_ids(env.resources, sig.inputs@[j].1).contains(id)
    ||| sig.output matches Some(t) && used_ids(env.resources, t).contains(id)
}

/// The WIT type a rustdoc type resolves to.
pub open spec fn rty_spec(env: Env, t: DocType) -> WitTy
    decreases t, 2nat,
{
    match t {
        DocType::Primitive(n) => prim_ty(n@),
        DocType::ResolvedPath { path, id, args } => path_ty(env, simple_name(path@), arg_tys(env, args@)),
        DocType::BorrowedRef { is_mutable, inner } => match *inner {
            DocType::ResolvedPath { path, id, args } => if env.resources.contains(simple_name(path@)) {
                WitTy::Borrow(simple_name(path@))
            } else {
                rty_spec(env, *inner)
            },
            _ => rty_spec(env, *inner),
        },
        DocType::Slice(e) => WitTy::List(Box::new(rty_spec(env, *e))),
        DocType::Tuple(es) => WitTy::Tuple(rtys_spec(env, es@)),
        DocType::RawPointer => WitTy::U32,
        DocType::Generic(n) => if n@ == "Self"@ {
            match env.self_type {
                Some(st) => handle_or_named(env, st),
                None => WitTy::Str,
            }
        } else {
            WitTy::Str
        },
        DocType::Unsupported(_) => WitTy::Str,
    }
}

/// The types of the type arguments among `args`, in order.
pub open spec fn arg_tys(env: Env, args: Seq<DocArg>) -> Seq<WitTy>
    decreases args, 0nat,
{
    if args.len() == 0 {
        Seq::empty()
    } else {
        let rest = arg_tys(env, args.drop_first());
        match args[0] {
            DocArg::Type(t) => seq![rty_spec(env, t)] + rest,
            DocArg::Other => rest,
        }
    }
}

/// The types of a sequence of rustdoc types.
pub open spec fn rtys_spec(env: Env, ts: Seq<DocType>) -> Seq<WitTy>
    decreases ts, 0nat,
{
    if ts.len() == 0 {
        Seq::empty()
    } else {
        seq![rty_spec(env, ts[0])] + rtys_spec(env, ts.drop_first())
    }
}

/// The size of a rustdoc type, a bound on the depth of its resolution.
pub open spec fn doc_size(t: DocType) -> nat
    decreases t, 2nat,
{
    match t {
        DocType::ResolvedPath { path, id, args } => args_size(args@) + 3,
        DocType::BorrowedRef { is_mutable, inner } => doc_size(*inner) + 1,
        DocType::Slice(e) => doc_size(*e) + 1,
        DocType::Tuple(es) => tys_size(es@) + 2,
        _ => 1,
    }
}

/// The total size of the type arguments among `args`.
pub open spec fn args_size(args: Seq<DocArg>) -> nat
    decreases args, 0nat,
{
    if args.len() == 0 {
        0
    } else {
        (match args[0] {
            DocArg::Type(t) => doc_size(t),
            DocArg::Other => 0,
        }) + args_size(args.drop_first())
    }
}

/// The total size of a sequence of types.
pub open spec fn tys_size(ts: Seq<DocType>) -> nat
    decreases ts, 0nat,
{
    if ts.len() == 0 {
        0
    } else {
        doc_size(ts[0]) + tys_size(ts.drop_first())
    }
}

/// A resolved type definition, as a model.
pub enum DefModel {
    Record(Seq<char>, Seq<(Seq<char>, WitTy)>),
    Enum(Seq<char>, Seq<Seq<char>>),
    Variant(Seq<char>, Seq<(Seq<char>, Option<WitTy>)>),
}

/// The name of a field item, or `unknown`.
pub open spec fn field_name(n: Option<String>) -> Seq<char> {
    match n {
        Some(s) => s@,
        None => "unknown"@,
    }
}

/// The record fields of a plain struct: each field item with its type.
pub open spec fn plain_fields(k: DocCrate, env: Env, fids: Seq<u32>) -> Seq<(Seq<char>, WitTy)>
    decreases fids.len(),
{
    if fids.len() == 0 {
        Seq::empty()
    } else {
        let rest = plain_fields(k, env, fids.drop_first());
        match item_in(k.items@, fids[0]) {
            Some(it) => match it.kind {
                DocItemKind::StructField(t) => seq![(field_name(it.name), rty_spec(env, t))] + rest,
                _ => rest,
            },
            None => rest,
        }
    }
}

/// The record fields of a tuple struct, named `f<i>` by position from `i0`.
pub open spec fn tuple_fields(k: DocCrate, env: Env, fids: Seq<Option<u32>>, i0: nat) -> Seq<(Seq<char>, WitTy)>
    decreases fids.len(),
{
    if fids.len() == 0 {
        Seq::empty()
    } else {
        let rest = tuple_fields(k, env, fids.drop_first(), i0 + 1);
        match fids[0] {
            Some(id) => match item_in(k.items@, id) {
                Some(it) => match it.kind {
                    DocItemKind::StructField(t) => seq![(tuple_field_name(i0), rty_spec(env, t))] + rest,
                    _ => rest,
                },
                None => rest,
            },
            None => rest,
        }
    }
}

/// The field types of a tuple variant, skipping stripped or missing fields.
pub open spec fn opt_field_tys(k: DocCrate, env: Env, fids: Seq<Option<u32>>) -> Seq<WitTy>
    decreases fids.len(),
{
    if fids.len() == 0 {
        Seq::empty()
    } else {
        let rest = opt_field_tys(k, env, fids.drop_first());
        match fids[0] {
            Some(id) => match item_in(k.items@, id) {
                Some(it) => match it.kind {
                    DocItemKind::StructField(t) => seq![rty_spec(env, t)] + rest,
                    _ => rest,
                },
                None => rest,
            },
            None => rest,
        }
    }
}

/// The field types of a struct variant, skipping missing fields.
pub open spec fn field_tys(k: DocCrate, env: Env, fids: Seq<u32>) -> Seq<WitTy>
    decreases fids.len(),
{
    if fids.len() == 0 {
        Seq::empty()
    } else {
        let rest = field_tys(k, env, fids.drop_first());
        match item_in(k.items@, fids[0]) {
            Some(it) => match it.kind {
                DocItemKind::StructField(t) => seq![rty_spec(env, t)] + rest,
                _ => rest,
            },
            None => rest,
        }
    }
}

/// A payload from field types: none, the single type, or a tuple.
pub open spec fn payload_of(tys: Seq<WitTy>) -> Option<WitTy> {
    if tys.len() == 0 { None } else if tys.len() == 1 { Some(tys[0]) } else { Some(WitTy::Tuple(tys)) }
}

/// The payload of a variant.
pub open spec fn variant_payload(k: DocCrate, env: Env, v: DocVariantKind) -> Option<WitTy> {
    match v {
        DocVariantKind::Plain => None,
        DocVariantKind::Tuple(fids) => payload_of(opt_field_tys(k, env, fids@)),
        DocVariantKind::Struct(fids) => payload_of(field_tys(k, env, fids@)),
    }
}

/// Whether an enum's variants are all found and all without fields.
pub open spec fn all_unit(k: DocCrate, vids: Seq<u32>) -> bool {
    forall|i: int| 0 <= i < vids.len() ==> (#[trigger] item_in(k.items@, vids[i]) matches Some(it)
        && it.kind matches DocItemKind::Variant(DocVariantKind::Plain))
}

/// The names of the variants found.
pub open spec fn unit_names(k: DocCrate, vids: Seq<u32>) -> Seq<Seq<char>>
    decreases vids.len(),
{
    if vids.len() == 0 {
        Seq::empty()
    } else {
        let rest = unit_names(k, vids.drop_first());
        match item_in(k.items@, vids[0]) {
            Some(it) => match it.name {
                Some(n) => seq![n@] + rest,
                None => rest,
            },
            None => rest,
        }
    }
}

/// The cases of a data-carrying enum: each named variant found, with its payload.
pub open spec fn variant_cases(k: DocCrate, env: Env, vids: Seq<u32>) -> Seq<(Seq<char>, Option<WitTy>)>
    decreases vids.len(),
{
    if vids.len() == 0 {
        Seq::empty()
    } else {
        let rest = variant_cases(k, env, vids.drop_first());
        match item_in(k.items@, vids[0]) {
            Some(it) => match it.name {
                Some(n) => match it.kind {
                    DocItemKind::Variant(v) => seq![(n@, variant_payload(k, env, v))] + rest,
                    _ => rest,
                },
                None => rest,
            },
            None => rest,
        }
    }
}

/// The definition an item gives under the name it was referenced by:
/// structs become records, enums become enums or variants; other items
/// give none.
pub open spec fn def_model(k: DocCrate, env: Env, id: u32, name: Seq<char>) -> Option<DefModel> {
    match item_in(k.items@, id) {
        Some(it) => match it.kind {
            DocItemKind::Struct(DocStructKind::Plain(fids)) => Some(DefModel::Record(name, plain_fields(k, env, fids@))),
            DocItemKind::Struct(DocStructKind::Tuple(fids)) => Some(DefModel::Record(name, tuple_fields(k, env, fids@, 0))),
            DocItemKind::Struct(DocStructKind::Unit) => Some(DefModel::Record(name, Seq::empty())),
            DocItemKind::Enum(vids) => if all_unit(k, vids@) {
                Some(DefModel::Enum(name, unit_names(k, vids@)))
            } else {
                Some(DefModel::Variant(name, variant_cases(k, env, vids@)))
            },
            _ => None,
        },
        None => None,
    }
}

/// The definitions as a sequence: one or none.
pub open spec fn opt_seq(d: Option<DefModel>) -> Seq<DefModel> {
    match d {
        Some(x) => seq![x],
        None => Seq::empty(),
    }
}


// ---------------------------------------------------------------------------
// Resolved definitions
// ---------------------------------------------------------------------------

/// A record (struct with named fields).
#[derive(Debug)]
pub struct ResolvedRecord {
    pub name: String,
    pub fields: Vec<(String, ResolvedType)>,
}

/// An enumeration of unit variants.
#[derive(Debug)]
pub struct ResolvedEnum {
    pub name: String,
    pub cases: Vec<String>,
}

/// A variant (enum with data-carrying cases).
#[derive(Debug)]
pub struct ResolvedVariant {
    pub name: String,
    pub cases: Vec<(String, Option<ResolvedType>)>,
}

/// A fully resolved type definition discovered transitively.
#[derive(Debug)]
pub enum ResolvedTypeDef {
    Record(ResolvedRecord),
    Enum(ResolvedEnum),
    Variant(ResolvedVariant),
}

/// The models of named fields.
pub open spec fn fields_of(s: Seq<(String, ResolvedType)>) -> Seq<(Seq<char>, WitTy)> {
    s.map_values(|f: (String, ResolvedType)| (f.0@, f.1@))
}

/// The model of an optional type.
pub open spec fn opt_res_ty(o: Option<ResolvedType>) -> Option<WitTy> {
    match o {
        Some(t) => Some(t@),
        None => None,
    }
}

/// The models of variant cases.
pub open spec fn vcases_of(s: Seq<(String, Option<ResolvedType>)>) -> Seq<(Seq<char>, Option<WitTy>)> {
    s.map_values(|c: (String, Option<ResolvedType>)| (c.0@, opt_res_ty(c.1)))
}

impl View for ResolvedTypeDef {
    type V = DefModel;

    open spec fn view(&self) -> DefModel {
        match self {
            ResolvedTypeDef::Record(r) => DefModel::Record(r.name@, fields_of(r.fields@)),
            ResolvedTypeDef::Enum(e) => DefModel::Enum(e.name@, strs_of(e.cases@)),
            ResolvedTypeDef::Variant(v) => DefModel::Variant(v.name@, vcases_of(v.cases@)),
        }
    }
}

/// The models of a sequence of definitions.
pub open spec fn defs_of(s: Seq<ResolvedTypeDef>) -> Seq<DefModel> {
    s.map_values(|d: ResolvedTypeDef| d@)
}

/// A fully resolved function signature.
#[derive(Debug)]
pub struct ResolvedFunction {
    pub name: String,
    pub params: Vec<(String, ResolvedType)>,
    pub return_type: Option<ResolvedType>,
    pub is_async: bool,
    /// Whether this method takes `&mut self` (vs `&self` or no self).
    pub is_mut_self: bool,
}

/// The model of a resolved function.
pub struct FnModel {
    pub name: Seq<char>,
    pub params: Seq<(Seq<char>, WitTy)>,
    pub return_type: Option<WitTy>,
    pub is_async: bool,
    pub is_mut_self: bool,
}

impl View for ResolvedFunction {
    type V = FnModel;

    open spec fn view(&self) -> FnModel {
        FnModel {
            name: self.name@,
            params: fields_of(self.params@),
            return_type: opt_res_ty(self.return_type),
            is_async: self.is_async,
            is_mut_self: self.is_mut_self,
        }
    }
}

/// The models of a sequence of functions.
pub open spec fn fns_of(s: Seq<ResolvedFunction>) -> Seq<FnModel> {
    s.map_values(|f: ResolvedFunction| f@)
}

/// A fully resolved impl block (resource).
#[derive(Debug)]
pub struct ResolvedImpl {
    pub impl_name: String,
    pub constructor: Option<ResolvedFunction>,
    pub methods: Vec<ResolvedFunction>,
    pub static_funcs: Vec<ResolvedFunction>,
}

/// The model of a resolved impl block.
pub struct ImplModel {
    pub impl_name: Seq<char>,
    pub constructor: Option<FnModel>,
    pub methods: Seq<FnModel>,
    pub static_funcs: Seq<FnModel>,
}

impl View for ResolvedImpl {
    type V = ImplModel;

    open spec fn view(&self) -> ImplModel {
        ImplModel {
            impl_name: self.impl_name@,
            constructor: match self.constructor {
                Some(f) => Some(f@),
                None => None,
            },
            methods: fns_of(self.methods@),
            static_funcs: fns_of(self.static_funcs@),
        }
    }
}

/// The models of a sequence of impl blocks.
pub open spec fn impls_of(s: Seq<ResolvedImpl>) -> Seq<ImplModel> {
    s.map_values(|i: ResolvedImpl| i@)
}

/// The complete result of resolving all exports.
#[derive(Debug)]
pub struct ResolveResult {
    pub functions: Vec<ResolvedFunction>,
    pub impls: Vec<ResolvedImpl>,
    pub type_defs: Vec<ResolvedTypeDef>,
    pub warnings: Vec<String>,
}

impl ResolveResult {
    /// Whether there are any exports (type defs, impls, or functions).
    pub fn has_exports(&self) -> (b: bool)
        ensures
            b == (self.type_defs@.len() > 0 || self.impls@.len() > 0 || self.functions@.len() > 0),
    {
        self.type_defs.len() > 0 || self.impls.len() > 0 || self.functions.len() > 0
    }
}

// ---------------------------------------------------------------------------
// The resolver
// ---------------------------------------------------------------------------

/// Resolves exported items by looking them up in the rustdoc index.
struct Resolver<'a> {
    krate: &'a DocCrate,
    visited: Vec<u32>,
    type_defs: Vec<ResolvedTypeDef>,
    functions: Vec<ResolvedFunction>,
    impls: Vec<ResolvedImpl>,
    resource_types: Vec<String>,
    warnings: Vec<String>,
    self_type: Option<String>,
}

/// The resolution environment of a resolver.
spec fn env_of(r: Resolver) -> Env {
    Env {
        resources: strs_of(r.resource_types@).to_set(),
        self_type: crate::ts_project::opt_str(r.self_type),
    }
}

/// How many items of the index are still undiscovered.
spec fn unvisited(r: Resolver) -> nat {
    crate_ids(*r.krate).difference(r.visited@.to_set()).len()
}

/// `b` is `a` after more resolution: same index and environment, more ids
/// visited, definitions and warnings only appended.
spec fn extends(a: Resolver, b: Resolver) -> bool {
    &&& a.krate == b.krate
    &&& a.resource_types@ == b.resource_types@
    &&& a.self_type == b.self_type
    &&& a.visited@.to_set().subset_of(b.visited@.to_set())
    &&& defs_of(a.type_defs@).is_prefix_of(defs_of(b.type_defs@))
    &&& strs_of(a.warnings@).is_prefix_of(strs_of(b.warnings@))
    &&& covers_ids(a, b)
    &&& closes_ids(a, b)
}

/// The definition of each struct or enum first visited between `a` and `b`
/// discovers only ids visited in `b`.
spec fn closes_ids(a: Resolver, b: Resolver) -> bool {
    forall|id0: u32, id: u32|
        b.visited@.to_set().contains(id0) && !a.visited@.to_set().contains(id0) && has_def(*a.krate, id0)
            && #[trigger] def_uses(*a.krate, env_of(b).resources, id0, id)
            ==> b.visited@.to_set().contains(id)
}

/// Whether item `id` of `k` is a struct or an enum.
pub open spec fn has_def(k: DocCrate, id: u32) -> bool {
    match item_in(k.items@, id) {
        Some(it) => it.kind is Struct || it.kind is Enum,
        None => false,
    }
}

/// Whether `m` is the definition of item `id` of `k` with the resources `res`.
pub open spec fn def_for(k: DocCrate, res: Set<Seq<char>>, id: u32, m: DefModel) -> bool {
    exists|st: Option<Seq<char>>|
        #[trigger] def_model(k, Env { resources: res, self_type: st }, id, crate::rs_discover::model_name(m)) == Some(m)
}

/// Whether one of the definitions `ds` is that of item `id`.
pub open spec fn id_covered(k: DocCrate, res: Set<Seq<char>>, id: u32, ds: Seq<DefModel>) -> bool {
    exists|i: int| 0 <= i < ds.len() && def_for(k, res, id, #[trigger] ds[i])
}

/// Each struct or enum first visited between `a` and `b` has its definition
/// recorded in `b`.
spec fn covers_ids(a: Resolver, b: Resolver) -> bool {
    forall|id: u32|
        #[trigger] b.visited@.to_set().contains(id) && !a.visited@.to_set().contains(id) && has_def(*a.krate, id)
            ==> id_covered(*b.krate, env_of(b).resources, id, defs_of(b.type_defs@))
}

/// Visiting a new id, then more resolution after which the id's definition,
/// if it has one, is recorded, is more resolution.
proof fn lemma_grows_visit(a: Resolver, b: Resolver, c: Resolver, id: u32)
    requires
        b.krate == a.krate,
        b.resource_types@ == a.resource_types@,
        b.self_type == a.self_type,
        b.visited@ == a.visited@.push(id),
        b.type_defs@ == a.type_defs@,
        b.warnings@ == a.warnings@,
        b.functions@ == a.functions@,
        b.impls@ == a.impls@,
        grows(b, c),
        has_def(*a.krate, id) ==> id_covered(*c.krate, env_of(c).resources, id, defs_of(c.type_defs@)),
        forall|x: u32| #[trigger] def_uses(*a.krate, env_of(c).resources, id, x) ==> c.visited@.to_set().contains(x),
    ensures
        grows(a, c),
{
    assert(b.visited@.to_set() =~= a.visited@.to_set().insert(id)) by {
        assert forall|x: u32| b.visited@.to_set().contains(x) <==> a.visited@.to_set().insert(id).contains(x) by {
            if a.visited@.to_set().contains(x) {
                let j = choose|j: int| 0 <= j < a.visited@.len() && a.visited@[j] == x;
                assert(b.visited@[j] == x);
            }
            if b.visited@.to_set().contains(x) && x != id {
                let j = choose|j: int| 0 <= j < b.visited@.len() && b.visited@[j] == x;
                assert(j < a.visited@.len());
                assert(a.visited@[j] == x);
            }
            if x == id {
                assert(b.visited@[a.visited@.len() as int] == id);
            }
        }
    }
    let (da, dc) = (defs_of(a.type_defs@), defs_of(c.type_defs@));
    assert(da.is_prefix_of(dc)) by {
        assert(defs_of(b.type_defs@) == da);
    }
    assert(strs_of(a.warnings@).is_prefix_of(strs_of(c.warnings@))) by {
        assert(strs_of(b.warnings@) == strs_of(a.warnings@));
    }
}

/// Whether resolving the export at `i` discovers `id`: the signature of an
/// exported function that the index has, or those of an exported resource.
pub open spec fn export_uses(k: DocCrate, es: Seq<ExportedItemModel>, i: int, id: u32) -> bool {
    if es[i].0 {
        impl_uses(k, export_env(es), simple_name(es[i].1), id)
    } else {
        find_fn(k.items@, simple_name(es[i].1)) matches Some(f) && sig_uses(export_env(es), f.0, id)
    }
}

/// Whether the field item `fid` has a type whose resolution discovers `id`.
pub open spec fn field_uses(k: DocCrate, res: Set<Seq<char>>, fid: u32, id: u32) -> bool {
    match item_in(k.items@, fid) {
        Some(it) => match it.kind {
            DocItemKind::StructField(t) => used_ids(res, t).contains(id),
            _ => false,
        },
        None => false,
    }
}

/// `field_uses` for a field id that may be missing.
pub open spec fn ofield_uses(k: DocCrate, res: Set<Seq<char>>, o: Option<u32>, id: u32) -> bool {
    o matches Some(fid) && field_uses(k, res, fid, id)
}

/// Whether resolving the fields of a struct shape discovers `id`.
pub open spec fn struct_uses(k: DocCrate, res: Set<Seq<char>>, kind: DocStructKind, id: u32) -> bool {
    match kind {
        DocStructKind::Plain(fids) => exists|j: int| 0 <= j < fids@.len() && field_uses(k, res, #[trigger] fids@[j], id),
        DocStructKind::Tuple(fids) => exists|j: int| 0 <= j < fids@.len() && ofield_uses(k, res, #[trigger] fids@[j], id),
        DocStructKind::Unit => false,
    }
}

/// Whether resolving a variant's payload discovers `id`.
pub open spec fn payload_uses(k: DocCrate, res: Set<Seq<char>>, v: DocVariantKind, id: u32) -> bool {
    match v {
        DocVariantKind::Plain => false,
        DocVariantKind::Tuple(fids) => exists|j: int| 0 <= j < fids@.len() && ofield_uses(k, res, #[trigger] fids@[j], id),
        DocVariantKind::Struct(fids) => exists|j: int| 0 <= j < fids@.len() && field_uses(k, res, #[trigger] fids@[j], id),
    }
}

/// Whether resolving the named variant item `vid` discovers `id`.
pub open spec fn variant_uses(k: DocCrate, res: Set<Seq<char>>, vid: u32, id: u32) -> bool {
    match item_in(k.items@, vid) {
        Some(vi) => vi.name is Some && match vi.kind {
            DocItemKind::Variant(v) => payload_uses(k, res, v, id),
            _ => false,
        },
        None => false,
    }
}

/// Whether resolving the variants `vids` discovers `id`.
pub open spec fn enum_uses(k: DocCrate, res: Set<Seq<char>>, vids: Seq<u32>, id: u32) -> bool {
    exists|j: int| 0 <= j < vids.len() && variant_uses(k, res, #[trigger] vids[j], id)
}

/// Whether resolving the definition of item `id0` discovers `id`.
pub open spec fn def_uses(k: DocCrate, res: Set<Seq<char>>, id0: u32, id: u32) -> bool {
    match item_in(k.items@, id0) {
        Some(it) => match it.kind {
            DocItemKind::Struct(kind) => struct_uses(k, res, kind, id),
            DocItemKind::Enum(vids) => enum_uses(k, res, vids@, id),
            _ => false,
        },
        None => false,
    }
}

/// A set of ids that holds every id the exports discover, is closed under
/// the definitions' fields, and whose structs and enums all have their
/// definitions among `ds`.
pub open spec fn covering_set(k: DocCrate, es: Seq<ExportedItemModel>, ds: Seq<DefModel>, s: Set<u32>) -> bool {
    let res = export_env(es).resources;
    &&& forall|i: int, id: u32| 0 <= i < es.len() && #[trigger] export_uses(k, es, i, id) ==> s.contains(id)
    &&& forall|id0: u32, id: u32| s.contains(id0) && has_def(k, id0) && #[trigger] def_uses(k, res, id0, id) ==> s.contains(id)
    &&& forall|id: u32| #[trigger] s.contains(id) && has_def(k, id) ==> id_covered(k, res, id, ds)
}

/// The warning for an exported function that the index does not have.
pub open spec fn missing_fn_warning(name: Seq<char>) -> Seq<char> {
    "exported function `"@ + name + "` not found in rustdoc output"@
}

/// Whether the export at `i` is a function that the index does not have.
pub open spec fn export_missing(k: DocCrate, es: Seq<ExportedItemModel>, i: int) -> bool {
    !es[i].0 && find_fn(k.items@, simple_name(es[i].1)) is None
}

/// Whether a recorded definition is the definition of some item of `k`,
/// under the name it is recorded by, with the resources `res`.
pub open spec fn def_sound(k: DocCrate, res: Set<Seq<char>>, m: DefModel) -> bool {
    exists|id: u32, st: Option<Seq<char>>|
        #[trigger] def_model(k, Env { resources: res, self_type: st }, id, crate::rs_discover::model_name(m)) == Some(m)
}

/// Every recorded definition of the resolver but the last `skip` is sound.
spec fn sound_but(r: Resolver, skip: int) -> bool {
    forall|i: int| 0 <= i < defs_of(r.type_defs@).len() - skip ==>
        def_sound(*r.krate, env_of(r).resources, #[trigger] defs_of(r.type_defs@)[i])
}

/// Every recorded definition of the resolver is sound.
spec fn sound(r: Resolver) -> bool {
    sound_but(r, 0)
}

/// `b` extends `a`, with the same functions and impl blocks.
spec fn grows(a: Resolver, b: Resolver) -> bool {
    &&& extends(a, b)
    &&& a.functions@ == b.functions@
    &&& a.impls@ == b.impls@
}

proof fn lemma_grows_refl(a: Resolver)
    ensures
        grows(a, a),
{
    assert(defs_of(a.type_defs@).is_prefix_of(defs_of(a.type_defs@)));
    assert(strs_of(a.warnings@).is_prefix_of(strs_of(a.warnings@)));
}

proof fn lemma_grows_trans(a: Resolver, b: Resolver, c: Resolver)
    requires
        grows(a, b),
        grows(b, c),
    ensures
        grows(a, c),
{
    lemma_extends_trans(a, b, c);
}

proof fn lemma_extends_trans(a: Resolver, b: Resolver, c: Resolver)
    requires
        extends(a, b),
        extends(b, c),
    ensures
        extends(a, c),
{
    let (da, db, dc) = (defs_of(a.type_defs@), defs_of(b.type_defs@), defs_of(c.type_defs@));
    assert(da.is_prefix_of(dc)) by {
        assert forall|i: int| 0 <= i < da.len() implies da[i] == dc[i] by {
            assert(da[i] == db[i]);
        }
    }
    let (wa, wb, wc) = (strs_of(a.warnings@), strs_of(b.warnings@), strs_of(c.warnings@));
    assert(wa.is_prefix_of(wc)) by {
        assert forall|i: int| 0 <= i < wa.len() implies wa[i] == wc[i] by {
            assert(wa[i] == wb[i]);
        }
    }
    assert forall|id: u32|
        #[trigger] c.visited@.to_set().contains(id) && !a.visited@.to_set().contains(id) && has_def(*a.krate, id)
        implies id_covered(*c.krate, env_of(c).resources, id, dc) by {
        if b.visited@.to_set().contains(id) {
            let i = choose|i: int| 0 <= i < db.len() && def_for(*b.krate, env_of(b).resources, id, #[trigger] db[i]);
            assert(dc[i] == db[i]);
            assert(env_of(b).resources == env_of(c).resources);
        }
    }
    assert forall|id0: u32, id: u32|
        c.visited@.to_set().contains(id0) && !a.visited@.to_set().contains(id0) && has_def(*a.krate, id0)
            && #[trigger] def_uses(*a.krate, env_of(c).resources, id0, id)
        implies c.visited@.to_set().contains(id) by {
        assert(env_of(b).resources == env_of(c).resources);
        if b.visited@.to_set().contains(id0) {
            assert(b.visited@.to_set().contains(id));
        }
    }
}

proof fn lemma_grows_unvisited(a: Resolver, b: Resolver)
    requires
        extends(a, b),
    ensures
        unvisited(b) <= unvisited(a),
{
    let ids = crate_ids(*a.krate);
    vstd::seq_lib::seq_to_set_is_finite(ids_of(a.krate.items@));
    vstd::set_lib::lemma_len_subset(
        ids.difference(b.visited@.to_set()),
        ids.difference(a.visited@.to_set()),
    );
}


proof fn lemma_visit_unvisited(a: Resolver, b: Resolver, id: u32)
    requires
        a.krate == b.krate,
        b.visited@ == a.visited@.push(id),
        !a.visited@.contains(id),
        crate_ids(*a.krate).contains(id),
    ensures
        unvisited(b) < unvisited(a),
{
    let ids = crate_ids(*a.krate);
    vstd::seq_lib::seq_to_set_is_finite(ids_of(a.krate.items@));
    let da = ids.difference(a.visited@.to_set());
    let db = ids.difference(b.visited@.to_set());
    assert(db =~= da.remove(id)) by {
        assert forall|x: u32| db.contains(x) <==> da.remove(id).contains(x) by {
            if x != id {
                assert(b.visited@.contains(x) <==> a.visited@.contains(x)) by {
                    if b.visited@.contains(x) {
                        let j = choose|j: int| 0 <= j < b.visited@.len() && b.visited@[j] == x;
                        assert(a.visited@[j] == x);
                    }
                    if a.visited@.contains(x) {
                        let j = choose|j: int| 0 <= j < a.visited@.len() && a.visited@[j] == x;
                        assert(b.visited@[j] == x);
                    }
                }
            } else {
                assert(b.visited@[a.visited@.len() as int] == id);
            }
        }
    }
    assert(da.contains(id));
}

// ---------------------------------------------------------------------------
// The walk that resolution performs
// ---------------------------------------------------------------------------

/// The state of a resolution walk: the ids looked up, the definitions
/// recorded, in order, and the warnings given, in order.
pub type RState = (Set<u32>, Seq<DefModel>, Seq<Seq<char>>);

/// The walk state of a resolver.
spec fn rst(r: Resolver) -> RState {
    (r.visited@.to_set(), defs_of(r.type_defs@), strs_of(r.warnings@))
}

/// `st` with the warning `w` given.
pub open spec fn rwarn(st: RState, w: Seq<char>) -> RState {
    (st.0, st.1, st.2.push(w))
}

/// The warning about a primitive without a WIT type.
pub open spec fn prim_warning(n: Seq<char>) -> Seq<char> {
    "unsupported primitive type `"@ + n + "`"@
}

/// The walk over a rustdoc type, with fuel `f`: the containers' type
/// arguments, the item behind each other path, a borrowed type unless it is
/// a resource, slices and tuples.
pub open spec fn rwalk_ty(k: DocCrate, env: Env, f: nat, st: RState, t: DocType) -> RState
    decreases f, 1nat, doc_size(t), 0nat,
{
    match t {
        DocType::ResolvedPath { path, id, args } => {
            let sn = simple_name(path@);
            if sn == "String"@ {
                st
            } else if sn == "Vec"@ || sn == "HashSet"@ || sn == "BTreeSet"@ {
                rwalk_first(k, env, f, st, args@)
            } else if sn == "Option"@ {
                rwalk_first(k, env, f, st, args@)
            } else if sn == "Result"@ {
                rwalk_args(k, env, f, st, args@)
            } else if sn == "Box"@ || sn == "Arc"@ || sn == "Rc"@ {
                rwalk_first(k, env, f, st, args@)
            } else if sn == "HashMap"@ || sn == "BTreeMap"@ {
                rwalk_args(k, env, f, st, args@)
            } else {
                rwalk_id(k, env, f, st, id, sn)
            }
        },
        DocType::BorrowedRef { is_mutable, inner } => match *inner {
            DocType::ResolvedPath { path, id, args } => if env.resources.contains(simple_name(path@)) {
                st
            } else {
                rwalk_ty(k, env, f, st, *inner)
            },
            _ => rwalk_ty(k, env, f, st, *inner),
        },
        DocType::Slice(e) => rwalk_ty(k, env, f, st, *e),
        DocType::Tuple(es) => rwalk_all(k, env, f, st, es@),
        DocType::Primitive(n) => if known_prim(n@) { st } else { rwarn(st, prim_warning(n@)) },
        DocType::RawPointer => rwarn(st, "raw pointers are not supported in WIT"@),
        DocType::Generic(n) => if n@ == "Self"@ {
            if env.self_type is Some { st } else { rwarn(st, "Self type used outside of impl block"@) }
        } else {
            rwarn(st, "unsupported type: Generic(\""@ + n@ + "\")"@)
        },
        DocType::Unsupported(d) => rwarn(st, "unsupported type: "@ + d@),
    }
}

/// The walk over the first type argument; without one, a warning.
pub open spec fn rwalk_first(k: DocCrate, env: Env, f: nat, st: RState, args: Seq<DocArg>) -> RState
    decreases f, 1nat, args_size(args) + 1, args.len(),
{
    if args.len() == 0 {
        rwarn(st, "missing generic type argument"@)
    } else {
        match args[0] {
            DocArg::Type(t) => rwalk_ty(k, env, f, st, t),
            DocArg::Other => rwalk_first(k, env, f, st, args.drop_first()),
        }
    }
}

/// The walk over every type argument, in order.
pub open spec fn rwalk_args(k: DocCrate, env: Env, f: nat, st: RState, args: Seq<DocArg>) -> RState
    decreases f, 1nat, args_size(args) + 1, args.len(),
{
    if args.len() == 0 {
        st
    } else {
        let s1 = match args[0] {
            DocArg::Type(t) => rwalk_ty(k, env, f, st, t),
            DocArg::Other => st,
        };
        rwalk_args(k, env, f, s1, args.drop_first())
    }
}

/// The walk over a sequence of types, in order.
pub open spec fn rwalk_all(k: DocCrate, env: Env, f: nat, st: RState, ts: Seq<DocType>) -> RState
    decreases f, 1nat, tys_size(ts) + 1, ts.len(),
{
    if ts.len() == 0 {
        st
    } else {
        rwalk_all(k, env, f, rwalk_ty(k, env, f, st, ts[0]), ts.drop_first())
    }
}

/// The walk over the field items of a plain struct or struct variant.
pub open spec fn rwalk_plain(k: DocCrate, env: Env, f: nat, st: RState, fids: Seq<u32>) -> RState
    decreases f, 2nat, fids.len(), 0nat,
{
    if fids.len() == 0 {
        st
    } else {
        let s1 = match item_in(k.items@, fids[0]) {
            Some(it) => match it.kind {
                DocItemKind::StructField(t) => rwalk_ty(k, env, f, st, t),
                _ => st,
            },
            None => st,
        };
        rwalk_plain(k, env, f, s1, fids.drop_first())
    }
}

/// The walk over the field items of a tuple struct or tuple variant.
pub open spec fn rwalk_tuple(k: DocCrate, env: Env, f: nat, st: RState, fids: Seq<Option<u32>>) -> RState
    decreases f, 2nat, fids.len(), 0nat,
{
    if fids.len() == 0 {
        st
    } else {
        let s1 = match fids[0] {
            Some(id) => match item_in(k.items@, id) {
                Some(it) => match it.kind {
                    DocItemKind::StructField(t) => rwalk_ty(k, env, f, st, t),
                    _ => st,
                },
                None => st,
            },
            None => st,
        };
        rwalk_tuple(k, env, f, s1, fids.drop_first())
    }
}

/// The walk over a struct: its fields, then its record.
pub open spec fn rwalk_struct(k: DocCrate, env: Env, f: nat, st: RState, name: Seq<char>, kind: DocStructKind) -> RState
    decreases f, 4nat, 0nat, 0nat,
{
    let s1 = match kind {
        DocStructKind::Plain(fids) => rwalk_plain(k, env, f, st, fids@),
        DocStructKind::Tuple(fids) => rwalk_tuple(k, env, f, st, fids@),
        DocStructKind::Unit => st,
    };
    (s1.0, s1.1.push(struct_def(k, env, name, kind)), s1.2)
}

/// The walk over the payload of a variant.
pub open spec fn rwalk_payload(k: DocCrate, env: Env, f: nat, st: RState, v: DocVariantKind) -> RState
    decreases f, 3nat, 0nat, 0nat,
{
    match v {
        DocVariantKind::Plain => st,
        DocVariantKind::Tuple(fids) => rwalk_tuple(k, env, f, st, fids@),
        DocVariantKind::Struct(fids) => rwalk_plain(k, env, f, st, fids@),
    }
}

/// The walk over the payloads of the named variants found, in order.
pub open spec fn rwalk_variants(k: DocCrate, env: Env, f: nat, st: RState, vids: Seq<u32>) -> RState
    decreases f, 4nat, vids.len(), 0nat,
{
    if vids.len() == 0 {
        st
    } else {
        let s1 = match item_in(k.items@, vids[0]) {
            Some(it) => match it.name {
                Some(_) => match it.kind {
                    DocItemKind::Variant(v) => rwalk_payload(k, env, f, st, v),
                    _ => st,
                },
                None => st,
            },
            None => st,
        };
        rwalk_variants(k, env, f, s1, vids.drop_first())
    }
}

/// The walk over an enum: the payloads of a data-carrying enum, then its
/// definition.
pub open spec fn rwalk_enum(k: DocCrate, env: Env, f: nat, st: RState, name: Seq<char>, vids: Seq<u32>) -> RState
    decreases f, 5nat, 0nat, 0nat,
{
    let s1 = if all_unit(k, vids) { st } else { rwalk_variants(k, env, f, st, vids) };
    (s1.0, s1.1.push(enum_def(k, env, name, vids)), s1.2)
}

/// The walk at the item `id`, referenced as `name`: the first time it is
/// met it is looked up, and a struct or enum is walked and recorded after
/// what it reaches, a type alias's type walked.
pub open spec fn rwalk_id(k: DocCrate, env: Env, f: nat, st: RState, id: u32, name: Seq<char>) -> RState
    decreases f, 0nat, 0nat, 0nat,
{
    if st.0.contains(id) {
        st
    } else {
        let s1 = (st.0.insert(id), st.1, st.2);
        if f == 0 {
            s1
        } else {
            match item_in(k.items@, id) {
                Some(it) => match it.kind {
                    DocItemKind::Struct(kind) => rwalk_struct(k, env, (f - 1) as nat, s1, name, kind),
                    DocItemKind::Enum(vids) => rwalk_enum(k, env, (f - 1) as nat, s1, name, vids@),
                    DocItemKind::TypeAlias(t) => rwalk_ty(k, env, (f - 1) as nat, s1, t),
                    _ => s1,
                },
                None => s1,
            }
        }
    }
}

/// The walk over the parameters other than `self`, in order.
pub open spec fn rwalk_params(k: DocCrate, env: Env, f: nat, st: RState, inputs: Seq<(String, DocType)>) -> RState
    decreases inputs.len(),
{
    if inputs.len() == 0 {
        st
    } else {
        let s1 = if inputs[0].0@ == "self"@ { st } else { rwalk_ty(k, env, f, st, inputs[0].1) };
        rwalk_params(k, env, f, s1, inputs.drop_first())
    }
}

/// The walk over a signature: its parameters, then its return type.
pub open spec fn rwalk_sig(k: DocCrate, env: Env, f: nat, st: RState, sig: DocSig) -> RState {
    let s1 = rwalk_params(k, env, f, st, sig.inputs@);
    match sig.output {
        Some(t) => rwalk_ty(k, env, f, s1, t),
        None => s1,
    }
}

/// The walk over the signature of the function item `mid`.
pub open spec fn rwalk_method(k: DocCrate, env: Env, f: nat, st: RState, mid: u32) -> RState {
    match item_in(k.items@, mid) {
        Some(mi) => match mi.kind {
            DocItemKind::Function { sig, is_async } => rwalk_sig(k, env, f, st, sig),
            _ => st,
        },
        None => st,
    }
}

/// The walk over the function items of an impl block, in order.
pub open spec fn rwalk_methods(k: DocCrate, env: Env, f: nat, st: RState, mids: Seq<u32>) -> RState
    decreases mids.len(),
{
    if mids.len() == 0 {
        st
    } else {
        rwalk_methods(k, env, f, rwalk_method(k, env, f, st, mids[0]), mids.drop_first())
    }
}

/// The walk over an index item for the resource `name`: the functions of an
/// inherent impl block for it.
pub open spec fn rwalk_block(k: DocCrate, env: Env, f: nat, st: RState, name: Seq<char>, it: DocItem) -> RState {
    match it.kind {
        DocItemKind::Impl { is_trait, for_type, items } => if !is_trait && impl_for(for_type, name) {
            rwalk_methods(k, env, f, st, items@)
        } else {
            st
        },
        _ => st,
    }
}

/// The walk over index items for the resource `name`, in order.
pub open spec fn rwalk_blocks(k: DocCrate, env: Env, f: nat, st: RState, name: Seq<char>, items: Seq<DocItem>) -> RState
    decreases items.len(),
{
    if items.len() == 0 {
        st
    } else {
        rwalk_blocks(k, env, f, rwalk_block(k, env, f, st, name, items[0]), name, items.drop_first())
    }
}

/// The walk over the resource `name`: its inherent impl blocks, with `Self`
/// being `name`.
pub open spec fn rwalk_impl(k: DocCrate, env: Env, f: nat, st: RState, name: Seq<char>) -> RState {
    rwalk_blocks(k, impl_env(env, name), f, st, name, k.items@)
}

/// The walk over the exports, in order: each exported impl block's
/// resource, each exported function found in the index, and a warning for
/// each one not found.
pub open spec fn rwalk_exports(k: DocCrate, env: Env, f: nat, st: RState, es: Seq<ExportedItemModel>) -> RState
    decreases es.len(),
{
    if es.len() == 0 {
        st
    } else {
        let s1 = if es[0].0 {
            rwalk_impl(k, env, f, st, simple_name(es[0].1))
        } else {
            match find_fn(k.items@, simple_name(es[0].1)) {
                Some((sig, a)) => rwalk_sig(k, env, f, st, sig),
                None => rwarn(st, missing_fn_warning(es[0].1)),
            }
        };
        rwalk_exports(k, env, f, s1, es.drop_first())
    }
}

/// An item found in the index has its id among the crate's ids.
proof fn lemma_found_in_crate(k: DocCrate, id: u32)
    requires
        item_in(k.items@, id) is Some,
    ensures
        crate_ids(k).contains(id),
{
    lemma_item_in(k.items@, id);
    let it = item_in(k.items@, id).unwrap();
    let j = choose|j: int| 0 <= j < k.items@.len() && k.items@[j] == it;
    assert(ids_of(k.items@)[j] == id);
}

impl<'a> Resolver<'a> {
    /// Whether `s` names a resource type.
    fn is_resource(&self, s: &str) -> (b: bool)
        ensures
            b == env_of(*self).resources.contains(s@),
    {
        crate::ts_project::contains_str(self.resource_types.as_slice(), s)
    }

    /// Whether the item `id` was discovered already.
    fn is_visited(&self, id: u32) -> (b: bool)
        ensures
            b == self.visited@.contains(id),
    {
        let mut i: usize = 0;
        while i < self.visited.len()
            invariant
                i <= self.visited.len(),
                forall|j: int| 0 <= j < i ==> self.visited@[j] != id,
            decreases self.visited.len() - i,
        {
            if self.visited[i] == id {
                return true;
            }
            i = i + 1;
        }
        false
    }

    /// Record a warning.
    fn warn(&mut self, msg: String)
        requires
            sound(*old(self)),
        ensures
            sound(*final(self)),
            grows(*old(self), *final(self)),
            strs_of(final(self).warnings@) == strs_of(old(self).warnings@).push(msg@),
            final(self).visited@ == old(self).visited@,
            final(self).type_defs@ == old(self).type_defs@,
    {
        let ghost before = strs_of(self.warnings@);
        self.warnings.push(msg);
        proof {
            assert(strs_of(self.warnings@) =~= before.push(msg@));
            assert(defs_of(self.type_defs@).is_prefix_of(defs_of(self.type_defs@)));
        }
    }

    /// The type of a primitive; an unknown one is warned about.
    fn resolve_primitive(&mut self, name: &str) -> (r: ResolvedType)
        requires
            sound(*old(self)),
        ensures
            sound(*final(self)),
            r@ == prim_ty(name@),
            grows(*old(self), *final(self)),
            final(self).visited@ == old(self).visited@,
            final(self).type_defs@ == old(self).type_defs@,
            strs_of(final(self).warnings@) == if known_prim(name@) { strs_of(old(self).warnings@) } else {
                strs_of(old(self).warnings@).push(prim_warning(name@))
            },
    {
        proof { lemma_grows_refl(*self); }
        if str_eq(name, "bool") { ResolvedType::Bool }
        else if str_eq(name, "u8") { ResolvedType::U8 }
        else if str_eq(name, "u16") { ResolvedType::U16 }
        else if str_eq(name, "u32") { ResolvedType::U32 }
        else if str_eq(name, "u64") { ResolvedType::U64 }
        else if str_eq(name, "i8") { ResolvedType::S8 }
        else if str_eq(name, "i16") { ResolvedType::S16 }
        else if str_eq(name, "i32") { ResolvedType::S32 }
        else if str_eq(name, "i64") { ResolvedType::S64 }
        else if str_eq(name, "f32") { ResolvedType::F32 }
        else if str_eq(name, "f64") { ResolvedType::F64 }
        else if str_eq(name, "char") { ResolvedType::Char }
        else if str_eq(name, "str") { ResolvedType::WitString }
        else {
            let mut msg = "unsupported primitive type `".to_string();
            msg.push_str(name);
            msg.push_str("`");
            self.warn(msg);
            ResolvedType::WitString
        }
    }

    /// Resolve a rustdoc type to its WIT form, discovering the user types it names.
    fn resolve_type(&mut self, ty: &DocType) -> (r: ResolvedType)
        requires
            sound(*old(self)),
        ensures
            sound(*final(self)),
            r@ == rty_spec(env_of(*old(self)), *ty),
            grows(*old(self), *final(self)),
            used_ids(env_of(*old(self)).resources, *ty).subset_of(final(self).visited@.to_set()),
            forall|g: nat| g > unvisited(*old(self)) ==> #[trigger] rwalk_ty(*old(self).krate, env_of(*old(self)), g, rst(*old(self)), *ty) == rst(*final(self)),
        decreases unvisited(*old(self)), 1nat, doc_size(*ty),
    {
        let ghost s0 = *self;
        let ghost u0 = unvisited(*self);
        let ghost k0 = *self.krate;
        let ghost e0 = env_of(*self);
        proof { reveal_with_fuel(res_of, 2); }
        let ghost u = used_ids(env_of(*self).resources, *ty);
        proof {
            reveal_strlit("String");
            reveal_strlit("Vec");
            reveal_strlit("HashSet");
            reveal_strlit("BTreeSet");
            reveal_strlit("Option");
            reveal_strlit("Box");
            reveal_strlit("Arc");
            reveal_strlit("Rc");
            reveal_strlit("Result");
            reveal_strlit("HashMap");
            reveal_strlit("BTreeMap");
        }
        match ty {
            DocType::Primitive(name) => {
                let r = self.resolve_primitive(name.as_str());
                proof { assert forall|g: nat| g > u0 implies #[trigger] rwalk_ty(k0, e0, g, rst(s0), *ty) == rst(*self) by {} }
                r
            },
            DocType::ResolvedPath { path, id, args } => {
                let simple = last_segment(path.as_str());
                let sn = simple.as_str();
                if str_eq(sn, "String") {
                    proof { lemma_grows_refl(*self); }
                    proof { assert forall|g: nat| g > u0 implies #[trigger] rwalk_ty(k0, e0, g, rst(s0), *ty) == rst(*self) by {} }
                    ResolvedType::WitString
                } else if str_eq(sn, "Vec") || str_eq(sn, "HashSet") || str_eq(sn, "BTreeSet") {
                    let inner = self.extract_first_generic_arg(args);
                    proof { assert forall|g: nat| g > u0 implies #[trigger] rwalk_ty(k0, e0, g, rst(s0), *ty) == rst(*self) by { assert(rwalk_ty(k0, e0, g, rst(s0), *ty) == rwalk_first(k0, e0, g, rst(s0), args@)); } }
                    assert(u.subset_of(self.visited@.to_set()));
                    ResolvedType::List(Box::new(inner))
                } else if str_eq(sn, "Option") {
                    let inner = self.extract_first_generic_arg(args);
                    proof { assert forall|g: nat| g > u0 implies #[trigger] rwalk_ty(k0, e0, g, rst(s0), *ty) == rst(*self) by { assert(rwalk_ty(k0, e0, g, rst(s0), *ty) == rwalk_first(k0, e0, g, rst(s0), args@)); } }
                    assert(u.subset_of(self.visited@.to_set()));
                    ResolvedType::Option(Box::new(inner))
                } else if str_eq(sn, "Result") {
                    proof { lemma_used_ids_all_args(env_of(*old(self)).resources, *ty); }
                    let (ok, err) = self.extract_result_args(args);
                    proof { assert forall|g: nat| g > u0 implies #[trigger] rwalk_ty(k0, e0, g, rst(s0), *ty) == rst(*self) by { assert(rwalk_ty(k0, e0, g, rst(s0), *ty) == rwalk_args(k0, e0, g, rst(s0), args@)); } }
                    assert(u.subset_of(self.visited@.to_set()));
                    ResolvedType::Result { ok, err }
                } else if str_eq(sn, "Box") || str_eq(sn, "Arc") || str_eq(sn, "Rc") {
                    let r = self.extract_first_generic_arg(args);
                    proof { assert forall|g: nat| g > u0 implies #[trigger] rwalk_ty(k0, e0, g, rst(s0), *ty) == rst(*self) by { assert(rwalk_ty(k0, e0, g, rst(s0), *ty) == rwalk_first(k0, e0, g, rst(s0), args@)); } }
                    assert(u.subset_of(self.visited@.to_set()));
                    r
                } else if str_eq(sn, "HashMap") || str_eq(sn, "BTreeMap") {
                    proof { lemma_used_ids_all_args(env_of(*old(self)).resources, *ty); }
                    let elems = self.extract_two_generic_args(args);
                    proof { assert forall|g: nat| g > u0 implies #[trigger] rwalk_ty(k0, e0, g, rst(s0), *ty) == rst(*self) by { assert(rwalk_ty(k0, e0, g, rst(s0), *ty) == rwalk_args(k0, e0, g, rst(s0), args@)); } }
                    assert(u.subset_of(self.visited@.to_set()));
                    ResolvedType::List(Box::new(ResolvedType::Tuple(elems)))
                } else {
                    self.discover_type(*id, sn);
                    proof { assert forall|g: nat| g > u0 implies #[trigger] rwalk_ty(k0, e0, g, rst(s0), *ty) == rst(*self) by { assert(rwalk_ty(k0, e0, g, rst(s0), *ty) == rwalk_id(k0, e0, g, rst(s0), *id, sn@)); } }
                    assert(u.subset_of(self.visited@.to_set()));
                    if self.is_resource(sn) {
                        ResolvedType::Own(simple)
                    } else {
                        ResolvedType::Named(simple)
                    }
                }
            },
            DocType::BorrowedRef { is_mutable: _, inner } => match &**inner {
                DocType::ResolvedPath { path, id: _, args: _ } => {
                    let simple = last_segment(path.as_str());
                    if self.is_resource(simple.as_str()) {
                        proof { lemma_grows_refl(*self); }
                        proof { assert forall|g: nat| g > u0 implies #[trigger] rwalk_ty(k0, e0, g, rst(s0), *ty) == rst(*self) by {} }
                        ResolvedType::Borrow(simple)
                    } else {
                        let r = self.resolve_type(&**inner);
                        proof { assert forall|g: nat| g > u0 implies #[trigger] rwalk_ty(k0, e0, g, rst(s0), *ty) == rst(*self) by { assert(rwalk_ty(k0, e0, g, rst(s0), *ty) == rwalk_ty(k0, e0, g, rst(s0), **inner)); } }
                        r
                    }
                },
                _ => {
                    let r = self.resolve_type(&**inner);
                    proof { assert forall|g: nat| g > u0 implies #[trigger] rwalk_ty(k0, e0, g, rst(s0), *ty) == rst(*self) by { assert(rwalk_ty(k0, e0, g, rst(s0), *ty) == rwalk_ty(k0, e0, g, rst(s0), **inner)); } }
                    r
                },
            },
            DocType::Slice(e) => {
                let r = self.resolve_type(&**e);
                proof { assert forall|g: nat| g > u0 implies #[trigger] rwalk_ty(k0, e0, g, rst(s0), *ty) == rst(*self) by { assert(rwalk_ty(k0, e0, g, rst(s0), *ty) == rwalk_ty(k0, e0, g, rst(s0), **e)); } }
                ResolvedType::List(Box::new(r))
            },
            DocType::Tuple(es) => {
                let elems = self.resolve_all(es);
                proof { assert forall|g: nat| g > u0 implies #[trigger] rwalk_ty(k0, e0, g, rst(s0), *ty) == rst(*self) by { assert(rwalk_ty(k0, e0, g, rst(s0), *ty) == rwalk_all(k0, e0, g, rst(s0), es@)); } }
                ResolvedType::Tuple(elems)
            },
            DocType::RawPointer => {
                self.warn("raw pointers are not supported in WIT".to_string());
                proof { assert forall|g: nat| g > u0 implies #[trigger] rwalk_ty(k0, e0, g, rst(s0), *ty) == rst(*self) by {} }
                ResolvedType::U32
            },
            DocType::Generic(name) => {
                if str_eq(name.as_str(), "Self") {
                    match &self.self_type {
                        Some(st) => {
                            let n = st.clone();
                            proof { lemma_grows_refl(*self); }
                            proof { assert forall|g: nat| g > u0 implies #[trigger] rwalk_ty(k0, e0, g, rst(s0), *ty) == rst(*self) by {} }
                            if self.is_resource(n.as_str()) {
                                ResolvedType::Own(n)
                            } else {
                                ResolvedType::Named(n)
                            }
                        },
                        None => {
                            self.warn("Self type used outside of impl block".to_string());
                            proof { assert forall|g: nat| g > u0 implies #[trigger] rwalk_ty(k0, e0, g, rst(s0), *ty) == rst(*self) by {} }
                            ResolvedType::WitString
                        },
                    }
                } else {
                    let mut msg = "unsupported type: Generic(\"".to_string();
                    msg.push_str(name.as_str());
                    msg.push_str("\")");
                    self.warn(msg);
                    proof { assert forall|g: nat| g > u0 implies #[trigger] rwalk_ty(k0, e0, g, rst(s0), *ty) == rst(*self) by {} }
                    ResolvedType::WitString
                }
            },
            DocType::Unsupported(debug) => {
                let mut msg = "unsupported type: ".to_string();
                msg.push_str(debug.as_str());
                self.warn(msg);
                proof { assert forall|g: nat| g > u0 implies #[trigger] rwalk_ty(k0, e0, g, rst(s0), *ty) == rst(*self) by {} }
                ResolvedType::WitString
            },
        }
    }

    /// Resolve each element of a tuple.
    fn resolve_all(&mut self, es: &Vec<DocType>) -> (r: Vec<ResolvedType>)
        requires
            sound(*old(self)),
        ensures
            sound(*final(self)),
            ress_of(r@) == rtys_spec(env_of(*old(self)), es@),
            grows(*old(self), *final(self)),
            tys_ids(env_of(*old(self)).resources, es@).subset_of(final(self).visited@.to_set()),
            forall|g: nat| g > unvisited(*old(self)) ==> #[trigger] rwalk_all(*old(self).krate, env_of(*old(self)), g, rst(*old(self)), es@) == rst(*final(self)),
        decreases unvisited(*old(self)), 1nat, tys_size(es@) + 1,
    {
        let ghost env0 = env_of(*self);
        let ghost start = *self;
        proof { lemma_grows_refl(*self); }
        let mut out: Vec<ResolvedType> = Vec::new();
        let mut i: usize = 0;
        assert(es@.skip(0) == es@);
        while i < es.len()
            invariant
                i <= es.len(),
                start == *old(self),
                grows(start, *self),
                sound(*self),
                env_of(*self) == env0,
                env0 == env_of(start),
                unvisited(*self) <= unvisited(start),
                tys_size(es@.skip(i as int)) <= tys_size(es@),
                ress_of(out@) + rtys_spec(env0, es@.skip(i as int)) == rtys_spec(env0, es@),
                tys_ids(env0.resources, es@).subset_of(self.visited@.to_set() + tys_ids(env0.resources, es@.skip(i as int))),
                forall|g: nat| g > unvisited(start) ==> #[trigger] rwalk_all(*start.krate, env0, g, rst(start), es@)
                    == rwalk_all(*start.krate, env0, g, rst(*self), es@.skip(i as int)),
            decreases es.len() - i,
        {
            let ghost here = *self;
            proof {
                assert(es@.skip(i as int)[0] == es@[i as int]);
                assert(es@.skip(i as int).drop_first() == es@.skip(i + 1));
            }
            let r = self.resolve_type(&es[i]);
            proof {
                assert forall|g: nat| g > unvisited(start) implies #[trigger] rwalk_all(*start.krate, env0, g, rst(start), es@)
                    == rwalk_all(*start.krate, env0, g, rst(*self), es@.skip(i + 1)) by {
                    assert(rwalk_all(*start.krate, env0, g, rst(here), es@.skip(i as int))
                        == rwalk_all(*start.krate, env0, g, rwalk_ty(*start.krate, env0, g, rst(here), es@[i as int]), es@.skip(i + 1)));
                }
                lemma_grows_trans(start, here, *self);
                lemma_grows_unvisited(here, *self);
                lemma_ress_of_push(out@, r);
                assert(ress_of(out@.push(r)) + rtys_spec(env0, es@.skip(i + 1)) == ress_of(out@) + rtys_spec(env0, es@.skip(i as int)));
            }
            out.push(r);
            i = i + 1;
        }
        assert(es@.skip(es.len() as int) =~= Seq::<DocType>::empty());
        proof {
            assert forall|g: nat| g > unvisited(start) implies #[trigger] rwalk_all(*start.krate, env0, g, rst(start), es@) == rst(*self) by {
                assert(rwalk_all(*start.krate, env0, g, rst(*self), es@.skip(es.len() as int)) == rst(*self));
            }
        }
        out
    }

    /// Resolve the first type argument, or warn and give `string`.
    fn extract_first_generic_arg(&mut self, args: &Vec<DocArg>) -> (r: ResolvedType)
        requires
            sound(*old(self)),
        ensures
            sound(*final(self)),
            r@ == first_or_string(arg_tys(env_of(*old(self)), args@)),
            grows(*old(self), *final(self)),
            first_arg_ids(env_of(*old(self)).resources, args@).subset_of(final(self).visited@.to_set()),
            forall|g: nat| g > unvisited(*old(self)) ==> #[trigger] rwalk_first(*old(self).krate, env_of(*old(self)), g, rst(*old(self)), args@) == rst(*final(self)),
        decreases unvisited(*old(self)), 1nat, args_size(args@) + 1,
    {
        let ghost env0 = env_of(*self);
        let ghost start = *self;
        let mut i: usize = 0;
        assert(args@.skip(0) == args@);
        while i < args.len()
            invariant
                i <= args.len(),
                *self == start,
                start == *old(self),
                sound(start),
                env0 == env_of(start),
                args_size(args@.skip(i as int)) <= args_size(args@),
                arg_tys(env0, args@.skip(i as int)) == arg_tys(env0, args@),
                first_arg_ids(env0.resources, args@.skip(i as int)) == first_arg_ids(env0.resources, args@),
                forall|g: nat| #[trigger] rwalk_first(*start.krate, env0, g, rst(start), args@) == rwalk_first(*start.krate, env0, g, rst(start), args@.skip(i as int)),
            decreases args.len() - i,
        {
            proof {
                assert(args@.skip(i as int)[0] == args@[i as int]);
                assert(args@.skip(i as int).drop_first() == args@.skip(i + 1));
            }
            match &args[i] {
                DocArg::Type(t) => {
                    let r = self.resolve_type(t);
                    proof {
                        assert forall|g: nat| g > unvisited(start) implies #[trigger] rwalk_first(*start.krate, env0, g, rst(start), args@) == rst(*self) by {
                            assert(rwalk_first(*start.krate, env0, g, rst(start), args@.skip(i as int)) == rwalk_ty(*start.krate, env0, g, rst(start), *t));
                        }
                    }
                    return r;
                },
                DocArg::Other => {},
            }
            i = i + 1;
        }
        assert(args@.skip(args.len() as int) =~= Seq::<DocArg>::empty());
        self.warn("missing generic type argument".to_string());
        proof {
            assert forall|g: nat| g > unvisited(start) implies #[trigger] rwalk_first(*start.krate, env0, g, rst(start), args@) == rst(*self) by {
                assert(rwalk_first(*start.krate, env0, g, rst(start), args@.skip(args.len() as int)) == rwarn(rst(start), "missing generic type argument"@));
            }
        }
        ResolvedType::WitString
    }

    /// Resolve every type argument, in order.
    fn extract_two_generic_args(&mut self, args: &Vec<DocArg>) -> (r: Vec<ResolvedType>)
        requires
            sound(*old(self)),
        ensures
            sound(*final(self)),
            ress_of(r@) == arg_tys(env_of(*old(self)), args@),
            grows(*old(self), *final(self)),
            args_ids(env_of(*old(self)).resources, args@).subset_of(final(self).visited@.to_set()),
            forall|g: nat| g > unvisited(*old(self)) ==> #[trigger] rwalk_args(*old(self).krate, env_of(*old(self)), g, rst(*old(self)), args@) == rst(*final(self)),
        decreases unvisited(*old(self)), 1nat, args_size(args@) + 1,
    {
        let ghost env0 = env_of(*self);
        let ghost start = *self;
        proof { lemma_grows_refl(*self); }
        let mut out: Vec<ResolvedType> = Vec::new();
        let mut i: usize = 0;
        assert(args@.skip(0) == args@);
        while i < args.len()
            invariant
                i <= args.len(),
                start == *old(self),
                grows(start, *self),
                sound(*self),
                env_of(*self) == env0,
                env0 == env_of(start),
                unvisited(*self) <= unvisited(start),
                args_size(args@.skip(i as int)) <= args_size(args@),
                ress_of(out@) + arg_tys(env0, args@.skip(i as int)) == arg_tys(env0, args@),
                args_ids(env0.resources, args@).subset_of(self.visited@.to_set() + args_ids(env0.resources, args@.skip(i as int))),
                forall|g: nat| g > unvisited(start) ==> #[trigger] rwalk_args(*start.krate, env0, g, rst(start), args@)
                    == rwalk_args(*start.krate, env0, g, rst(*self), args@.skip(i as int)),
            decreases args.len() - i,
        {
            let ghost here = *self;
            proof {
                assert(args@.skip(i as int)[0] == args@[i as int]);
                assert(args@.skip(i as int).drop_first() == args@.skip(i + 1));
            }
            match &args[i] {
                DocArg::Type(t) => {
                    let r = self.resolve_type(t);
                    proof {
                        assert forall|g: nat| g > unvisited(start) implies #[trigger] rwalk_args(*start.krate, env0, g, rst(start), args@)
                            == rwalk_args(*start.krate, env0, g, rst(*self), args@.skip(i + 1)) by {
                            assert(rwalk_args(*start.krate, env0, g, rst(here), args@.skip(i as int))
                                == rwalk_args(*start.krate, env0, g, rwalk_ty(*start.krate, env0, g, rst(here), *t), args@.skip(i + 1)));
                        }
                        lemma_grows_trans(start, here, *self);
                        lemma_grows_unvisited(here, *self);
                        lemma_ress_of_push(out@, r);
                        assert(ress_of(out@.push(r)) + arg_tys(env0, args@.skip(i + 1)) == ress_of(out@) + arg_tys(env0, args@.skip(i as int)));
                    }
                    out.push(r);
                },
                DocArg::Other => {
                    proof {
                        assert forall|g: nat| g > unvisited(start) implies #[trigger] rwalk_args(*start.krate, env0, g, rst(start), args@)
                            == rwalk_args(*start.krate, env0, g, rst(*self), args@.skip(i + 1)) by {
                            assert(rwalk_args(*start.krate, env0, g, rst(here), args@.skip(i as int))
                                == rwalk_args(*start.krate, env0, g, rst(here), args@.skip(i + 1)));
                        }
                    }
                },
            }
            i = i + 1;
        }
        assert(args@.skip(args.len() as int) =~= Seq::<DocArg>::empty());
        proof {
            assert forall|g: nat| g > unvisited(start) implies #[trigger] rwalk_args(*start.krate, env0, g, rst(start), args@) == rst(*self) by {
                assert(rwalk_args(*start.krate, env0, g, rst(*self), args@.skip(args.len() as int)) == rst(*self));
            }
        }
        out
    }

    /// The `Ok` and `Err` types of a `Result`'s arguments.
    fn extract_result_args(&mut self, args: &Vec<DocArg>) -> (r: (Option<Box<ResolvedType>>, Option<Box<ResolvedType>>))
        requires
            sound(*old(self)),
        ensures
            sound(*final(self)),
            opt_res(r.0) == nth_boxed(arg_tys(env_of(*old(self)), args@), 0),
            opt_res(r.1) == nth_boxed(arg_tys(env_of(*old(self)), args@), 1),
            grows(*old(self), *final(self)),
            args_ids(env_of(*old(self)).resources, args@).subset_of(final(self).visited@.to_set()),
            forall|g: nat| g > unvisited(*old(self)) ==> #[trigger] rwalk_args(*old(self).krate, env_of(*old(self)), g, rst(*old(self)), args@) == rst(*final(self)),
        decreases unvisited(*old(self)), 1nat, args_size(args@) + 2,
    {
        let mut types = self.extract_two_generic_args(args);
        proof {
            lemma_ress_of(types@);
            reveal_with_fuel(opt_res, 2);
        }
        if types.len() >= 2 {
            let err = types.remove(1);
            let ok = types.remove(0);
            (Some(Box::new(ok)), Some(Box::new(err)))
        } else if types.len() == 1 {
            let ok = types.remove(0);
            (Some(Box::new(ok)), None)
        } else {
            (None, None)
        }
    }

    /// Discover the user type `id`, referenced as `name`: the first time,
    /// its definition is resolved and recorded after those it needs.
    fn discover_type(&mut self, id: u32, name: &str)
        requires
            sound(*old(self)),
        ensures
            sound(*final(self)),
            grows(*old(self), *final(self)),
            old(self).visited@.contains(id) ==> *final(self) == *old(self),
            final(self).visited@.to_set().contains(id),
            !old(self).visited@.contains(id) ==> match def_model(*old(self).krate, env_of(*old(self)), id, name@) {
                Some(d) => defs_of(final(self).type_defs@).len() > defs_of(old(self).type_defs@).len()
                    && defs_of(final(self).type_defs@).last() == d,
                None => true,
            },
            forall|g: nat| g > unvisited(*old(self)) ==> #[trigger] rwalk_id(*old(self).krate, env_of(*old(self)), g, rst(*old(self)), id, name@) == rst(*final(self)),
        decreases unvisited(*old(self)), 0nat, 0nat,
    {
        proof { lemma_grows_refl(*self); }
        let ghost k0 = *self.krate;
        let ghost e0 = env_of(*self);
        if self.is_visited(id) {
            proof {
                assert forall|g: nat| g > unvisited(*self) implies #[trigger] rwalk_id(k0, e0, g, rst(*self), id, name@) == rst(*self) by {
                    assert(self.visited@.to_set().contains(id));
                }
            }
            return;
        }
        let ghost before = *self;
        self.visited.push(id);
        proof {
            assert(self.visited@ == before.visited@.push(id));
            before.visited@.lemma_push_to_set_commute(id);
            assert(self.visited@.to_set() == before.visited@.to_set().insert(id));
            assert(rst(*self) == (rst(before).0.insert(id), rst(before).1, rst(before).2));
            assert(self.visited@[self.visited@.len() - 1] == id);
            assert(before.visited@.to_set().subset_of(self.visited@.to_set())) by {
                assert forall|x: u32| before.visited@.to_set().contains(x) implies self.visited@.to_set().contains(x) by {
                    let j = choose|j: int| 0 <= j < before.visited@.len() && before.visited@[j] == x;
                    assert(self.visited@[j] == x);
                }
            }
            assert(defs_of(self.type_defs@).is_prefix_of(defs_of(self.type_defs@)));
            assert(strs_of(self.warnings@).is_prefix_of(strs_of(self.warnings@)));
        }
        let after_visit = Ghost(*self);
        let k = self.krate;
        match find_item(k, id) {
            None => {
                proof {
                    lemma_grows_refl(*self);
                    lemma_grows_visit(before, *self, *self, id);
                    assert forall|g: nat| g > unvisited(before) implies #[trigger] rwalk_id(k0, e0, g, rst(before), id, name@) == rst(*self) by {
                        assert(!before.visited@.to_set().contains(id));
                    }
                }
            },
            Some(item) => {
                proof {
                    lemma_found_in_crate(*k, id);
                    lemma_visit_unvisited(before, *self, id);
                }
                let ghost av = after_visit@;
                let ghost res = env_of(av).resources;
                match &item.kind {
                    DocItemKind::Struct(kind) => {
                        self.resolve_struct(name, kind);
                        proof {
                            assert forall|g: nat| g > unvisited(before) implies #[trigger] rwalk_id(k0, e0, g, rst(before), id, name@) == rst(*self) by {
                                assert(!before.visited@.to_set().contains(id));
                                assert(item_in(k.items@, id) == Some(*item));
                                assert((g - 1) as nat > unvisited(av));
                                assert(rwalk_id(k0, e0, g, rst(before), id, name@) == rwalk_struct(k0, e0, (g - 1) as nat, rst(av), name@, *kind));
                            }
                        }
                        proof {
                            assert forall|x: u32| #[trigger] def_uses(*k, env_of(*self).resources, id, x)
                                implies self.visited@.to_set().contains(x) by {
                                assert(item_in(k.items@, id) == Some(*item));
                                assert(struct_uses(*k, res, *kind, x));
                            }
                            let ds = defs_of(self.type_defs@);
                            let m = ds[ds.len() - 1];
                            assert(env_of(*self).resources == res);
                            assert(def_model(*k, Env { resources: res, self_type: env_of(av).self_type }, id, crate::rs_discover::model_name(m)) == Some(m));
                            assert(def_for(*k, res, id, m));
                            assert(id_covered(*k, res, id, ds));
                        }
                    },
                    DocItemKind::Enum(vids) => {
                        self.resolve_enum(name, vids);
                        proof {
                            assert forall|g: nat| g > unvisited(before) implies #[trigger] rwalk_id(k0, e0, g, rst(before), id, name@) == rst(*self) by {
                                assert(!before.visited@.to_set().contains(id));
                                assert(item_in(k.items@, id) == Some(*item));
                                assert((g - 1) as nat > unvisited(av));
                                assert(rwalk_id(k0, e0, g, rst(before), id, name@) == rwalk_enum(k0, e0, (g - 1) as nat, rst(av), name@, vids@));
                            }
                        }
                        proof {
                            assert forall|x: u32| #[trigger] def_uses(*k, env_of(*self).resources, id, x)
                                implies self.visited@.to_set().contains(x) by {
                                assert(item_in(k.items@, id) == Some(*item));
                                assert(enum_uses(*k, res, vids@, x));
                            }
                            let ds = defs_of(self.type_defs@);
                            let m = ds[ds.len() - 1];
                            assert(env_of(*self).resources == res);
                            assert(def_model(*k, Env { resources: res, self_type: env_of(av).self_type }, id, crate::rs_discover::model_name(m)) == Some(m));
                            assert(def_for(*k, res, id, m));
                            assert(id_covered(*k, res, id, ds));
                        }
                    },
                    DocItemKind::TypeAlias(t) => {
                        let _ = self.resolve_type(t);
                        proof {
                            assert forall|g: nat| g > unvisited(before) implies #[trigger] rwalk_id(k0, e0, g, rst(before), id, name@) == rst(*self) by {
                                assert(!before.visited@.to_set().contains(id));
                                assert(item_in(k.items@, id) == Some(*item));
                                assert((g - 1) as nat > unvisited(av));
                                assert(rwalk_id(k0, e0, g, rst(before), id, name@) == rwalk_ty(k0, e0, (g - 1) as nat, rst(av), *t));
                            }
                        }
                    },
                    _ => {
                        proof { lemma_grows_refl(*self); }
                        proof {
                            assert forall|g: nat| g > unvisited(before) implies #[trigger] rwalk_id(k0, e0, g, rst(before), id, name@) == rst(*self) by {
                                assert(!before.visited@.to_set().contains(id));
                                assert(item_in(k.items@, id) == Some(*item));
                            }
                        }
                    },
                }
                proof { lemma_grows_visit(before, av, *self, id); }
            },
        }
    }
}


/// The record a struct shape gives.
pub open spec fn struct_def(k: DocCrate, env: Env, name: Seq<char>, kind: DocStructKind) -> DefModel {
    match kind {
        DocStructKind::Plain(fids) => DefModel::Record(name, plain_fields(k, env, fids@)),
        DocStructKind::Tuple(fids) => DefModel::Record(name, tuple_fields(k, env, fids@, 0)),
        DocStructKind::Unit => DefModel::Record(name, Seq::empty()),
    }
}

/// The definition an enum's variants give.
pub open spec fn enum_def(k: DocCrate, env: Env, name: Seq<char>, vids: Seq<u32>) -> DefModel {
    if all_unit(k, vids) {
        DefModel::Enum(name, unit_names(k, vids))
    } else {
        DefModel::Variant(name, variant_cases(k, env, vids))
    }
}

impl<'a> Resolver<'a> {
    /// Append a definition.
    fn push_def(&mut self, d: ResolvedTypeDef)
        ensures
            grows(*old(self), *final(self)),
            defs_of(final(self).type_defs@) == defs_of(old(self).type_defs@).push(d@),
            final(self).visited@ == old(self).visited@,
            final(self).warnings@ == old(self).warnings@,
    {
        let ghost before = defs_of(self.type_defs@);
        self.type_defs.push(d);
        proof {
            assert(defs_of(self.type_defs@) =~= before.push(d@));
            assert(strs_of(self.warnings@).is_prefix_of(strs_of(self.warnings@)));
        }
    }

    /// Resolve a struct into a record and record it.
    fn resolve_struct(&mut self, name: &str, kind: &DocStructKind)
        requires
            sound(*old(self)),
        ensures
            sound_but(*final(self), 1),
            grows(*old(self), *final(self)),
            defs_of(final(self).type_defs@).len() > defs_of(old(self).type_defs@).len(),
            defs_of(final(self).type_defs@).last() == struct_def(*old(self).krate, env_of(*old(self)), name@, *kind),
            forall|x: u32| #[trigger] struct_uses(*old(self).krate, env_of(*old(self)).resources, *kind, x)
                ==> final(self).visited@.to_set().contains(x),
            forall|g: nat| g > unvisited(*old(self)) ==> #[trigger] rwalk_struct(*old(self).krate, env_of(*old(self)), g, rst(*old(self)), name@, *kind) == rst(*final(self)),
        decreases unvisited(*old(self)), 2nat, 0nat,
    {
        let ghost env0 = env_of(*self);
        let ghost start = *self;
        let k = self.krate;
        proof { lemma_grows_refl(*self); }
        let mut fields: Vec<(String, ResolvedType)> = Vec::new();
        match kind {
            DocStructKind::Plain(fids) => {
                let mut i: usize = 0;
                assert(fids@.skip(0) == fids@);
                while i < fids.len()
                    invariant
                        i <= fids.len(),
                        k == start.krate,
                        start == *old(self),
                grows(start, *self),
                sound(*self),
                        env_of(*self) == env0,
                        env0 == env_of(start),
                        unvisited(*self) <= unvisited(start),
                        fields_of(fields@) + plain_fields(*k, env0, fids@.skip(i as int)) == plain_fields(*k, env0, fids@),
                        forall|j: int, x: u32| 0 <= j < i && #[trigger] field_uses(*k, env0.resources, fids@[j], x)
                            ==> self.visited@.to_set().contains(x),
                        forall|g: nat| g > unvisited(start) ==> #[trigger] rwalk_plain(*k, env0, g, rst(start), fids@)
                            == rwalk_plain(*k, env0, g, rst(*self), fids@.skip(i as int)),
                    decreases fids.len() - i,
                {
                    let ghost here = *self;
                    proof {
                        assert(fids@.skip(i as int)[0] == fids@[i as int]);
                        assert(fids@.skip(i as int).drop_first() == fids@.skip(i + 1));
                    }
                    match find_item(k, fids[i]) {
                        Some(it) => match &it.kind {
                            DocItemKind::StructField(t) => {
                                let fname = match &it.name {
                                    Some(n) => n.clone(),
                                    None => "unknown".to_string(),
                                };
                                let r = self.resolve_type(t);
                                proof {
                                    assert forall|g: nat| g > unvisited(start) implies #[trigger] rwalk_plain(*k, env0, g, rst(here), fids@.skip(i as int))
                                        == rwalk_plain(*k, env0, g, rst(*self), fids@.skip(i + 1)) by {
                                        assert(item_in(k.items@, fids@[i as int]) == Some(*it));
                                        assert(rwalk_ty(*k, env0, g, rst(here), *t) == rst(*self));
                                    }
                                }
                                proof {
                                    assert forall|x: u32| #[trigger] field_uses(*k, env0.resources, fids@[i as int], x)
                                        implies self.visited@.to_set().contains(x) by {
                                        assert(item_in(k.items@, fids@[i as int]) == Some(*it));
                                    }
                                    lemma_grows_trans(start, here, *self);
                                    lemma_grows_unvisited(here, *self);
                                    assert(fields_of(fields@.push((fname, r))) =~= fields_of(fields@).push((fname@, r@)));
                                    assert(fields_of(fields@.push((fname, r))) + plain_fields(*k, env0, fids@.skip(i + 1))
                                        =~= fields_of(fields@) + plain_fields(*k, env0, fids@.skip(i as int)));
                                }
                                fields.push((fname, r));
                            },
                            _ => {},
                        },
                        None => {},
                    }
                    proof {
                        assert forall|g: nat| g > unvisited(start) implies #[trigger] rwalk_plain(*k, env0, g, rst(start), fids@)
                            == rwalk_plain(*k, env0, g, rst(*self), fids@.skip(i + 1)) by {
                            assert(rwalk_plain(*k, env0, g, rst(here), fids@.skip(i as int)) == rwalk_plain(*k, env0, g, rst(*self), fids@.skip(i + 1)));
                        }
                        assert forall|j: int, x: u32| 0 <= j < i + 1 && #[trigger] field_uses(*k, env0.resources, fids@[j], x)
                            implies self.visited@.to_set().contains(x) by {
                            if j < i {
                                assert(here.visited@.to_set().contains(x));
                            }
                        }
                    }
                    i = i + 1;
                }
                assert(fids@.skip(fids.len() as int) =~= Seq::<u32>::empty());
                proof {
                    assert forall|g: nat| g > unvisited(start) implies #[trigger] rwalk_plain(*k, env0, g, rst(start), fids@) == rst(*self) by {
                        assert(rwalk_plain(*k, env0, g, rst(*self), fids@.skip(fids.len() as int)) == rst(*self));
                    }
                }
                assert forall|x: u32| #[trigger] struct_uses(*k, env0.resources, *kind, x)
                    implies self.visited@.to_set().contains(x) by {
                    let j = choose|j: int| 0 <= j < fids@.len() && field_uses(*k, env0.resources, #[trigger] fids@[j], x);
                }
            },
            DocStructKind::Tuple(fids) => {
                let mut i: usize = 0;
                assert(fids@.skip(0) == fids@);
                while i < fids.len()
                    invariant
                        i <= fids.len(),
                        k == start.krate,
                        start == *old(self),
                grows(start, *self),
                sound(*self),
                        env_of(*self) == env0,
                        env0 == env_of(start),
                        unvisited(*self) <= unvisited(start),
                        fields_of(fields@) + tuple_fields(*k, env0, fids@.skip(i as int), i as nat) == tuple_fields(*k, env0, fids@, 0),
                        forall|j: int, x: u32| 0 <= j < i && #[trigger] ofield_uses(*k, env0.resources, fids@[j], x)
                            ==> self.visited@.to_set().contains(x),
                        forall|g: nat| g > unvisited(start) ==> #[trigger] rwalk_tuple(*k, env0, g, rst(start), fids@)
                            == rwalk_tuple(*k, env0, g, rst(*self), fids@.skip(i as int)),
                    decreases fids.len() - i,
                {
                    let ghost here = *self;
                    proof {
                        assert(fids@.skip(i as int)[0] == fids@[i as int]);
                        assert(fids@.skip(i as int).drop_first() == fids@.skip(i + 1));
                    }
                    match fids[i] {
                        Some(fid) => match find_item(k, fid) {
                            Some(it) => match &it.kind {
                                DocItemKind::StructField(t) => {
                                    let fname = tuple_field_name_of(i);
                                    let r = self.resolve_type(t);
                                proof {
                                    assert forall|g: nat| g > unvisited(start) implies #[trigger] rwalk_tuple(*k, env0, g, rst(here), fids@.skip(i as int))
                                        == rwalk_tuple(*k, env0, g, rst(*self), fids@.skip(i + 1)) by {
                                        assert(fids@[i as int] == Some(fid)); assert(item_in(k.items@, fid) == Some(*it));
                                        assert(rwalk_ty(*k, env0, g, rst(here), *t) == rst(*self));
                                    }
                                }
                                    proof {
                                        assert forall|x: u32| #[trigger] ofield_uses(*k, env0.resources, fids@[i as int], x)
                                            implies self.visited@.to_set().contains(x) by {
                                            assert(item_in(k.items@, fid) == Some(*it));
                                        }
                                        lemma_grows_trans(start, here, *self);
                                        lemma_grows_unvisited(here, *self);
                                        assert(fields_of(fields@.push((fname, r))) =~= fields_of(fields@).push((fname@, r@)));
                                        assert(fields_of(fields@.push((fname, r))) + tuple_fields(*k, env0, fids@.skip(i + 1), (i + 1) as nat)
                                            =~= fields_of(fields@) + tuple_fields(*k, env0, fids@.skip(i as int), i as nat));
                                    }
                                    fields.push((fname, r));
                                },
                                _ => {},
                            },
                            None => {},
                        },
                        None => {},
                    }
                    proof {
                        assert forall|g: nat| g > unvisited(start) implies #[trigger] rwalk_tuple(*k, env0, g, rst(start), fids@)
                            == rwalk_tuple(*k, env0, g, rst(*self), fids@.skip(i + 1)) by {
                            assert(rwalk_tuple(*k, env0, g, rst(here), fids@.skip(i as int)) == rwalk_tuple(*k, env0, g, rst(*self), fids@.skip(i + 1)));
                        }
                        assert forall|j: int, x: u32| 0 <= j < i + 1 && #[trigger] ofield_uses(*k, env0.resources, fids@[j], x)
                            implies self.visited@.to_set().contains(x) by {
                            if j < i {
                                assert(here.visited@.to_set().contains(x));
                            }
                        }
                    }
                    i = i + 1;
                }
                assert(fids@.skip(fids.len() as int) =~= Seq::<Option<u32>>::empty());
                proof {
                    assert forall|g: nat| g > unvisited(start) implies #[trigger] rwalk_tuple(*k, env0, g, rst(start), fids@) == rst(*self) by {
                        assert(rwalk_tuple(*k, env0, g, rst(*self), fids@.skip(fids.len() as int)) == rst(*self));
                    }
                }
                assert forall|x: u32| #[trigger] struct_uses(*k, env0.resources, *kind, x)
                    implies self.visited@.to_set().contains(x) by {
                    let j = choose|j: int| 0 <= j < fids@.len() && ofield_uses(*k, env0.resources, #[trigger] fids@[j], x);
                }
            },
            DocStructKind::Unit => {
                assert(fields_of(fields@) =~= Seq::<(Seq<char>, WitTy)>::empty());
            },
        }
        let ghost mid = *self;
        self.push_def(ResolvedTypeDef::Record(ResolvedRecord { name: name.to_string(), fields }));
        proof {
            lemma_grows_trans(start, mid, *self);
            assert forall|g: nat| g > unvisited(start) implies #[trigger] rwalk_struct(*k, env0, g, rst(start), name@, *kind) == rst(*self) by {
                match *kind {
                    DocStructKind::Plain(fids) => assert(rwalk_plain(*k, env0, g, rst(start), fids@) == rst(mid)),
                    DocStructKind::Tuple(fids) => assert(rwalk_tuple(*k, env0, g, rst(start), fids@) == rst(mid)),
                    DocStructKind::Unit => assert(rst(start) == rst(mid)),
                }
            }
        }
    }

    /// Resolve the payload of a variant.
    fn resolve_variant_payload(&mut self, v: &DocVariantKind) -> (r: Option<ResolvedType>)
        requires
            sound(*old(self)),
        ensures
            sound(*final(self)),
            opt_res_ty(r) == variant_payload(*old(self).krate, env_of(*old(self)), *v),
            grows(*old(self), *final(self)),
            forall|x: u32| #[trigger] payload_uses(*old(self).krate, env_of(*old(self)).resources, *v, x)
                ==> final(self).visited@.to_set().contains(x),
            forall|g: nat| g > unvisited(*old(self)) ==> #[trigger] rwalk_payload(*old(self).krate, env_of(*old(self)), g, rst(*old(self)), *v) == rst(*final(self)),
        decreases unvisited(*old(self)), 2nat, 0nat,
    {
        let ghost env0 = env_of(*self);
        let ghost start = *self;
        let k = self.krate;
        proof { lemma_grows_refl(*self); }
        let mut types: Vec<ResolvedType> = Vec::new();
        match v {
            DocVariantKind::Plain => {
                proof { assert forall|g: nat| g > unvisited(start) implies #[trigger] rwalk_payload(*k, env0, g, rst(start), *v) == rst(*self) by {} }
                return None;
            },
            DocVariantKind::Tuple(fids) => {
                let mut i: usize = 0;
                assert(fids@.skip(0) == fids@);
                while i < fids.len()
                    invariant
                        i <= fids.len(),
                        k == start.krate,
                        start == *old(self),
                grows(start, *self),
                sound(*self),
                        env_of(*self) == env0,
                        env0 == env_of(start),
                        unvisited(*self) <= unvisited(start),
                        ress_of(types@) + opt_field_tys(*k, env0, fids@.skip(i as int)) == opt_field_tys(*k, env0, fids@),
                        forall|j: int, x: u32| 0 <= j < i && #[trigger] ofield_uses(*k, env0.resources, fids@[j], x)
                            ==> self.visited@.to_set().contains(x),
                        forall|g: nat| g > unvisited(start) ==> #[trigger] rwalk_tuple(*k, env0, g, rst(start), fids@)
                            == rwalk_tuple(*k, env0, g, rst(*self), fids@.skip(i as int)),
                    decreases fids.len() - i,
                {
                    let ghost here = *self;
                    proof {
                        assert(fids@.skip(i as int)[0] == fids@[i as int]);
                        assert(fids@.skip(i as int).drop_first() == fids@.skip(i + 1));
                    }
                    match fids[i] {
                        Some(fid) => match find_item(k, fid) {
                            Some(it) => match &it.kind {
                                DocItemKind::StructField(t) => {
                                    let r = self.resolve_type(t);
                                proof {
                                    assert forall|g: nat| g > unvisited(start) implies #[trigger] rwalk_tuple(*k, env0, g, rst(here), fids@.skip(i as int))
                                        == rwalk_tuple(*k, env0, g, rst(*self), fids@.skip(i + 1)) by {
                                        assert(fids@[i as int] == Some(fid)); assert(item_in(k.items@, fid) == Some(*it));
                                        assert(rwalk_ty(*k, env0, g, rst(here), *t) == rst(*self));
                                    }
                                }
                                    proof {
                                        assert forall|x: u32| #[trigger] ofield_uses(*k, env0.resources, fids@[i as int], x)
                                            implies self.visited@.to_set().contains(x) by {
                                            assert(item_in(k.items@, fid) == Some(*it));
                                        }
                                        lemma_grows_trans(start, here, *self);
                                        lemma_grows_unvisited(here, *self);
                                        lemma_ress_of_push(types@, r);
                                        assert(ress_of(types@.push(r)) + opt_field_tys(*k, env0, fids@.skip(i + 1))
                                            =~= ress_of(types@) + opt_field_tys(*k, env0, fids@.skip(i as int)));
                                    }
                                    types.push(r);
                                },
                                _ => {},
                            },
                            None => {},
                        },
                        None => {},
                    }
                    proof {
                        assert forall|g: nat| g > unvisited(start) implies #[trigger] rwalk_tuple(*k, env0, g, rst(start), fids@)
                            == rwalk_tuple(*k, env0, g, rst(*self), fids@.skip(i + 1)) by {
                            assert(rwalk_tuple(*k, env0, g, rst(here), fids@.skip(i as int)) == rwalk_tuple(*k, env0, g, rst(*self), fids@.skip(i + 1)));
                        }
                        assert forall|j: int, x: u32| 0 <= j < i + 1 && #[trigger] ofield_uses(*k, env0.resources, fids@[j], x)
                            implies self.visited@.to_set().contains(x) by {
                            if j < i {
                                assert(here.visited@.to_set().contains(x));
                            }
                        }
                    }
                    i = i + 1;
                }
                assert(fids@.skip(fids.len() as int) =~= Seq::<Option<u32>>::empty());
                proof {
                    assert forall|g: nat| g > unvisited(start) implies #[trigger] rwalk_tuple(*k, env0, g, rst(start), fids@) == rst(*self) by {
                        assert(rwalk_tuple(*k, env0, g, rst(*self), fids@.skip(fids.len() as int)) == rst(*self));
                    }
                }
                assert forall|x: u32| #[trigger] payload_uses(*k, env0.resources, *v, x)
                    implies self.visited@.to_set().contains(x) by {
                    let j = choose|j: int| 0 <= j < fids@.len() && ofield_uses(*k, env0.resources, #[trigger] fids@[j], x);
                }
            },
            DocVariantKind::Struct(fids) => {
                let mut i: usize = 0;
                assert(fids@.skip(0) == fids@);
                while i < fids.len()
                    invariant
                        i <= fids.len(),
                        k == start.krate,
                        start == *old(self),
                grows(start, *self),
                sound(*self),
                        env_of(*self) == env0,
                        env0 == env_of(start),
                        unvisited(*self) <= unvisited(start),
                        ress_of(types@) + field_tys(*k, env0, fids@.skip(i as int)) == field_tys(*k, env0, fids@),
                        forall|j: int, x: u32| 0 <= j < i && #[trigger] field_uses(*k, env0.resources, fids@[j], x)
                            ==> self.visited@.to_set().contains(x),
                        forall|g: nat| g > unvisited(start) ==> #[trigger] rwalk_plain(*k, env0, g, rst(start), fids@)
                            == rwalk_plain(*k, env0, g, rst(*self), fids@.skip(i as int)),
                    decreases fids.len() - i,
                {
                    let ghost here = *self;
                    proof {
                        assert(fids@.skip(i as int)[0] == fids@[i as int]);
                        assert(fids@.skip(i as int).drop_first() == fids@.skip(i + 1));
                    }
                    match find_item(k, fids[i]) {
                        Some(it) => match &it.kind {
                            DocItemKind::StructField(t) => {
                                let r = self.resolve_type(t);
                                proof {
                                    assert forall|g: nat| g > unvisited(start) implies #[trigger] rwalk_plain(*k, env0, g, rst(here), fids@.skip(i as int))
                                        == rwalk_plain(*k, env0, g, rst(*self), fids@.skip(i + 1)) by {
                                        assert(item_in(k.items@, fids@[i as int]) == Some(*it));
                                        assert(rwalk_ty(*k, env0, g, rst(here), *t) == rst(*self));
                                    }
                                }
                                proof {
                                    assert forall|x: u32| #[trigger] field_uses(*k, env0.resources, fids@[i as int], x)
                                        implies self.visited@.to_set().contains(x) by {
                                        assert(item_in(k.items@, fids@[i as int]) == Some(*it));
                                    }
                                    lemma_grows_trans(start, here, *self);
                                    lemma_grows_unvisited(here, *self);
                                    lemma_ress_of_push(types@, r);
                                    assert(ress_of(types@.push(r)) + field_tys(*k, env0, fids@.skip(i + 1))
                                        =~= ress_of(types@) + field_tys(*k, env0, fids@.skip(i as int)));
                                }
                                types.push(r);
                            },
                            _ => {},
                        },
                        None => {},
                    }
                    proof {
                        assert forall|g: nat| g > unvisited(start) implies #[trigger] rwalk_plain(*k, env0, g, rst(start), fids@)
                            == rwalk_plain(*k, env0, g, rst(*self), fids@.skip(i + 1)) by {
                            assert(rwalk_plain(*k, env0, g, rst(here), fids@.skip(i as int)) == rwalk_plain(*k, env0, g, rst(*self), fids@.skip(i + 1)));
                        }
                        assert forall|j: int, x: u32| 0 <= j < i + 1 && #[trigger] field_uses(*k, env0.resources, fids@[j], x)
                            implies self.visited@.to_set().contains(x) by {
                            if j < i {
                                assert(here.visited@.to_set().contains(x));
                            }
                        }
                    }
                    i = i + 1;
                }
                assert(fids@.skip(fids.len() as int) =~= Seq::<u32>::empty());
                proof {
                    assert forall|g: nat| g > unvisited(start) implies #[trigger] rwalk_plain(*k, env0, g, rst(start), fids@) == rst(*self) by {
                        assert(rwalk_plain(*k, env0, g, rst(*self), fids@.skip(fids.len() as int)) == rst(*self));
                    }
                }
                assert forall|x: u32| #[trigger] payload_uses(*k, env0.resources, *v, x)
                    implies self.visited@.to_set().contains(x) by {
                    let j = choose|j: int| 0 <= j < fids@.len() && field_uses(*k, env0.resources, #[trigger] fids@[j], x);
                }
            },
        }
        proof {
            lemma_ress_of(types@);
            reveal_with_fuel(res_of, 2);
            assert forall|g: nat| g > unvisited(start) implies #[trigger] rwalk_payload(*k, env0, g, rst(start), *v) == rst(*self) by {
                match *v {
                    DocVariantKind::Tuple(fids) => assert(rwalk_tuple(*k, env0, g, rst(start), fids@) == rst(*self)),
                    DocVariantKind::Struct(fids) => assert(rwalk_plain(*k, env0, g, rst(start), fids@) == rst(*self)),
                    DocVariantKind::Plain => {},
                }
            }
        }
        if types.len() == 0 {
            None
        } else if types.len() == 1 {
            Some(types.remove(0))
        } else {
            Some(ResolvedType::Tuple(types))
        }
    }

    /// Whether every variant is found and has no fields.
    fn all_unit_variants(&self, vids: &Vec<u32>) -> (b: bool)
        ensures
            b == all_unit(*self.krate, vids@),
    {
        let k = self.krate;
        let mut i: usize = 0;
        while i < vids.len()
            invariant
                i <= vids.len(),
                k == self.krate,
                forall|j: int| 0 <= j < i ==> (#[trigger] item_in(k.items@, vids@[j]) matches Some(it)
                    && it.kind matches DocItemKind::Variant(DocVariantKind::Plain)),
            decreases vids.len() - i,
        {
            let ok = match find_item(k, vids[i]) {
                Some(it) => match &it.kind {
                    DocItemKind::Variant(DocVariantKind::Plain) => true,
                    _ => false,
                },
                None => false,
            };
            if !ok {
                assert(!(item_in(k.items@, vids@[i as int]) matches Some(it)
                    && it.kind matches DocItemKind::Variant(DocVariantKind::Plain)));
                return false;
            }
            i = i + 1;
        }
        true
    }

    /// Resolve an enum into an enum or a variant and record it.
    fn resolve_enum(&mut self, name: &str, vids: &Vec<u32>)
        requires
            sound(*old(self)),
        ensures
            sound_but(*final(self), 1),
            grows(*old(self), *final(self)),
            defs_of(final(self).type_defs@).len() > defs_of(old(self).type_defs@).len(),
            defs_of(final(self).type_defs@).last() == enum_def(*old(self).krate, env_of(*old(self)), name@, vids@),
            forall|x: u32| #[trigger] enum_uses(*old(self).krate, env_of(*old(self)).resources, vids@, x)
                ==> final(self).visited@.to_set().contains(x),
            forall|g: nat| g > unvisited(*old(self)) ==> #[trigger] rwalk_enum(*old(self).krate, env_of(*old(self)), g, rst(*old(self)), name@, vids@) == rst(*final(self)),
        decreases unvisited(*old(self)), 3nat, 0nat,
    {
        let ghost env0 = env_of(*self);
        let ghost start = *self;
        let k = self.krate;
        proof { lemma_grows_refl(*self); }
        if self.all_unit_variants(vids) {
            let mut cases: Vec<String> = Vec::new();
            let mut i: usize = 0;
            assert(vids@.skip(0) == vids@);
            while i < vids.len()
                invariant
                    i <= vids.len(),
                    k == start.krate,
                    strs_of(cases@) + unit_names(*k, vids@.skip(i as int)) == unit_names(*k, vids@),
                decreases vids.len() - i,
            {
                proof {
                    assert(vids@.skip(i as int)[0] == vids@[i as int]);
                    assert(vids@.skip(i as int).drop_first() == vids@.skip(i + 1));
                }
                match find_item(k, vids[i]) {
                    Some(it) => match &it.name {
                        Some(n) => {
                            let cname = n.clone();
                            proof {
                                assert(strs_of(cases@.push(cname)) =~= strs_of(cases@).push(n@));
                            }
                            cases.push(cname);
                        },
                        None => {},
                    },
                    None => {},
                }
                i = i + 1;
            }
            assert(vids@.skip(vids.len() as int) =~= Seq::<u32>::empty());
            assert forall|x: u32| #[trigger] enum_uses(*k, env0.resources, vids@, x) implies false by {
                let j = choose|j: int| 0 <= j < vids@.len() && variant_uses(*k, env0.resources, #[trigger] vids@[j], x);
                assert(item_in(k.items@, vids@[j]) matches Some(it) && it.kind matches DocItemKind::Variant(DocVariantKind::Plain));
            }
            let ghost mid = *self;
            self.push_def(ResolvedTypeDef::Enum(ResolvedEnum { name: name.to_string(), cases }));
            proof {
                assert(rst(mid) == rst(start));
                assert forall|g: nat| g > unvisited(start) implies #[trigger] rwalk_enum(*k, env0, g, rst(start), name@, vids@) == rst(*self) by {}
            }
        } else {
            let mut cases: Vec<(String, Option<ResolvedType>)> = Vec::new();
            let mut i: usize = 0;
            assert(vids@.skip(0) == vids@);
            while i < vids.len()
                invariant
                    i <= vids.len(),
                    k == start.krate,
                    start == *old(self),
                grows(start, *self),
                sound(*self),
                    env_of(*self) == env0,
                    env0 == env_of(start),
                    unvisited(*self) <= unvisited(start),
                    vcases_of(cases@) + variant_cases(*k, env0, vids@.skip(i as int)) == variant_cases(*k, env0, vids@),
                    forall|j: int, x: u32| 0 <= j < i && #[trigger] variant_uses(*k, env0.resources, vids@[j], x)
                        ==> self.visited@.to_set().contains(x),
                    forall|g: nat| g > unvisited(start) ==> #[trigger] rwalk_variants(*k, env0, g, rst(start), vids@)
                        == rwalk_variants(*k, env0, g, rst(*self), vids@.skip(i as int)),
                decreases vids.len() - i,
            {
                let ghost here = *self;
                proof {
                    assert(vids@.skip(i as int)[0] == vids@[i as int]);
                    assert(vids@.skip(i as int).drop_first() == vids@.skip(i + 1));
                }
                match find_item(k, vids[i]) {
                    Some(it) => match &it.name {
                        Some(n) => match &it.kind {
                            DocItemKind::Variant(v) => {
                                let payload = self.resolve_variant_payload(v);
                                proof {
                                    assert forall|g: nat| g > unvisited(start) implies #[trigger] rwalk_variants(*k, env0, g, rst(here), vids@.skip(i as int))
                                        == rwalk_variants(*k, env0, g, rst(*self), vids@.skip(i + 1)) by {
                                        assert(item_in(k.items@, vids@[i as int]) == Some(*it));
                                        assert(rwalk_payload(*k, env0, g, rst(here), *v) == rst(*self));
                                    }
                                }
                                let cname = n.clone();
                                proof {
                                    assert forall|x: u32| #[trigger] variant_uses(*k, env0.resources, vids@[i as int], x)
                                        implies self.visited@.to_set().contains(x) by {
                                        assert(item_in(k.items@, vids@[i as int]) == Some(*it));
                                    }
                                    lemma_grows_trans(start, here, *self);
                                    lemma_grows_unvisited(here, *self);
                                    assert(vcases_of(cases@.push((cname, payload))) =~= vcases_of(cases@).push((cname@, opt_res_ty(payload))));
                                    assert(vcases_of(cases@.push((cname, payload))) + variant_cases(*k, env0, vids@.skip(i + 1))
                                        =~= vcases_of(cases@) + variant_cases(*k, env0, vids@.skip(i as int)));
                                }
                                cases.push((cname, payload));
                            },
                            _ => {},
                        },
                        None => {},
                    },
                    None => {},
                }
                proof {
                    assert forall|g: nat| g > unvisited(start) implies #[trigger] rwalk_variants(*k, env0, g, rst(start), vids@)
                        == rwalk_variants(*k, env0, g, rst(*self), vids@.skip(i + 1)) by {
                        assert(rwalk_variants(*k, env0, g, rst(here), vids@.skip(i as int)) == rwalk_variants(*k, env0, g, rst(*self), vids@.skip(i + 1)));
                    }
                    assert forall|j: int, x: u32| 0 <= j < i + 1 && #[trigger] variant_uses(*k, env0.resources, vids@[j], x)
                        implies self.visited@.to_set().contains(x) by {
                        if j < i {
                            assert(here.visited@.to_set().contains(x));
                        }
                    }
                }
                i = i + 1;
            }
            assert(vids@.skip(vids.len() as int) =~= Seq::<u32>::empty());
            let ghost mid = *self;
            self.push_def(ResolvedTypeDef::Variant(ResolvedVariant { name: name.to_string(), cases }));
            proof {
                lemma_grows_trans(start, mid, *self);
                assert forall|g: nat| g > unvisited(start) implies #[trigger] rwalk_enum(*k, env0, g, rst(start), name@, vids@) == rst(*self) by {
                    assert(rwalk_variants(*k, env0, g, rst(mid), vids@.skip(vids.len() as int)) == rst(mid));
                    assert(rwalk_variants(*k, env0, g, rst(start), vids@) == rst(mid));
                }
            }
        }
    }
}


// ---------------------------------------------------------------------------
// Functions and impl blocks
// ---------------------------------------------------------------------------

/// Whether a signature has a `self` input.
pub open spec fn has_self(inputs: Seq<(String, DocType)>) -> bool {
    exists|i: int| 0 <= i < inputs.len() && (#[trigger] inputs[i]).0@ == "self"@
}

/// Whether a signature takes `&mut self`.
pub open spec fn has_mut_self(inputs: Seq<(String, DocType)>) -> bool {
    exists|i: int| 0 <= i < inputs.len() && (#[trigger] inputs[i]).0@ == "self"@
        && inputs[i].1 matches DocType::BorrowedRef { is_mutable: true, .. }
}

/// The parameters of a signature other than `self`, with their types.
pub open spec fn params_spec(env: Env, inputs: Seq<(String, DocType)>) -> Seq<(Seq<char>, WitTy)>
    decreases inputs.len(),
{
    if inputs.len() == 0 {
        Seq::empty()
    } else {
        let rest = params_spec(env, inputs.drop_first());
        if inputs[0].0@ == "self"@ { rest } else { seq![(inputs[0].0@, rty_spec(env, inputs[0].1))] + rest }
    }
}

/// The resolved function of a signature.
pub open spec fn fn_model(env: Env, name: Seq<char>, sig: DocSig, is_async: bool) -> FnModel {
    FnModel {
        name,
        params: params_spec(env, sig.inputs@),
        return_type: match sig.output {
            Some(t) => Some(rty_spec(env, t)),
            None => None,
        },
        is_async,
        is_mut_self: has_mut_self(sig.inputs@),
    }
}

/// Whether a method is the constructor: named `new`, with a return type.
pub open spec fn is_constructor_spec(name: Seq<char>, sig: DocSig) -> bool {
    name == "new"@ && sig.output is Some
}

/// The constructor, methods and static functions found in impl blocks.
pub struct ImplParts {
    pub ctor: Option<FnModel>,
    pub methods: Seq<FnModel>,
    pub statics: Seq<FnModel>,
}

/// No parts.
pub open spec fn no_parts() -> ImplParts {
    ImplParts { ctor: None, methods: Seq::empty(), statics: Seq::empty() }
}

/// The parts of `a` followed by those of `b`: a later constructor replaces
/// an earlier one.
pub open spec fn combine(a: ImplParts, b: ImplParts) -> ImplParts {
    ImplParts {
        ctor: if b.ctor is Some { b.ctor } else { a.ctor },
        methods: a.methods + b.methods,
        statics: a.statics + b.statics,
    }
}

pub(crate) proof fn lemma_combine_assoc(a: ImplParts, b: ImplParts, c: ImplParts)
    ensures
        combine(combine(a, b), c) == combine(a, combine(b, c)),
{
    assert(combine(combine(a, b), c).methods =~= combine(a, combine(b, c)).methods);
    assert(combine(combine(a, b), c).statics =~= combine(a, combine(b, c)).statics);
}

pub(crate) proof fn lemma_combine_empty(a: ImplParts)
    ensures
        combine(a, no_parts()) == a,
        combine(no_parts(), a) == a,
{
    assert(combine(a, no_parts()).methods =~= a.methods);
    assert(combine(a, no_parts()).statics =~= a.statics);
    assert(combine(no_parts(), a).methods =~= a.methods);
    assert(combine(no_parts(), a).statics =~= a.statics);
}

/// The part one impl item contributes.
pub open spec fn method_part(k: DocCrate, env: Env, mid: u32) -> ImplParts {
    match item_in(k.items@, mid) {
        Some(mi) => match mi.kind {
            DocItemKind::Function { sig, is_async } => {
                let name = field_name(mi.name);
                let f = fn_model(env, name, sig, is_async);
                if is_constructor_spec(name, sig) {
                    ImplParts { ctor: Some(f), methods: Seq::empty(), statics: Seq::empty() }
                } else if has_self(sig.inputs@) {
                    ImplParts { ctor: None, methods: seq![f], statics: Seq::empty() }
                } else {
                    ImplParts { ctor: None, methods: Seq::empty(), statics: seq![f] }
                }
            },
            _ => no_parts(),
        },
        None => no_parts(),
    }
}

/// The parts the items of one impl block contribute.
pub open spec fn methods_part(k: DocCrate, env: Env, mids: Seq<u32>) -> ImplParts
    decreases mids.len(),
{
    if mids.len() == 0 {
        no_parts()
    } else {
        combine(method_part(k, env, mids[0]), methods_part(k, env, mids.drop_first()))
    }
}

/// Whether an impl block is for the type with simple name `name`.
pub open spec fn impl_for(for_type: DocType, name: Seq<char>) -> bool {
    match for_type {
        DocType::ResolvedPath { path, id, args } => simple_name(path@) == name,
        _ => false,
    }
}

/// The parts an index item contributes to the resource `name`: those of an
/// inherent impl block for it.
pub open spec fn block_part(k: DocCrate, env: Env, name: Seq<char>, it: DocItem) -> ImplParts {
    match it.kind {
        DocItemKind::Impl { is_trait, for_type, items } => if !is_trait && impl_for(for_type, name) {
            methods_part(k, env, items@)
        } else {
            no_parts()
        },
        _ => no_parts(),
    }
}

/// The parts all inherent impl blocks for `name` contribute, in index order.
pub open spec fn blocks_part(k: DocCrate, env: Env, name: Seq<char>, items: Seq<DocItem>) -> ImplParts
    decreases items.len(),
{
    if items.len() == 0 {
        no_parts()
    } else {
        combine(block_part(k, env, name, items[0]), blocks_part(k, env, name, items.drop_first()))
    }
}

/// Whether resolving the signature of the function item `mid` discovers `id`.
pub open spec fn method_uses(k: DocCrate, env: Env, mid: u32, id: u32) -> bool {
    match item_in(k.items@, mid) {
        Some(mi) => match mi.kind {
            DocItemKind::Function { sig, is_async } => sig_uses(env, sig, id),
            _ => false,
        },
        None => false,
    }
}

/// Whether `it` is an inherent impl block for `name` one of whose
/// functions' signatures discovers `id`.
pub open spec fn block_uses(k: DocCrate, env: Env, name: Seq<char>, it: DocItem, id: u32) -> bool {
    match it.kind {
        DocItemKind::Impl { is_trait, for_type, items } => !is_trait && impl_for(for_type, name)
            && exists|j: int| 0 <= j < items@.len() && method_uses(k, env, #[trigger] items@[j], id),
        _ => false,
    }
}

/// Whether resolving the resource `name` discovers `id`.
pub open spec fn impl_uses(k: DocCrate, env: Env, name: Seq<char>, id: u32) -> bool {
    exists|i: int| 0 <= i < k.items@.len() && block_uses(k, impl_env(env, name), name, #[trigger] k.items@[i], id)
}

/// The environment inside the impl block of `name`.
pub open spec fn impl_env(env: Env, name: Seq<char>) -> Env {
    Env { resources: env.resources, self_type: Some(name) }
}

/// The resolved resource `name`.
pub open spec fn impl_model(k: DocCrate, env: Env, name: Seq<char>) -> ImplModel {
    let p = blocks_part(k, impl_env(env, name), name, k.items@);
    ImplModel { impl_name: name, constructor: p.ctor, methods: p.methods, static_funcs: p.statics }
}


/// Whether a signature has a `self` input.
fn sig_has_self(sig: &DocSig) -> (b: bool)
    ensures
        b == has_self(sig.inputs@),
{
    let mut i: usize = 0;
    while i < sig.inputs.len()
        invariant
            i <= sig.inputs.len(),
            forall|j: int| 0 <= j < i ==> (#[trigger] sig.inputs@[j]).0@ != "self"@,
        decreases sig.inputs.len() - i,
    {
        if str_eq(sig.inputs[i].0.as_str(), "self") {
            assert(sig.inputs@[i as int].0@ == "self"@);
            return true;
        }
        i = i + 1;
    }
    false
}

/// Whether a signature takes `&mut self`.
fn sig_has_mut_self(sig: &DocSig) -> (b: bool)
    ensures
        b == has_mut_self(sig.inputs@),
{
    let mut i: usize = 0;
    while i < sig.inputs.len()
        invariant
            i <= sig.inputs.len(),
            forall|j: int| 0 <= j < i ==> !((#[trigger] sig.inputs@[j]).0@ == "self"@
                && sig.inputs@[j].1 matches DocType::BorrowedRef { is_mutable: true, .. }),
        decreases sig.inputs.len() - i,
    {
        let mutable_ref = match &sig.inputs[i].1 {
            DocType::BorrowedRef { is_mutable, inner: _ } => *is_mutable,
            _ => false,
        };
        if str_eq(sig.inputs[i].0.as_str(), "self") && mutable_ref {
            assert(sig.inputs@[i as int].0@ == "self"@);
            return true;
        }
        i = i + 1;
    }
    false
}

/// Whether a method is the constructor: named `new`, with a return type.
pub fn is_constructor(name: &str, sig: &DocSig) -> (b: bool)
    ensures
        b == is_constructor_spec(name@, *sig),
{
    str_eq(name, "new") && sig.output.is_some()
}

/// Whether an impl block is for the type with simple name `name`.
pub fn impl_matches_type(for_type: &DocType, name: &str) -> (b: bool)
    ensures
        b == impl_for(*for_type, name@),
{
    match for_type {
        DocType::ResolvedPath { path, id: _, args: _ } => {
            let simple = last_segment(path.as_str());
            str_eq(simple.as_str(), name)
        },
        _ => false,
    }
}

/// The parts gathered so far.
spec fn parts_of(ctor: Option<ResolvedFunction>, methods: Seq<ResolvedFunction>, statics: Seq<ResolvedFunction>) -> ImplParts {
    ImplParts {
        ctor: match ctor {
            Some(f) => Some(f@),
            None => None,
        },
        methods: fns_of(methods),
        statics: fns_of(statics),
    }
}

impl<'a> Resolver<'a> {
    /// Resolve a function signature.
    fn resolve_function(&mut self, name: &str, sig: &DocSig, is_async: bool) -> (r: ResolvedFunction)
        requires
            sound(*old(self)),
        ensures
            sound(*final(self)),
            r@ == fn_model(env_of(*old(self)), name@, *sig, is_async),
            grows(*old(self), *final(self)),
            forall|id: u32| #[trigger] sig_uses(env_of(*old(self)), *sig, id) ==> final(self).visited@.to_set().contains(id),
            forall|g: nat| g > unvisited(*old(self)) ==> #[trigger] rwalk_sig(*old(self).krate, env_of(*old(self)), g, rst(*old(self)), *sig) == rst(*final(self)),
    {
        let ghost env0 = env_of(*self);
        let ghost start = *self;
        proof { lemma_grows_refl(*self); }
        let is_mut_self = sig_has_mut_self(sig);
        let mut params: Vec<(String, ResolvedType)> = Vec::new();
        let mut i: usize = 0;
        assert(sig.inputs@.skip(0) == sig.inputs@);
        while i < sig.inputs.len()
            invariant
                i <= sig.inputs.len(),
                start == *old(self),
                grows(start, *self),
                sound(*self),
                env_of(*self) == env0,
                env0 == env_of(start),
                fields_of(params@) + params_spec(env0, sig.inputs@.skip(i as int)) == params_spec(env0, sig.inputs@),
                forall|j: int| 0 <= j < i && (#[trigger] sig.inputs@[j]).0@ != "self"@
                    ==> used_ids(env0.resources, sig.inputs@[j].1).subset_of(self.visited@.to_set()),
                forall|g: nat| g > unvisited(start) ==> #[trigger] rwalk_params(*start.krate, env0, g, rst(start), sig.inputs@)
                    == rwalk_params(*start.krate, env0, g, rst(*self), sig.inputs@.skip(i as int)),
            decreases sig.inputs.len() - i,
        {
            let ghost here = *self;
            proof {
                assert(sig.inputs@.skip(i as int)[0] == sig.inputs@[i as int]);
                assert(sig.inputs@.skip(i as int).drop_first() == sig.inputs@.skip(i + 1));
                lemma_grows_unvisited(start, here);
            }
            if !str_eq(sig.inputs[i].0.as_str(), "self") {
                let pname = sig.inputs[i].0.clone();
                let r = self.resolve_type(&sig.inputs[i].1);
                proof {
                    assert forall|g: nat| g > unvisited(start) implies #[trigger] rwalk_params(*start.krate, env0, g, rst(start), sig.inputs@)
                        == rwalk_params(*start.krate, env0, g, rst(*self), sig.inputs@.skip(i + 1)) by {
                        assert(rwalk_ty(*start.krate, env0, g, rst(here), sig.inputs@[i as int].1) == rst(*self));
                        assert(rwalk_params(*start.krate, env0, g, rst(here), sig.inputs@.skip(i as int))
                            == rwalk_params(*start.krate, env0, g, rwalk_ty(*start.krate, env0, g, rst(here), sig.inputs@[i as int].1), sig.inputs@.skip(i + 1)));
                    }
                    lemma_grows_trans(start, here, *self);
                    assert forall|j: int| 0 <= j < i + 1 && (#[trigger] sig.inputs@[j]).0@ != "self"@
                        implies used_ids(env0.resources, sig.inputs@[j].1).subset_of(self.visited@.to_set()) by {
                        if j < i {
                            assert(used_ids(env0.resources, sig.inputs@[j].1).subset_of(here.visited@.to_set()));
                        }
                    }
                    assert(fields_of(params@.push((pname, r))) =~= fields_of(params@).push((pname@, r@)));
                    assert(fields_of(params@.push((pname, r))) + params_spec(env0, sig.inputs@.skip(i + 1))
                        =~= fields_of(params@) + params_spec(env0, sig.inputs@.skip(i as int)));
                }
                params.push((pname, r));
            } else {
                proof {
                    assert forall|g: nat| g > unvisited(start) implies #[trigger] rwalk_params(*start.krate, env0, g, rst(start), sig.inputs@)
                        == rwalk_params(*start.krate, env0, g, rst(*self), sig.inputs@.skip(i + 1)) by {
                        assert(rwalk_params(*start.krate, env0, g, rst(here), sig.inputs@.skip(i as int))
                            == rwalk_params(*start.krate, env0, g, rst(here), sig.inputs@.skip(i + 1)));
                    }
                }
            }
            i = i + 1;
        }
        assert(sig.inputs@.skip(sig.inputs.len() as int) =~= Seq::<(String, DocType)>::empty());
        let ghost mid = *self;
        proof {
            lemma_grows_unvisited(start, mid);
            assert forall|g: nat| g > unvisited(start) implies #[trigger] rwalk_params(*start.krate, env0, g, rst(start), sig.inputs@) == rst(mid) by {
                assert(rwalk_params(*start.krate, env0, g, rst(mid), sig.inputs@.skip(sig.inputs.len() as int)) == rst(mid));
            }
        }
        let return_type = match &sig.output {
            Some(t) => Some(self.resolve_type(t)),
            None => None,
        };
        proof {
            assert forall|g: nat| g > unvisited(start) implies #[trigger] rwalk_sig(*start.krate, env0, g, rst(start), *sig) == rst(*self) by {
                assert(rwalk_params(*start.krate, env0, g, rst(start), sig.inputs@) == rst(mid));
            }
            if sig.output is Some {
                lemma_grows_trans(start, mid, *self);
            } else {
                lemma_grows_refl(*self);
            }
            assert forall|id: u32| #[trigger] sig_uses(env0, *sig, id) implies self.visited@.to_set().contains(id) by {
                if !(sig.output matches Some(t) && used_ids(env0.resources, t).contains(id)) {
                    let j = choose|j: int| 0 <= j < sig.inputs@.len() && (#[trigger] sig.inputs@[j]).0@ != "self"@
                        && used_ids(env0.resources, sig.inputs@[j].1).contains(id);
                    assert(used_ids(env0.resources, sig.inputs@[j].1).subset_of(mid.visited@.to_set()));
                }
            }
        }
        ResolvedFunction { name: name.to_string(), params, return_type, is_async, is_mut_self }
    }

    /// Resolve the inherent impl blocks of the resource `name` into one
    /// resource: its constructor, methods and static functions.
    fn resolve_impl_block(&mut self, name: &str)
        requires
            sound(*old(self)),
        ensures
            sound(*final(self)),
            extends(*old(self), *final(self)),
            final(self).functions@ == old(self).functions@,
            impls_of(final(self).impls@) == impls_of(old(self).impls@).push(
                impl_model(*old(self).krate, env_of(*old(self)), name@),
            ),
            forall|id: u32| #[trigger] impl_uses(*old(self).krate, env_of(*old(self)), name@, id)
                ==> final(self).visited@.to_set().contains(id),
            forall|g: nat| g > unvisited(*old(self)) ==> #[trigger] rwalk_impl(*old(self).krate, env_of(*old(self)), g, rst(*old(self)), name@) == rst(*final(self)),
    {
        let ghost outer = *self;
        let ghost env_i = impl_env(env_of(*self), name@);
        let prev_self_type = self.self_type.take();
        self.self_type = Some(name.to_string());
        let ghost start = *self;
        assert(env_of(start) == env_i);
        proof { lemma_grows_refl(*self); }
        let k = self.krate;
        let mut ctor: Option<ResolvedFunction> = None;
        let mut methods: Vec<ResolvedFunction> = Vec::new();
        let mut statics: Vec<ResolvedFunction> = Vec::new();
        proof {
            assert(parts_of(ctor, methods@, statics@) == no_parts()) by {
                assert(fns_of(methods@) =~= Seq::<FnModel>::empty());
                assert(fns_of(statics@) =~= Seq::<FnModel>::empty());
            }
            lemma_combine_empty(blocks_part(*k, env_i, name@, k.items@));
        }
        let mut i: usize = 0;
        assert(k.items@.skip(0) == k.items@);
        while i < k.items.len()
            invariant
                i <= k.items.len(),
                k == start.krate,
                grows(start, *self),
                sound(*self),
                env_of(*self) == env_i,
                combine(parts_of(ctor, methods@, statics@), blocks_part(*k, env_i, name@, k.items@.skip(i as int)))
                    == blocks_part(*k, env_i, name@, k.items@),
                forall|ii: int, id: u32| 0 <= ii < i && #[trigger] block_uses(*k, env_i, name@, k.items@[ii], id)
                    ==> self.visited@.to_set().contains(id),
                forall|g: nat| g > unvisited(start) ==> #[trigger] rwalk_blocks(*k, env_i, g, rst(start), name@, k.items@)
                    == rwalk_blocks(*k, env_i, g, rst(*self), name@, k.items@.skip(i as int)),
            decreases k.items.len() - i,
        {
            let ghost acc0 = parts_of(ctor, methods@, statics@);
            let ghost sb = *self;
            proof {
                lemma_grows_unvisited(start, sb);
                assert forall|g: nat| g > unvisited(start) implies #[trigger] rwalk_blocks(*k, env_i, g, rst(start), name@, k.items@)
                    == rwalk_blocks(*k, env_i, g, rwalk_block(*k, env_i, g, rst(sb), name@, k.items@[i as int]), name@, k.items@.skip(i + 1)) by {
                    assert(k.items@.skip(i as int)[0] == k.items@[i as int]);
                    assert(k.items@.skip(i as int).drop_first() == k.items@.skip(i + 1));
                }
                assert(k.items@.skip(i as int)[0] == k.items@[i as int]);
                assert(k.items@.skip(i as int).drop_first() == k.items@.skip(i + 1));
            }
            let item = &k.items[i];
            match &item.kind {
                DocItemKind::Impl { is_trait, for_type, items } => {
                    if !*is_trait && impl_matches_type(for_type, name) {
                        let mut j: usize = 0;
                        proof {
                            assert(items@.skip(0) == items@);
                            lemma_combine_empty(acc0);
                        }
                        while j < items.len()
                            invariant
                                j <= items.len(),
                                k == start.krate,
                                grows(start, *self),
                                sound(*self),
                sound(*self),
                                env_of(*self) == env_i,
                                combine(parts_of(ctor, methods@, statics@), methods_part(*k, env_i, items@.skip(j as int)))
                                    == combine(acc0, methods_part(*k, env_i, items@)),
                                forall|ii: int, id: u32| 0 <= ii < i && #[trigger] block_uses(*k, env_i, name@, k.items@[ii], id)
                                    ==> self.visited@.to_set().contains(id),
                                forall|jj: int, id: u32| 0 <= jj < j && #[trigger] method_uses(*k, env_i, items@[jj], id)
                                    ==> self.visited@.to_set().contains(id),
                                forall|g: nat| g > unvisited(start) ==> #[trigger] rwalk_methods(*k, env_i, g, rst(sb), items@)
                                    == rwalk_methods(*k, env_i, g, rst(*self), items@.skip(j as int)),
                            decreases items.len() - j,
                        {
                            let ghost here = *self;
                            proof {
                                lemma_grows_unvisited(start, here);
                                assert forall|g: nat| g > unvisited(start) implies #[trigger] rwalk_methods(*k, env_i, g, rst(sb), items@)
                                    == rwalk_methods(*k, env_i, g, rwalk_method(*k, env_i, g, rst(here), items@[j as int]), items@.skip(j + 1)) by {
                                    assert(items@.skip(j as int)[0] == items@[j as int]);
                                    assert(items@.skip(j as int).drop_first() == items@.skip(j + 1));
                                }
                            }
                            let ghost acc = parts_of(ctor, methods@, statics@);
                            proof {
                                assert(items@.skip(j as int)[0] == items@[j as int]);
                                assert(items@.skip(j as int).drop_first() == items@.skip(j + 1));
                                lemma_combine_assoc(acc, method_part(*k, env_i, items@[j as int]), methods_part(*k, env_i, items@.skip(j + 1)));
                            }
                            match find_item(k, items[j]) {
                                Some(mi) => match &mi.kind {
                                    DocItemKind::Function { sig, is_async } => {
                                        let mname = match &mi.name {
                                            Some(n) => n.clone(),
                                            None => "unknown".to_string(),
                                        };
                                        let resolved = self.resolve_function(mname.as_str(), sig, *is_async);
                                        proof {
                                            assert forall|g: nat| g > unvisited(start) implies #[trigger] rwalk_methods(*k, env_i, g, rst(sb), items@)
                                                == rwalk_methods(*k, env_i, g, rst(*self), items@.skip(j + 1)) by {
                                                assert(item_in(k.items@, items@[j as int]) == Some(*mi));
                                                assert(rwalk_sig(*k, env_i, g, rst(here), *sig) == rst(*self));
                                                assert(rwalk_method(*k, env_i, g, rst(here), items@[j as int]) == rst(*self));
                                            }
                                            lemma_grows_trans(start, here, *self);
                                            assert forall|ii: int, id: u32| 0 <= ii < i && #[trigger] block_uses(*k, env_i, name@, k.items@[ii], id)
                                                implies self.visited@.to_set().contains(id) by {
                                                assert(here.visited@.to_set().contains(id));
                                            }
                                            assert forall|jj: int, id: u32| 0 <= jj < j + 1 && #[trigger] method_uses(*k, env_i, items@[jj], id)
                                                implies self.visited@.to_set().contains(id) by {
                                                if jj < j {
                                                    assert(here.visited@.to_set().contains(id));
                                                } else {
                                                    assert(item_in(k.items@, items@[j as int]) == Some(*mi));
                                                    assert(sig_uses(env_of(here), *sig, id));
                                                }
                                            }
                                        }
                                        let has_self = sig_has_self(sig);
                                        if is_constructor(mname.as_str(), sig) {
                                            ctor = Some(resolved);
                                            proof {
                                                assert(parts_of(ctor, methods@, statics@).methods =~= acc.methods + Seq::empty());
                                                assert(parts_of(ctor, methods@, statics@).statics =~= acc.statics + Seq::empty());
                                            }
                                        } else if has_self {
                                            methods.push(resolved);
                                            proof {
                                                assert(fns_of(methods@) =~= acc.methods + seq![resolved@]);
                                                assert(parts_of(ctor, methods@, statics@).statics =~= acc.statics + Seq::empty());
                                            }
                                        } else {
                                            statics.push(resolved);
                                            proof {
                                                assert(fns_of(statics@) =~= acc.statics + seq![resolved@]);
                                                assert(parts_of(ctor, methods@, statics@).methods =~= acc.methods + Seq::empty());
                                            }
                                        }
                                        assert(parts_of(ctor, methods@, statics@) == combine(acc, method_part(*k, env_i, items@[j as int])));
                                    },
                                    _ => {
                                        proof {
                                            lemma_combine_empty(acc);
                                            assert(item_in(k.items@, items@[j as int]) == Some(*mi));
                                            assert forall|g: nat| g > unvisited(start) implies #[trigger] rwalk_methods(*k, env_i, g, rst(sb), items@)
                                                == rwalk_methods(*k, env_i, g, rst(*self), items@.skip(j + 1)) by {
                                                assert(rwalk_method(*k, env_i, g, rst(here), items@[j as int]) == rst(here));
                                            }
                                        }
                                    },
                                },
                                None => {
                                    proof {
                                        lemma_combine_empty(acc);
                                        assert forall|g: nat| g > unvisited(start) implies #[trigger] rwalk_methods(*k, env_i, g, rst(sb), items@)
                                            == rwalk_methods(*k, env_i, g, rst(*self), items@.skip(j + 1)) by {
                                            assert(rwalk_method(*k, env_i, g, rst(here), items@[j as int]) == rst(here));
                                        }
                                    }
                                },
                            }
                            j = j + 1;
                        }
                        proof {
                            assert(items@.skip(items.len() as int) =~= Seq::<u32>::empty());
                            lemma_combine_empty(parts_of(ctor, methods@, statics@));
                            lemma_combine_assoc(acc0, block_part(*k, env_i, name@, k.items@[i as int]), blocks_part(*k, env_i, name@, k.items@.skip(i + 1)));
                            assert forall|g: nat| g > unvisited(start) implies #[trigger] rwalk_blocks(*k, env_i, g, rst(start), name@, k.items@)
                                == rwalk_blocks(*k, env_i, g, rst(*self), name@, k.items@.skip(i + 1)) by {
                                assert(rwalk_methods(*k, env_i, g, rst(*self), items@.skip(items.len() as int)) == rst(*self));
                                assert(rwalk_methods(*k, env_i, g, rst(sb), items@) == rst(*self));
                                assert(rwalk_block(*k, env_i, g, rst(sb), name@, k.items@[i as int]) == rst(*self));
                            }
                        }
                    } else {
                        proof {
                            lemma_combine_empty(acc0);
                            assert forall|g: nat| g > unvisited(start) implies #[trigger] rwalk_blocks(*k, env_i, g, rst(start), name@, k.items@)
                                == rwalk_blocks(*k, env_i, g, rst(*self), name@, k.items@.skip(i + 1)) by {
                                assert(rwalk_block(*k, env_i, g, rst(sb), name@, k.items@[i as int]) == rst(sb));
                            }
                        }
                    }
                },
                _ => {
                    proof {
                        lemma_combine_empty(acc0);
                        assert forall|g: nat| g > unvisited(start) implies #[trigger] rwalk_blocks(*k, env_i, g, rst(start), name@, k.items@)
                            == rwalk_blocks(*k, env_i, g, rst(*self), name@, k.items@.skip(i + 1)) by {
                            assert(rwalk_block(*k, env_i, g, rst(sb), name@, k.items@[i as int]) == rst(sb));
                        }
                    }
                },
            }
            i = i + 1;
        }
        proof {
            assert(k.items@.skip(k.items.len() as int) =~= Seq::<DocItem>::empty());
            lemma_combine_empty(parts_of(ctor, methods@, statics@));
        }
        let ghost post = *self;
        self.self_type = prev_self_type;
        let ghost before_impls = impls_of(self.impls@);
        let block = ResolvedImpl { impl_name: name.to_string(), constructor: ctor, methods, static_funcs: statics };
        self.impls.push(block);
        proof {
            assert(impls_of(self.impls@) =~= before_impls.push(block@));
            assert(outer.visited@ == start.visited@);
            assert(outer.type_defs@ == start.type_defs@);
            assert(outer.warnings@ == start.warnings@);
            assert(self.visited@ == post.visited@);
            assert(self.type_defs@ == post.type_defs@);
            assert(self.warnings@ == post.warnings@);
            assert(extends(outer, *self));
            assert(rst(outer) == rst(start));
            assert(unvisited(outer) == unvisited(start));
            assert(rst(*self) == rst(post));
            assert forall|g: nat| g > unvisited(outer) implies #[trigger] rwalk_impl(*outer.krate, env_of(outer), g, rst(outer), name@) == rst(*self) by {
                assert(rwalk_blocks(*k, env_i, g, rst(post), name@, k.items@.skip(k.items.len() as int)) == rst(post));
                assert(rwalk_blocks(*k, env_i, g, rst(start), name@, k.items@) == rst(post));
            }
        }
    }
}


// ---------------------------------------------------------------------------
// Resolving all exports
// ---------------------------------------------------------------------------

/// The simple names of the exported impl blocks: the resource types.
pub open spec fn impl_export_names(es: Seq<ExportedItemModel>) -> Set<Seq<char>> {
    Set::new(|s: Seq<char>| exists|j: int| 0 <= j < es.len() && (#[trigger] es[j]).0 && simple_name(es[j].1) == s)
}

/// The environment of a resolution of `es`: its resources, no `Self`.
pub open spec fn export_env(es: Seq<ExportedItemModel>) -> Env {
    Env { resources: impl_export_names(es), self_type: None }
}

/// The first standalone function named `name` in the index: a function
/// item without a `self` input.
pub open spec fn find_fn(items: Seq<DocItem>, name: Seq<char>) -> Option<(DocSig, bool)>
    decreases items.len(),
{
    if items.len() == 0 {
        None
    } else {
        match items[0].kind {
            DocItemKind::Function { sig, is_async } => if items[0].name matches Some(n) && n@ == name && !has_self(sig.inputs@) {
                Some((sig, is_async))
            } else {
                find_fn(items.drop_first(), name)
            },
            _ => find_fn(items.drop_first(), name),
        }
    }
}

/// The resolved standalone functions of the exports found in the index, in order.
pub open spec fn functions_spec(k: DocCrate, env: Env, es: Seq<ExportedItemModel>) -> Seq<FnModel>
    decreases es.len(),
{
    if es.len() == 0 {
        Seq::empty()
    } else {
        let rest = functions_spec(k, env, es.drop_first());
        if es[0].0 {
            rest
        } else {
            match find_fn(k.items@, simple_name(es[0].1)) {
                Some((sig, a)) => seq![fn_model(env, simple_name(es[0].1), sig, a)] + rest,
                None => rest,
            }
        }
    }
}

/// The resolved resources of the exported impl blocks, in order.
pub open spec fn impls_spec(k: DocCrate, env: Env, es: Seq<ExportedItemModel>) -> Seq<ImplModel>
    decreases es.len(),
{
    if es.len() == 0 {
        Seq::empty()
    } else {
        let rest = impls_spec(k, env, es.drop_first());
        if es[0].0 { seq![impl_model(k, env, simple_name(es[0].1))] + rest } else { rest }
    }
}

/// The first standalone function named `name`.
fn find_function<'a>(k: &'a DocCrate, name: &str) -> (r: Option<(&'a DocSig, bool)>)
    ensures
        match r {
            Some((sig, a)) => find_fn(k.items@, name@) == Some((*sig, a)),
            None => find_fn(k.items@, name@) is None,
        },
{
    let mut i: usize = 0;
    assert(k.items@.skip(0) == k.items@);
    while i < k.items.len()
        invariant
            i <= k.items.len(),
            find_fn(k.items@, name@) == find_fn(k.items@.skip(i as int), name@),
        decreases k.items.len() - i,
    {
        proof {
            assert(k.items@.skip(i as int)[0] == k.items@[i as int]);
            assert(k.items@.skip(i as int).drop_first() == k.items@.skip(i + 1));
        }
        let item = &k.items[i];
        match &item.kind {
            DocItemKind::Function { sig, is_async } => {
                let named = match &item.name {
                    Some(n) => str_eq(n.as_str(), name),
                    None => false,
                };
                if named && !sig_has_self(sig) {
                    return Some((sig, *is_async));
                }
            },
            _ => {},
        }
        i = i + 1;
    }
    None
}

/// Resolve all exported items through the rustdoc index: the exported impl
/// blocks are the resources; each exported function is resolved from the
/// first matching standalone function (or warned about when missing), each
/// exported impl block from its inherent impl blocks, and the user types
/// they reference are discovered along the way.
pub fn resolve_exports(krate: &DocCrate, exports: &[ExportedItem]) -> (r: ResolveResult)
    ensures
        fns_of(r.functions@) == functions_spec(*krate, export_env(items_of(exports@)), items_of(exports@)),
        impls_of(r.impls@) == impls_spec(*krate, export_env(items_of(exports@)), items_of(exports@)),
        forall|i: int| 0 <= i < r.type_defs@.len() ==>
            def_sound(*krate, export_env(items_of(exports@)).resources, #[trigger] defs_of(r.type_defs@)[i]),
        forall|i: int| 0 <= i < exports@.len() && #[trigger] export_missing(*krate, items_of(exports@), i)
            ==> strs_of(r.warnings@).contains(missing_fn_warning(items_of(exports@)[i].1)),
        forall|i: int, id: u32| 0 <= i < exports@.len() && #[trigger] export_uses(*krate, items_of(exports@), i, id)
            && has_def(*krate, id)
            ==> id_covered(*krate, export_env(items_of(exports@)).resources, id, defs_of(r.type_defs@)),
        exists|s: Set<u32>| covering_set(*krate, items_of(exports@), defs_of(r.type_defs@), s),
        defs_of(r.type_defs@) == rwalk_exports(*krate, export_env(items_of(exports@)), crate_ids(*krate).len() + 1,
            (Set::empty(), Seq::empty(), Seq::empty()), items_of(exports@)).1,
        strs_of(r.warnings@) == rwalk_exports(*krate, export_env(items_of(exports@)), crate_ids(*krate).len() + 1,
            (Set::empty(), Seq::empty(), Seq::empty()), items_of(exports@)).2,
{
    let ghost es = items_of(exports@);
    let mut res = Resolver {
        krate,
        visited: Vec::new(),
        type_defs: Vec::new(),
        functions: Vec::new(),
        impls: Vec::new(),
        resource_types: Vec::new(),
        warnings: Vec::new(),
        self_type: None,
    };
    let mut i: usize = 0;
    assert(strs_of(res.resource_types@).to_set() =~= impl_export_names(es.take(0)));
    while i < exports.len()
        invariant
            i <= exports.len(),
            es == items_of(exports@),
            res.krate == krate,
            res.self_type is None,
            res.functions@.len() == 0,
            res.impls@.len() == 0,
            res.type_defs@.len() == 0,
            res.visited@.len() == 0,
            res.warnings@.len() == 0,
            strs_of(res.resource_types@).to_set() == impl_export_names(es.take(i as int)),
        decreases exports.len() - i,
    {
        proof {
            assert(es.take(i + 1).drop_last() == es.take(i as int));
        }
        match &exports[i] {
            ExportedItem::Impl(name) => {
                let ghost old_set = strs_of(res.resource_types@).to_set();
                let simple = last_segment(name.as_str());
                if !res.is_resource(simple.as_str()) {
                    let ghost before = strs_of(res.resource_types@);
                    res.resource_types.push(simple);
                    proof {
                        assert(strs_of(res.resource_types@) =~= before.push(simple_name(name@)));
                        before.lemma_push_to_set_commute(simple_name(name@));
                    }
                } else {
                    assert(strs_of(res.resource_types@).to_set() =~= old_set.insert(simple_name(name@)));
                }
                proof {
                    assert(es[i as int] == (true, name@));
                    assert(impl_export_names(es.take(i + 1)) =~= impl_export_names(es.take(i as int)).insert(simple_name(name@))) by {
                        assert forall|x: Seq<char>| impl_export_names(es.take(i + 1)).contains(x)
                            <==> impl_export_names(es.take(i as int)).insert(simple_name(name@)).contains(x) by {
                            if impl_export_names(es.take(i + 1)).contains(x) {
                                let j = choose|j: int| 0 <= j < es.take(i + 1).len() && (#[trigger] es.take(i + 1)[j]).0
                                    && simple_name(es.take(i + 1)[j].1) == x;
                                if j < i {
                                    assert(es.take(i as int)[j] == es.take(i + 1)[j]);
                                }
                            }
                            if impl_export_names(es.take(i as int)).contains(x) {
                                let j = choose|j: int| 0 <= j < es.take(i as int).len() && (#[trigger] es.take(i as int)[j]).0
                                    && simple_name(es.take(i as int)[j].1) == x;
                                assert(es.take(i + 1)[j] == es.take(i as int)[j]);
                            }
                            if x == simple_name(name@) {
                                assert(es.take(i + 1)[i as int] == es[i as int]);
                            }
                        }
                    }
                }
            },
            ExportedItem::Function(_) => {
                proof {
                    assert(strs_of(res.resource_types@).to_set() =~= impl_export_names(es.take(i + 1))) by {
                        assert forall|x: Seq<char>| impl_export_names(es.take(i + 1)).contains(x)
                            <==> impl_export_names(es.take(i as int)).contains(x) by {
                            if impl_export_names(es.take(i + 1)).contains(x) {
                                let j = choose|j: int| 0 <= j < es.take(i + 1).len() && (#[trigger] es.take(i + 1)[j]).0
                                    && simple_name(es.take(i + 1)[j].1) == x;
                                assert(j != i);
                                assert(es.take(i as int)[j] == es.take(i + 1)[j]);
                            }
                            if impl_export_names(es.take(i as int)).contains(x) {
                                let j = choose|j: int| 0 <= j < es.take(i as int).len() && (#[trigger] es.take(i as int)[j]).0
                                    && simple_name(es.take(i as int)[j].1) == x;
                                assert(es.take(i + 1)[j] == es.take(i as int)[j]);
                            }
                        }
                    }
                }
            },
        }
        i = i + 1;
    }
    assert(es.take(exports.len() as int) == es);
    let ghost env = export_env(es);
    assert(env_of(res) == env);
    let ghost r0 = res;
    proof { lemma_grows_refl(res); }
    let mut i: usize = 0;
    assert(es.skip(0) == es);
    assert(fns_of(res.functions@) =~= Seq::<FnModel>::empty());
    assert(impls_of(res.impls@) =~= Seq::<ImplModel>::empty());
    while i < exports.len()
        invariant
            i <= exports.len(),
            es == items_of(exports@),
            res.krate == krate,
            env_of(res) == env,
            env == export_env(es),
            sound(res),
            extends(r0, res),
            r0.visited@.len() == 0,
            r0.krate == krate,
            forall|j: int, id: u32| 0 <= j < i && #[trigger] export_uses(*krate, es, j, id) ==> res.visited@.to_set().contains(id),
            forall|j: int| 0 <= j < i && #[trigger] export_missing(*krate, es, j)
                ==> strs_of(res.warnings@).contains(missing_fn_warning(es[j].1)),
            fns_of(res.functions@) + functions_spec(*krate, env, es.skip(i as int)) == functions_spec(*krate, env, es),
            impls_of(res.impls@) + impls_spec(*krate, env, es.skip(i as int)) == impls_spec(*krate, env, es),
            forall|g: nat| g > unvisited(r0) ==> #[trigger] rwalk_exports(*krate, env, g, rst(r0), es)
                == rwalk_exports(*krate, env, g, rst(res), es.skip(i as int)),
        decreases exports.len() - i,
    {
        proof {
            assert(es.skip(i as int)[0] == es[i as int]);
            assert(es.skip(i as int).drop_first() == es.skip(i + 1));
        }
        let ghost w0 = strs_of(res.warnings@);
        let ghost here = res;
        proof { lemma_grows_unvisited(r0, here); }
        match &exports[i] {
            ExportedItem::Function(name) => {
                let simple = last_segment(name.as_str());
                match find_function(krate, simple.as_str()) {
                    Some((sig, a)) => {
                        assert(res == here);
                        let f = res.resolve_function(simple.as_str(), sig, a);
                        proof {
                            assert forall|g: nat| g > unvisited(r0) implies #[trigger] rwalk_exports(*krate, env, g, rst(r0), es)
                                == rwalk_exports(*krate, env, g, rst(res), es.skip(i + 1)) by {
                                assert(es[i as int] == (false, name@));
                                assert(simple@ == simple_name(es[i as int].1));
                                assert(find_fn(krate.items@, simple_name(es[i as int].1)) == Some((*sig, a)));
                                assert(rwalk_sig(*krate, env, g, rst(here), *sig) == rst(res));
                            }
                            assert(es[i as int] == (false, name@));
                            assert forall|id: u32| #[trigger] export_uses(*krate, es, i as int, id)
                                implies res.visited@.to_set().contains(id) by {
                                assert(simple@ == simple_name(es[i as int].1));
                                assert(find_fn(krate.items@, simple_name(es[i as int].1)) == Some((*sig, a)));
                                assert(sig_uses(export_env(es), *sig, id));
                                assert(env_of(here) == export_env(es));
                                assert(sig_uses(env_of(here), *sig, id));
                            }
                        }
                        let ghost before = fns_of(res.functions@);
                        res.functions.push(f);
                        proof {
                            assert(fns_of(res.functions@) =~= before.push(f@));
                            assert(fns_of(res.functions@) + functions_spec(*krate, env, es.skip(i + 1))
                                =~= before + functions_spec(*krate, env, es.skip(i as int)));
                        }
                    },
                    None => {
                        let mut msg = "exported function `".to_string();
                        msg.push_str(name.as_str());
                        msg.push_str("` not found in rustdoc output");
                        proof { assert(msg@ == missing_fn_warning(es[i as int].1)); }
                        res.warn(msg);
                        proof {
                            assert(strs_of(res.warnings@)[w0.len() as int] == missing_fn_warning(es[i as int].1));
                            assert(es[i as int] == (false, name@));
                            assert forall|id: u32| #[trigger] export_uses(*krate, es, i as int, id)
                                implies res.visited@.to_set().contains(id) by {}
                            assert forall|g: nat| g > unvisited(r0) implies #[trigger] rwalk_exports(*krate, env, g, rst(r0), es)
                                == rwalk_exports(*krate, env, g, rst(res), es.skip(i + 1)) by {
                                assert(simple@ == simple_name(es[i as int].1));
                                assert(find_fn(krate.items@, simple_name(es[i as int].1)) is None);
                                assert(rst(res) == rwarn(rst(here), missing_fn_warning(es[i as int].1)));
                            }
                        }
                    },
                }
            },
            ExportedItem::Impl(name) => {
                let simple = last_segment(name.as_str());
                let ghost before = impls_of(res.impls@);
                res.resolve_impl_block(simple.as_str());
                proof {
                    assert forall|g: nat| g > unvisited(r0) implies #[trigger] rwalk_exports(*krate, env, g, rst(r0), es)
                        == rwalk_exports(*krate, env, g, rst(res), es.skip(i + 1)) by {
                        assert(es[i as int] == (true, name@));
                        assert(simple@ == simple_name(es[i as int].1));
                        assert(rwalk_impl(*krate, env, g, rst(here), simple@) == rst(res));
                    }
                    assert(es[i as int] == (true, name@));
                    assert forall|id: u32| #[trigger] export_uses(*krate, es, i as int, id)
                        implies res.visited@.to_set().contains(id) by {
                        assert(simple@ == simple_name(es[i as int].1));
                        assert(env_of(here) == export_env(es));
                        assert(impl_uses(*here.krate, env_of(here), simple@, id));
                    }
                    assert(impls_of(res.impls@) + impls_spec(*krate, env, es.skip(i + 1))
                        =~= before + impls_spec(*krate, env, es.skip(i as int)));
                }
            },
        }
        proof {
            lemma_extends_trans(r0, here, res);
            assert forall|j: int, id: u32| 0 <= j < i + 1 && #[trigger] export_uses(*krate, es, j, id)
                implies res.visited@.to_set().contains(id) by {
                if j < i {
                    assert(here.visited@.to_set().contains(id));
                }
            }
            let w1 = strs_of(res.warnings@);
            assert(w0.is_prefix_of(w1));
            assert forall|j: int| 0 <= j < i + 1 && #[trigger] export_missing(*krate, es, j)
                implies w1.contains(missing_fn_warning(es[j].1)) by {
                if j < i {
                    let t = choose|t: int| 0 <= t < w0.len() && w0[t] == missing_fn_warning(es[j].1);
                    assert(w1[t] == w0[t]);
                }
            }
        }
        i = i + 1;
    }
    assert(es.skip(exports.len() as int) =~= Seq::<ExportedItemModel>::empty());
    let ghost vs = res.visited@.to_set();
    proof {
        assert forall|j: int, id: u32| 0 <= j < exports@.len() && #[trigger] export_uses(*krate, es, j, id)
            && has_def(*krate, id)
            implies id_covered(*krate, env.resources, id, defs_of(res.type_defs@)) by {
            assert(res.visited@.to_set().contains(id));
            assert(!r0.visited@.to_set().contains(id));
        }
        assert forall|id0: u32, id: u32| vs.contains(id0) && has_def(*krate, id0) && #[trigger] def_uses(*krate, env.resources, id0, id)
            implies vs.contains(id) by {
            assert(!r0.visited@.to_set().contains(id0));
        }
        assert forall|id: u32| #[trigger] vs.contains(id) && has_def(*krate, id)
            implies id_covered(*krate, env.resources, id, defs_of(res.type_defs@)) by {
            assert(!r0.visited@.to_set().contains(id));
        }
        assert(covering_set(*krate, es, defs_of(res.type_defs@), vs));
        assert(r0.visited@.to_set() =~= Set::<u32>::empty());
        assert(defs_of(r0.type_defs@) =~= Seq::<DefModel>::empty());
        assert(strs_of(r0.warnings@) =~= Seq::<Seq<char>>::empty());
        assert(crate_ids(*krate).difference(Set::<u32>::empty()) =~= crate_ids(*krate));
        assert(unvisited(r0) == crate_ids(*krate).len());
        let f = crate_ids(*krate).len() + 1;
        assert(rwalk_exports(*krate, env, f, rst(res), es.skip(exports.len() as int)) == rst(res));
        assert(rwalk_exports(*krate, env, f, rst(r0), es) == rst(res));
    }
    let r = ResolveResult {
        functions: res.functions,
        impls: res.impls,
        type_defs: res.type_defs,
        warnings: res.warnings,
    };
    assert(covering_set(*krate, items_of(exports@), defs_of(r.type_defs@), vs));
    r
}

// ---------------------------------------------------------------------------
// Where rustdoc put its JSON
// ---------------------------------------------------------------------------

/// Whether `pat` occurs in `s` at `i`.
pub open spec fn occurs_at(s: Seq<char>, pat: Seq<char>, i: int) -> bool {
    0 <= i && i + pat.len() <= s.len() && s.subrange(i, i + pat.len()) == pat
}

/// The first position at or after `i` where `pat` occurs in `s`.
pub open spec fn first_occurrence_from(s: Seq<char>, pat: Seq<char>, i: int) -> Option<int>
    decreases s.len() + 1 - i,
{
    if i < 0 || i + pat.len() > s.len() {
        None
    } else if occurs_at(s, pat, i) {
        Some(i)
    } else {
        first_occurrence_from(s, pat, i + 1)
    }
}

/// The path of the JSON file that `cargo rustdoc` reports on its error
/// stream: the text after the first `   Generated ` up to the end of its line.
pub open spec fn rustdoc_json_path_spec(out: Seq<char>) -> Result<Seq<char>, Seq<char>> {
    let prefix = "   Generated "@;
    match first_occurrence_from(out, prefix, 0) {
        None => Err("failed to find generated JSON path in rustdoc output"@),
        Some(i) => {
            let rest = out.subrange(i + prefix.len(), out.len() as int);
            let e = crate::text::first_index_of(rest, '\n');
            if e < 0 {
                Err("failed to find end of generated JSON path in rustdoc output"@)
            } else {
                Ok(rest.subrange(0, e))
            }
        },
    }
}

fn matches_at(cs: &Vec<char>, pat: &Vec<char>, i: usize) -> (b: bool)
    requires
        i + pat.len() <= cs.len(),
    ensures
        b == occurs_at(cs@, pat@, i as int),
{
    let mut j: usize = 0;
    while j < pat.len()
        invariant
            i + pat.len() <= cs.len(),
            j <= pat.len(),
            forall|k: int| 0 <= k < j ==> cs@[i + k] == pat@[k],
        decreases pat.len() - j,
    {
        if cs[i + j] != pat[j] {
            assert(cs@.subrange(i as int, i + pat.len())[j as int] != pat@[j as int]);
            return false;
        }
        j = j + 1;
    }
    assert(cs@.subrange(i as int, i + pat.len()) =~= pat@);
    true
}

/// The path of the JSON file that `cargo rustdoc` reports on its error stream.
pub fn rustdoc_json_path(stderr: &str) -> (r: Result<String, String>)
    ensures
        match r {
            Ok(p) => rustdoc_json_path_spec(stderr@) == Ok::<Seq<char>, Seq<char>>(p@),
            Err(e) => rustdoc_json_path_spec(stderr@) == Err::<Seq<char>, Seq<char>>(e@),
        },
{
    let cs = str_chars(stderr);
    let pat = str_chars("   Generated ");
    proof { reveal_strlit("   Generated "); }
    assert(pat.len() == 13);
    let mut i: usize = 0;
    let mut found: Option<usize> = None;
    while found.is_none() && pat.len() <= cs.len() && i <= cs.len() - pat.len()
        invariant
            cs@ == stderr@,
            pat@ == "   Generated "@,
            pat.len() == 13,
            i <= cs.len() + 1,
            found is None ==> first_occurrence_from(cs@, pat@, 0) == first_occurrence_from(cs@, pat@, i as int),
            found matches Some(k) ==> first_occurrence_from(cs@, pat@, 0) == Some(k as int) && k + pat.len() <= cs.len(),
        decreases cs.len() + 2 - i,
    {
        if matches_at(&cs, &pat, i) {
            found = Some(i);
        }
        i = i + 1;
    }
    match found {
        None => {
            assert(first_occurrence_from(cs@, pat@, i as int) is None);
            Err("failed to find generated JSON path in rustdoc output".to_string())
        },
        Some(i0) => {
            let start = i0 + pat.len();
            let rest = crate::text::slice_chars(&cs, start, cs.len());
            proof { crate::text::lemma_first_index_of(rest@, '\n'); }
            match crate::text::find_first(&rest, '\n') {
                None => Err("failed to find end of generated JSON path in rustdoc output".to_string()),
                Some(e) => Ok(crate::text::slice_string(&rest, 0, e)),
            }
        },
    }
}

} // verus!
