//! The WIT intermediate representation produced by the TypeScript mapper and
//! consumed by the WIT emitter, with its mathematical model.
use vstd::prelude::*;
use crate::text::{append_str, str_chars, string_from_chars};

verus! {

/// A WIT type.
#[derive(Debug, PartialEq, Eq)]
pub enum WitType {
    U8,
    U16,
    U32,
    U64,
    S8,
    S16,
    S32,
    S64,
    F32,
    F64,
    Bool,
    Char,
    WitString,
    List(Box<WitType>),
    Option(Box<WitType>),
    Result { ok: Option<Box<WitType>>, err: Option<Box<WitType>> },
    Tuple(Vec<WitType>),
    Future(Option<Box<WitType>>),
    Stream(Option<Box<WitType>>),
    Named(String),
    Own(String),
    Borrow(String),
}

/// The mathematical value of a `WitType`: names as character sequences and
/// tuple elements as a sequence.
pub enum WitTy {
    U8,
    U16,
    U32,
    U64,
    S8,
    S16,
    S32,
    S64,
    F32,
    F64,
    Bool,
    Char,
    Str,
    List(Box<WitTy>),
    Option(Box<WitTy>),
    Result { ok: Option<Box<WitTy>>, err: Option<Box<WitTy>> },
    Tuple(Seq<WitTy>),
    Future(Option<Box<WitTy>>),
    Stream(Option<Box<WitTy>>),
    Named(Seq<char>),
    Own(Seq<char>),
    Borrow(Seq<char>),
}

/// The model of an optional boxed type.
pub open spec fn opt_ty(o: Option<Box<WitType>>) -> Option<Box<WitTy>>
    decreases o, 2nat,
{
    match o {
        Some(b) => Some(Box::new(ty_of(*b))),
        None => None,
    }
}

/// The model of a type.
pub open spec fn ty_of(t: WitType) -> WitTy
    decreases t, 1nat,
{
    match t {
        WitType::U8 => WitTy::U8,
        WitType::U16 => WitTy::U16,
        WitType::U32 => WitTy::U32,
        WitType::U64 => WitTy::U64,
        WitType::S8 => WitTy::S8,
        WitType::S16 => WitTy::S16,
        WitType::S32 => WitTy::S32,
        WitType::S64 => WitTy::S64,
        WitType::F32 => WitTy::F32,
        WitType::F64 => WitTy::F64,
        WitType::Bool => WitTy::Bool,
        WitType::Char => WitTy::Char,
        WitType::WitString => WitTy::Str,
        WitType::List(inner) => WitTy::List(Box::new(ty_of(*inner))),
        WitType::Option(inner) => WitTy::Option(Box::new(ty_of(*inner))),
        WitType::Result { ok, err } => WitTy::Result { ok: opt_ty(ok), err: opt_ty(err) },
        WitType::Tuple(elems) => WitTy::Tuple(tys_of(elems@)),
        WitType::Future(inner) => WitTy::Future(opt_ty(inner)),
        WitType::Stream(inner) => WitTy::Stream(opt_ty(inner)),
        WitType::Named(name) => WitTy::Named(name@),
        WitType::Own(name) => WitTy::Own(name@),
        WitType::Borrow(name) => WitTy::Borrow(name@),
    }
}

/// The models of a sequence of types.
pub open spec fn tys_of(s: Seq<WitType>) -> Seq<WitTy>
    decreases s, 0nat,
{
    if s.len() == 0 {
        Seq::empty()
    } else {
        tys_of(s.drop_last()).push(ty_of(s.last()))
    }
}

impl View for WitType {
    type V = WitTy;

    open spec fn view(&self) -> WitTy {
        ty_of(*self)
    }
}

pub proof fn lemma_tys_of(s: Seq<WitType>)
    ensures
        tys_of(s).len() == s.len(),
        forall|i: int| 0 <= i < s.len() ==> #[trigger] tys_of(s)[i] == ty_of(s[i]),
    decreases s.len(),
{
    if s.len() > 0 {
        lemma_tys_of(s.drop_last());
        assert forall|i: int| 0 <= i < s.len() implies #[trigger] tys_of(s)[i] == ty_of(s[i]) by {
            if i < s.len() - 1 {
                assert(s.drop_last()[i] == s[i]);
            }
        }
    }
}

pub proof fn lemma_tys_of_push(s: Seq<WitType>, t: WitType)
    ensures
        tys_of(s.push(t)) == tys_of(s).push(ty_of(t)),
{
    assert(s.push(t).drop_last() == s);
}

/// The WIT syntax of a type.
pub open spec fn ty_text(t: WitTy) -> Seq<char>
    decreases t, 1nat,
{
    match t {
        WitTy::U8 => "u8"@,
        WitTy::U16 => "u16"@,
        WitTy::U32 => "u32"@,
        WitTy::U64 => "u64"@,
        WitTy::S8 => "s8"@,
        WitTy::S16 => "s16"@,
        WitTy::S32 => "s32"@,
        WitTy::S64 => "s64"@,
        WitTy::F32 => "f32"@,
        WitTy::F64 => "f64"@,
        WitTy::Bool => "bool"@,
        WitTy::Char => "char"@,
        WitTy::Str => "string"@,
        WitTy::List(inner) => "list<"@ + ty_text(*inner) + ">"@,
        WitTy::Option(inner) => "option<"@ + ty_text(*inner) + ">"@,
        WitTy::Result { ok, err } => match (ok, err) {
            (Some(o), Some(e)) => "result<"@ + ty_text(*o) + ", "@ + ty_text(*e) + ">"@,
            (Some(o), None) => "result<"@ + ty_text(*o) + ">"@,
            (None, Some(e)) => "result<_, "@ + ty_text(*e) + ">"@,
            (None, None) => "result"@,
        },
        WitTy::Tuple(elems) => "tuple<"@ + tys_text(elems) + ">"@,
        WitTy::Future(inner) => match inner {
            Some(i) => "future<"@ + ty_text(*i) + ">"@,
            None => "future"@,
        },
        WitTy::Stream(inner) => match inner {
            Some(i) => "stream<"@ + ty_text(*i) + ">"@,
            None => "stream"@,
        },
        WitTy::Named(name) => name,
        WitTy::Own(name) => "own<"@ + name + ">"@,
        WitTy::Borrow(name) => "borrow<"@ + name + ">"@,
    }
}

/// The WIT syntax of types separated by `, `.
pub open spec fn tys_text(ts: Seq<WitTy>) -> Seq<char>
    decreases ts, 0nat,
{
    if ts.len() == 0 {
        Seq::empty()
    } else if ts.len() == 1 {
        ty_text(ts[0])
    } else {
        tys_text(ts.drop_last()) + ", "@ + ty_text(ts.last())
    }
}

/// The signedness letter (`u` unsigned, `s` signed, `f` floating point) and
/// the width in bits of a numeric WIT type.
pub open spec fn number_kind(t: WitTy) -> Option<(char, nat)> {
    match t {
        WitTy::U8 => Some(('u', 8)),
        WitTy::U16 => Some(('u', 16)),
        WitTy::U32 => Some(('u', 32)),
        WitTy::U64 => Some(('u', 64)),
        WitTy::S8 => Some(('s', 8)),
        WitTy::S16 => Some(('s', 16)),
        WitTy::S32 => Some(('s', 32)),
        WitTy::S64 => Some(('s', 64)),
        WitTy::F32 => Some(('f', 32)),
        WitTy::F64 => Some(('f', 64)),
        _ => None,
    }
}

/// Whether `t` is a primitive WIT type: a number, `bool`, `char` or `string`.
pub open spec fn is_primitive_ty(t: WitTy) -> bool {
    number_kind(t) is Some || t is Bool || t is Char || t is Str
}

proof fn lemma_primitive_texts()
    ensures
        "u8"@ == seq!['u', '8'],
        "u16"@ == seq!['u', '1', '6'],
        "u32"@ == seq!['u', '3', '2'],
        "u64"@ == seq!['u', '6', '4'],
        "s8"@ == seq!['s', '8'],
        "s16"@ == seq!['s', '1', '6'],
        "s32"@ == seq!['s', '3', '2'],
        "s64"@ == seq!['s', '6', '4'],
        "f32"@ == seq!['f', '3', '2'],
        "f64"@ == seq!['f', '6', '4'],
        "bool"@ == seq!['b', 'o', 'o', 'l'],
        "char"@ == seq!['c', 'h', 'a', 'r'],
        "string"@ == seq!['s', 't', 'r', 'i', 'n', 'g'],
{
    reveal_strlit("u8");
    reveal_strlit("u16");
    reveal_strlit("u32");
    reveal_strlit("u64");
    reveal_strlit("s8");
    reveal_strlit("s16");
    reveal_strlit("s32");
    reveal_strlit("s64");
    reveal_strlit("f32");
    reveal_strlit("f64");
    reveal_strlit("bool");
    reveal_strlit("char");
    reveal_strlit("string");
    assert("u8"@ =~= seq!['u', '8']);
    assert("u16"@ =~= seq!['u', '1', '6']);
    assert("u32"@ =~= seq!['u', '3', '2']);
    assert("u64"@ =~= seq!['u', '6', '4']);
    assert("s8"@ =~= seq!['s', '8']);
    assert("s16"@ =~= seq!['s', '1', '6']);
    assert("s32"@ =~= seq!['s', '3', '2']);
    assert("s64"@ =~= seq!['s', '6', '4']);
    assert("f32"@ =~= seq!['f', '3', '2']);
    assert("f64"@ =~= seq!['f', '6', '4']);
    assert("bool"@ =~= seq!['b', 'o', 'o', 'l']);
    assert("char"@ =~= seq!['c', 'h', 'a', 'r']);
    assert("string"@ =~= seq!['s', 't', 'r', 'i', 'n', 'g']);
}

/// Law: a numeric WIT type is written as its signedness letter followed by
/// its width in decimal (`u8` .. `u64`, `s8` .. `s64`, `f32`, `f64`).
pub proof fn lemma_number_text(t: WitTy)
    ensures
        number_kind(t) matches Some((l, w)) ==> ty_text(t) == seq![l] + crate::rs_resolve::decimal(w),
{
    lemma_primitive_texts();
    reveal_with_fuel(crate::rs_resolve::decimal, 3);
    if let Some((l, w)) = number_kind(t) {
        assert(seq![l] + crate::rs_resolve::decimal(w) =~= ty_text(t));
    }
}

/// Law: distinct primitive WIT types are written differently.
pub proof fn lemma_primitive_text_injective(a: WitTy, b: WitTy)
    requires
        is_primitive_ty(a),
        is_primitive_ty(b),
        ty_text(a) == ty_text(b),
    ensures
        a == b,
{
    lemma_primitive_texts();
    if a != b {
        let (ta, tb) = (ty_text(a), ty_text(b));
        assert(ta.len() != tb.len() || exists|i: int| 0 <= i < ta.len() && ta[i] != tb[i]) by {
            if ta.len() == tb.len() {
                if ta[0] != tb[0] {
                    assert(ta[0] != tb[0]);
                } else if ta[1] != tb[1] {
                    assert(ta[1] != tb[1]);
                } else {
                    assert(ta[2] != tb[2]);
                }
            }
        }
    }
}

} // verus!

verus! {

fn copy_boxed(b: &Box<WitType>) -> (r: Box<WitType>)
    ensures
        ty_of(*r) == ty_of(**b),
    decreases *b, 2nat,
{
    Box::new(copy_wit_type(&**b))
}

fn copy_opt_boxed(o: &Option<Box<WitType>>) -> (r: Option<Box<WitType>>)
    ensures
        opt_ty(r) == opt_ty(*o),
    decreases *o, 3nat,
{
    match o {
        Some(b) => Some(copy_boxed(b)),
        None => None,
    }
}

/// A copy of a type, with the same model.
pub fn copy_wit_type(t: &WitType) -> (r: WitType)
    ensures
        r@ == t@,
    decreases *t, 1nat,
{
    match t {
        WitType::U8 => WitType::U8,
        WitType::U16 => WitType::U16,
        WitType::U32 => WitType::U32,
        WitType::U64 => WitType::U64,
        WitType::S8 => WitType::S8,
        WitType::S16 => WitType::S16,
        WitType::S32 => WitType::S32,
        WitType::S64 => WitType::S64,
        WitType::F32 => WitType::F32,
        WitType::F64 => WitType::F64,
        WitType::Bool => WitType::Bool,
        WitType::Char => WitType::Char,
        WitType::WitString => WitType::WitString,
        WitType::List(inner) => WitType::List(copy_boxed(inner)),
        WitType::Option(inner) => WitType::Option(copy_boxed(inner)),
        WitType::Result { ok, err } => WitType::Result { ok: copy_opt_boxed(ok), err: copy_opt_boxed(err) },
        WitType::Tuple(elems) => WitType::Tuple(copy_wit_types(elems)),
        WitType::Future(inner) => WitType::Future(copy_opt_boxed(inner)),
        WitType::Stream(inner) => WitType::Stream(copy_opt_boxed(inner)),
        WitType::Named(name) => WitType::Named(name.clone()),
        WitType::Own(name) => WitType::Own(name.clone()),
        WitType::Borrow(name) => WitType::Borrow(name.clone()),
    }
}

/// A copy of a list of types, with the same models.
pub fn copy_wit_types(ts: &Vec<WitType>) -> (r: Vec<WitType>)
    ensures
        tys_of(r@) == tys_of(ts@),
    decreases *ts, 0nat,
{
    let mut r: Vec<WitType> = Vec::new();
    let mut i: usize = 0;
    while i < ts.len()
        invariant
            i <= ts.len(),
            tys_of(r@) == tys_of(ts@.take(i as int)),
        decreases ts.len() - i,
    {
        proof {
            assert(decreases_to!(ts => ts@[i as int]));
        }
        let c = copy_wit_type(&ts[i]);
        proof {
            lemma_tys_of_push(r@, c);
            assert(ts@.take(i + 1) == ts@.take(i as int).push(ts@[i as int]));
            lemma_tys_of_push(ts@.take(i as int), ts@[i as int]);
        }
        r.push(c);
        i = i + 1;
    }
    assert(ts@.take(ts.len() as int) == ts@);
    r
}

impl Clone for WitType {
    fn clone(&self) -> (r: Self)
        ensures
            r@ == self@,
    {
        copy_wit_type(self)
    }
}

fn write_opt_inner(out: &mut Vec<char>, o: &Option<Box<WitType>>, open: &str, none: &str)
    ensures
        final(out)@ == old(out)@ + match opt_ty(*o) {
            Some(i) => open@ + ty_text(*i) + ">"@,
            None => none@,
        },
    decreases *o, 3nat,
{
    match o {
        Some(b) => {
            append_str(out, open);
            write_ty(out, &**b);
            append_str(out, ">");
        },
        None => {
            append_str(out, none);
        },
    }
}

/// Appends the WIT syntax of `t` to `out`.
#[verifier::rlimit(50)]
pub fn write_ty(out: &mut Vec<char>, t: &WitType)
    ensures
        final(out)@ == old(out)@ + ty_text(t@),
    decreases *t, 1nat,
{
    match t {
        WitType::U8 => {
            append_str(out, "u8");
        },
        WitType::U16 => {
            append_str(out, "u16");
        },
        WitType::U32 => {
            append_str(out, "u32");
        },
        WitType::U64 => {
            append_str(out, "u64");
        },
        WitType::S8 => {
            append_str(out, "s8");
        },
        WitType::S16 => {
            append_str(out, "s16");
        },
        WitType::S32 => {
            append_str(out, "s32");
        },
        WitType::S64 => {
            append_str(out, "s64");
        },
        WitType::F32 => {
            append_str(out, "f32");
        },
        WitType::F64 => {
            append_str(out, "f64");
        },
        WitType::Bool => {
            append_str(out, "bool");
        },
        WitType::Char => {
            append_str(out, "char");
        },
        WitType::WitString => {
            append_str(out, "string");
        },
        WitType::List(inner) => {
            append_str(out, "list<");
            write_ty(out, &**inner);
            append_str(out, ">");
        },
        WitType::Option(inner) => {
            append_str(out, "option<");
            write_ty(out, &**inner);
            append_str(out, ">");
        },
        WitType::Result { ok, err } => {
            let ghost start = out@;
            proof {
                assert(t@ == WitTy::Result { ok: opt_ty(*ok), err: opt_ty(*err) });
            }
            match ok {
                Some(o) => {
                    assert(opt_ty(*ok) == Some(Box::new(ty_of(**o))));
                    append_str(out, "result<");
                    write_ty(out, &**o);
                    match err {
                        Some(e) => {
                            assert(opt_ty(*err) == Some(Box::new(ty_of(**e))));
                            append_str(out, ", ");
                            write_ty(out, &**e);
                        },
                        None => {},
                    }
                    append_str(out, ">");
                },
                None => {
                    match err {
                        Some(e) => {
                            assert(opt_ty(*err) == Some(Box::new(ty_of(**e))));
                            append_str(out, "result<_, ");
                            write_ty(out, &**e);
                            append_str(out, ">");
                        },
                        None => {
                            append_str(out, "result");
                        },
                    }
                },
            }
        },
        WitType::Tuple(elems) => {
            append_str(out, "tuple<");
            write_tys(out, elems);
            append_str(out, ">");
        },
        WitType::Future(inner) => {
            write_opt_inner(out, inner, "future<", "future");
        },
        WitType::Stream(inner) => {
            write_opt_inner(out, inner, "stream<", "stream");
        },
        WitType::Named(name) => {
            append_str(out, name.as_str());
        },
        WitType::Own(name) => {
            append_str(out, "own<");
            append_str(out, name.as_str());
            append_str(out, ">");
        },
        WitType::Borrow(name) => {
            append_str(out, "borrow<");
            append_str(out, name.as_str());
            append_str(out, ">");
        },
    }
}

/// Appends the WIT syntax of types separated by `, ` to `out`.
pub fn write_tys(out: &mut Vec<char>, ts: &Vec<WitType>)
    ensures
        final(out)@ == old(out)@ + tys_text(tys_of(ts@)),
    decreases *ts, 0nat,
{
    let ghost start = out@;
    let mut i: usize = 0;
    while i < ts.len()
        invariant
            i <= ts.len(),
            out@ == start + tys_text(tys_of(ts@.take(i as int))),
        decreases ts.len() - i,
    {
        proof {
            assert(decreases_to!(ts => ts@[i as int]));
            assert(ts@.take(i + 1) == ts@.take(i as int).push(ts@[i as int]));
            lemma_tys_of_push(ts@.take(i as int), ts@[i as int]);
            lemma_tys_of(ts@.take(i as int));
        }
        let ghost prev = tys_of(ts@.take(i as int));
        let ghost next = tys_of(ts@.take(i + 1));
        proof {
            assert(next == prev.push(ty_of(ts@[i as int])));
            assert(next.drop_last() == prev);
            assert(next.last() == ty_of(ts@[i as int]));
        }
        if i > 0 {
            append_str(out, ", ");
        }
        write_ty(out, &ts[i]);
        proof {
            if i > 0 {
                assert(tys_text(next) == tys_text(prev) + ", "@ + ty_text(ty_of(ts@[i as int])));
            } else {
                assert(prev.len() == 0);
                assert(tys_text(next) == ty_text(next[0]));
            }
        }
        i = i + 1;
    }
    assert(ts@.take(ts.len() as int) == ts@);
}

impl WitType {
    /// The WIT syntax of this type.
    pub fn to_string(&self) -> (s: String)
        ensures
            s@ == ty_text(self@),
    {
        let mut out: Vec<char> = Vec::new();
        write_ty(&mut out, self);
        string_from_chars(out.as_slice())
    }
}

} // verus!

verus! {

/// A named, typed parameter or field, as a model.
pub type NamedTy = (Seq<char>, WitTy);

/// The models of named, typed parameters or fields.
pub open spec fn named_tys(s: Seq<(String, WitType)>) -> Seq<NamedTy> {
    s.map_values(|p: (String, WitType)| (p.0@, p.1@))
}

/// The models of a sequence of strings.
pub open spec fn strs_of(s: Seq<String>) -> Seq<Seq<char>> {
    s.map_values(|x: String| x@)
}

/// The model of an optional type.
pub open spec fn opt_wit(o: Option<WitType>) -> Option<WitTy> {
    match o {
        Some(t) => Some(t@),
        None => None,
    }
}

/// A WIT function signature.
#[derive(Debug, Clone)]
pub struct WitFunc {
    pub name: String,
    pub params: Vec<(String, WitType)>,
    pub result: Option<WitType>,
    pub is_async: bool,
}

/// The model of a function signature.
pub struct FuncModel {
    pub name: Seq<char>,
    pub params: Seq<NamedTy>,
    pub result: Option<WitTy>,
    pub is_async: bool,
}

impl View for WitFunc {
    type V = FuncModel;

    open spec fn view(&self) -> FuncModel {
        FuncModel {
            name: self.name@,
            params: named_tys(self.params@),
            result: opt_wit(self.result),
            is_async: self.is_async,
        }
    }
}

/// The models of a sequence of functions.
pub open spec fn funcs_of(s: Seq<WitFunc>) -> Seq<FuncModel> {
    s.map_values(|f: WitFunc| f@)
}

/// A WIT record (named bag of fields).
#[derive(Debug, Clone)]
pub struct WitRecord {
    pub name: String,
    pub fields: Vec<(String, WitType)>,
}

/// The model of a record.
pub struct RecordModel {
    pub name: Seq<char>,
    pub fields: Seq<NamedTy>,
}

impl View for WitRecord {
    type V = RecordModel;

    open spec fn view(&self) -> RecordModel {
        RecordModel { name: self.name@, fields: named_tys(self.fields@) }
    }
}

/// A WIT resource (entity with lifetime, passed by handle).
#[derive(Debug, Clone)]
pub struct WitResource {
    pub name: String,
    pub constructor_params: Option<Vec<(String, WitType)>>,
    pub methods: Vec<WitFunc>,
    pub static_funcs: Vec<WitFunc>,
}

/// The model of a resource.
pub struct ResourceModel {
    pub name: Seq<char>,
    pub constructor_params: Option<Seq<NamedTy>>,
    pub methods: Seq<FuncModel>,
    pub static_funcs: Seq<FuncModel>,
}

impl View for WitResource {
    type V = ResourceModel;

    open spec fn view(&self) -> ResourceModel {
        ResourceModel {
            name: self.name@,
            constructor_params: match self.constructor_params {
                Some(ps) => Some(named_tys(ps@)),
                None => None,
            },
            methods: funcs_of(self.methods@),
            static_funcs: funcs_of(self.static_funcs@),
        }
    }
}

/// A WIT enum (variant with no payloads).
#[derive(Debug, Clone)]
pub struct WitEnum {
    pub name: String,
    pub cases: Vec<String>,
}

/// The model of an enum.
pub struct EnumModel {
    pub name: Seq<char>,
    pub cases: Seq<Seq<char>>,
}

impl View for WitEnum {
    type V = EnumModel;

    open spec fn view(&self) -> EnumModel {
        EnumModel { name: self.name@, cases: strs_of(self.cases@) }
    }
}

/// A case name with an optional payload type, as a model.
pub type CaseModel = (Seq<char>, Option<WitTy>);

/// The models of variant cases.
pub open spec fn cases_of(s: Seq<(String, Option<WitType>)>) -> Seq<CaseModel> {
    s.map_values(|c: (String, Option<WitType>)| (c.0@, opt_wit(c.1)))
}

/// A WIT variant (tagged union with optional payloads).
#[derive(Debug, Clone)]
pub struct WitVariant {
    pub name: String,
    pub cases: Vec<(String, Option<WitType>)>,
}

/// The model of a variant.
pub struct VariantModel {
    pub name: Seq<char>,
    pub cases: Seq<CaseModel>,
}

impl View for WitVariant {
    type V = VariantModel;

    open spec fn view(&self) -> VariantModel {
        VariantModel { name: self.name@, cases: cases_of(self.cases@) }
    }
}

/// A WIT flags type (bag-of-bools / bitset).
#[derive(Debug, Clone)]
pub struct WitFlags {
    pub name: String,
    pub flags: Vec<String>,
}

/// The model of a flags type.
pub struct FlagsModel {
    pub name: Seq<char>,
    pub flags: Seq<Seq<char>>,
}

impl View for WitFlags {
    type V = FlagsModel;

    open spec fn view(&self) -> FlagsModel {
        FlagsModel { name: self.name@, flags: strs_of(self.flags@) }
    }
}

/// A WIT type alias.
#[derive(Debug, Clone)]
pub struct WitTypeAlias {
    pub name: String,
    pub target: WitType,
}

/// The model of a type alias.
pub struct AliasModel {
    pub name: Seq<char>,
    pub target: WitTy,
}

impl View for WitTypeAlias {
    type V = AliasModel;

    open spec fn view(&self) -> AliasModel {
        AliasModel { name: self.name@, target: self.target@ }
    }
}

/// Any top-level WIT type definition.
#[derive(Debug, Clone)]
pub enum WitTypeDef {
    Record(WitRecord),
    Resource(WitResource),
    Enum(WitEnum),
    Variant(WitVariant),
    Flags(WitFlags),
    TypeAlias(WitTypeAlias),
}

/// The model of a type definition.
pub enum TypeDefModel {
    Record(RecordModel),
    Resource(ResourceModel),
    Enum(EnumModel),
    Variant(VariantModel),
    Flags(FlagsModel),
    TypeAlias(AliasModel),
}

impl View for WitTypeDef {
    type V = TypeDefModel;

    open spec fn view(&self) -> TypeDefModel {
        match self {
            WitTypeDef::Record(r) => TypeDefModel::Record(r@),
            WitTypeDef::Resource(r) => TypeDefModel::Resource(r@),
            WitTypeDef::Enum(e) => TypeDefModel::Enum(e@),
            WitTypeDef::Variant(v) => TypeDefModel::Variant(v@),
            WitTypeDef::Flags(f) => TypeDefModel::Flags(f@),
            WitTypeDef::TypeAlias(a) => TypeDefModel::TypeAlias(a@),
        }
    }
}

/// The name of a type definition.
pub open spec fn type_def_name(d: TypeDefModel) -> Seq<char> {
    match d {
        TypeDefModel::Record(r) => r.name,
        TypeDefModel::Resource(r) => r.name,
        TypeDefModel::Enum(e) => e.name,
        TypeDefModel::Variant(v) => v.name,
        TypeDefModel::Flags(f) => f.name,
        TypeDefModel::TypeAlias(a) => a.name,
    }
}

impl WitTypeDef {
    /// The name of the defined type.
    pub fn name(&self) -> (n: &str)
        ensures
            n@ == type_def_name(self@),
    {
        match self {
            WitTypeDef::Record(r) => r.name.as_str(),
            WitTypeDef::Resource(r) => r.name.as_str(),
            WitTypeDef::Enum(e) => e.name.as_str(),
            WitTypeDef::Variant(v) => v.name.as_str(),
            WitTypeDef::Flags(f) => f.name.as_str(),
            WitTypeDef::TypeAlias(a) => a.name.as_str(),
        }
    }
}

/// The models of a sequence of type definitions.
pub open spec fn type_defs_of(s: Seq<WitTypeDef>) -> Seq<TypeDefModel> {
    s.map_values(|d: WitTypeDef| d@)
}

/// A WIT interface containing type definitions and functions.
#[derive(Debug, Clone)]
pub struct WitInterface {
    pub name: String,
    pub type_defs: Vec<WitTypeDef>,
    pub functions: Vec<WitFunc>,
}

/// The model of an interface.
pub struct InterfaceModel {
    pub name: Seq<char>,
    pub type_defs: Seq<TypeDefModel>,
    pub functions: Seq<FuncModel>,
}

impl View for WitInterface {
    type V = InterfaceModel;

    open spec fn view(&self) -> InterfaceModel {
        InterfaceModel {
            name: self.name@,
            type_defs: type_defs_of(self.type_defs@),
            functions: funcs_of(self.functions@),
        }
    }
}

/// The models of a sequence of interfaces.
pub open spec fn interfaces_of(s: Seq<WitInterface>) -> Seq<InterfaceModel> {
    s.map_values(|i: WitInterface| i@)
}

/// A WIT world describing a component's imports and exports.
#[derive(Debug, Clone)]
pub struct WitWorld {
    pub name: String,
    /// Exported interface (types + functions).
    pub exports: WitInterface,
    /// Imported interfaces (from external dependencies).
    pub imports: Vec<WitInterface>,
}

/// The model of a world.
pub struct WorldModel {
    pub name: Seq<char>,
    pub exports: InterfaceModel,
    pub imports: Seq<InterfaceModel>,
}

impl View for WitWorld {
    type V = WorldModel;

    open spec fn view(&self) -> WorldModel {
        WorldModel { name: self.name@, exports: self.exports@, imports: interfaces_of(self.imports@) }
    }
}

/// A complete WIT package.
#[derive(Debug, Clone)]
pub struct WitPackage {
    pub namespace: String,
    pub name: String,
    pub version: Option<String>,
    pub world: WitWorld,
}

/// The model of a package.
pub struct PackageModel {
    pub namespace: Seq<char>,
    pub name: Seq<char>,
    pub version: Option<Seq<char>>,
    pub world: WorldModel,
}

impl View for WitPackage {
    type V = PackageModel;

    open spec fn view(&self) -> PackageModel {
        PackageModel {
            namespace: self.namespace@,
            name: self.name@,
            version: match self.version {
                Some(v) => Some(v@),
                None => None,
            },
            world: self.world@,
        }
    }
}

} // verus!

verus! {

/// The model of an absent boxed type is absent; of a present one, its model.
pub broadcast proof fn lemma_opt_ty(o: Option<Box<WitType>>)
    ensures
        #[trigger] opt_ty(o) == match o {
            Some(b) => Some(Box::new(ty_of(*b))),
            None => None::<Box<WitTy>>,
        },
{
}

} // verus!
