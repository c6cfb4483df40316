//! The parts of Rust syntax that export discovery reads: types as written,
//! struct and enum definitions, function signatures, and `impl` blocks.
use vstd::prelude::*;

verus! {

/// A Rust type as written.
#[derive(Debug)]
pub enum RustType {
    /// A path type: the identifier of its last segment and that segment's arguments.
    Path { ident: String, args: PathArgs },
    /// `&T` or `&mut T`.
    Reference(Box<RustType>),
    /// `[T]`.
    Slice(Box<RustType>),
    /// `(A, B, ..)`; `()` when empty.
    Tuple(Vec<RustType>),
    /// Any other type syntax.
    Other,
}

/// The arguments of a path segment.
#[derive(Debug)]
pub enum PathArgs {
    /// No arguments.
    Bare,
    /// `<A, B, ..>`.
    AngleBracketed(Vec<GenericArg>),
    /// `(A, B) -> C`, as in `Fn` traits.
    Parenthesized,
}

/// One argument between angle brackets.
#[derive(Debug)]
pub enum GenericArg {
    /// A type argument.
    Type(RustType),
    /// A lifetime, constant, or binding.
    Other,
}

/// The fields of a struct or enum variant.
#[derive(Debug)]
pub enum FieldsDef {
    /// `{ a: A, b: B }`.
    Named(Vec<(String, RustType)>),
    /// `(A, B)`.
    Unnamed(Vec<RustType>),
    /// No fields.
    Unit,
}

/// A struct definition.
#[derive(Debug)]
pub struct StructDef {
    pub name: String,
    pub fields: FieldsDef,
}

/// An enum definition.
#[derive(Debug)]
pub struct EnumDef {
    pub name: String,
    pub variants: Vec<(String, FieldsDef)>,
}

/// One input of a function signature.
#[derive(Debug)]
pub enum FnInput {
    /// `self`, `&self`, or `&mut self`.
    Receiver { mutable: bool },
    /// `pattern: Type`; the name when the pattern is an identifier.
    Typed { name: Option<String>, ty: RustType },
}

/// A function signature.
#[derive(Debug)]
pub struct FnSig {
    pub name: String,
    pub is_async: bool,
    pub inputs: Vec<FnInput>,
    /// The declared return type; `None` for `-> ()` omitted.
    pub output: Option<RustType>,
}

/// An item of an `impl` block.
#[derive(Debug)]
pub enum ImplItemDef {
    /// A method or associated function.
    Fn(FnSig),
    /// Any other item.
    Other,
}

/// An attribute, by its path when the path is a single identifier.
#[derive(Debug)]
pub struct AttrDef {
    pub ident: Option<String>,
}

/// A free function.
#[derive(Debug)]
pub struct FnItem {
    pub attrs: Vec<AttrDef>,
    pub sig: FnSig,
}

/// An `impl` block.
#[derive(Debug)]
pub struct ImplItem {
    pub attrs: Vec<AttrDef>,
    pub self_ty: RustType,
    pub items: Vec<ImplItemDef>,
}

/// An item of a module.
#[derive(Debug)]
pub enum RustItem {
    Struct(StructDef),
    Enum(EnumDef),
    Fn(FnItem),
    Impl(ImplItem),
    /// An inline module, with its name and items.
    Mod { name: String, items: Vec<RustItem> },
    /// A module declared here whose items are in another file.
    ModDecl(String),
    Other,
}

/// The Rust primitive names that have a WIT type: the fixed-width integers,
/// the floats, `bool`, `char`, and the string types `str` and `String`.
pub open spec fn rust_prim_names() -> Seq<Seq<char>> {
    seq!["bool"@, "u8"@, "u16"@, "u32"@, "u64"@, "i8"@, "i16"@, "i32"@, "i64"@, "f32"@, "f64"@, "char"@, "str"@, "String"@]
}

/// The WIT keyword a Rust primitive's name spells: a signed integer `iN` is
/// written `sN`, the string types `string`, and every other primitive keeps
/// its name.
pub open spec fn rust_prim_keyword(n: Seq<char>) -> Seq<char> {
    if n == "str"@ || n == "String"@ {
        "string"@
    } else if n.len() > 0 && n[0] == 'i' {
        seq!['s'] + n.skip(1)
    } else {
        n
    }
}

/// The characters of the Rust primitive names, of the WIT keywords, and of
/// the other names a written type is checked against first.
pub proof fn lemma_prim_literals()
    ensures
        "bool"@ == seq!['b', 'o', 'o', 'l'],
        "u8"@ == seq!['u', '8'],
        "u16"@ == seq!['u', '1', '6'],
        "u32"@ == seq!['u', '3', '2'],
        "u64"@ == seq!['u', '6', '4'],
        "i8"@ == seq!['i', '8'],
        "i16"@ == seq!['i', '1', '6'],
        "i32"@ == seq!['i', '3', '2'],
        "i64"@ == seq!['i', '6', '4'],
        "s8"@ == seq!['s', '8'],
        "s16"@ == seq!['s', '1', '6'],
        "s32"@ == seq!['s', '3', '2'],
        "s64"@ == seq!['s', '6', '4'],
        "f32"@ == seq!['f', '3', '2'],
        "f64"@ == seq!['f', '6', '4'],
        "char"@ == seq!['c', 'h', 'a', 'r'],
        "str"@ == seq!['s', 't', 'r'],
        "String"@ == seq!['S', 't', 'r', 'i', 'n', 'g'],
        "string"@ == seq!['s', 't', 'r', 'i', 'n', 'g'],
        "Vec"@ == seq!['V', 'e', 'c'],
        "HashSet"@ == seq!['H', 'a', 's', 'h', 'S', 'e', 't'],
        "BTreeSet"@ == seq!['B', 'T', 'r', 'e', 'e', 'S', 'e', 't'],
        "Option"@ == seq!['O', 'p', 't', 'i', 'o', 'n'],
        "Result"@ == seq!['R', 'e', 's', 'u', 'l', 't'],
        "Box"@ == seq!['B', 'o', 'x'],
        "Arc"@ == seq!['A', 'r', 'c'],
        "Rc"@ == seq!['R', 'c'],
        "HashMap"@ == seq!['H', 'a', 's', 'h', 'M', 'a', 'p'],
        "BTreeMap"@ == seq!['B', 'T', 'r', 'e', 'e', 'M', 'a', 'p'],
        "Stream"@ == seq!['S', 't', 'r', 'e', 'a', 'm'],
        "Future"@ == seq!['F', 'u', 't', 'u', 'r', 'e'],
        "Self"@ == seq!['S', 'e', 'l', 'f'],
{
    reveal_strlit("bool");
    reveal_strlit("u8");
    reveal_strlit("u16");
    reveal_strlit("u32");
    reveal_strlit("u64");
    reveal_strlit("i8");
    reveal_strlit("i16");
    reveal_strlit("i32");
    reveal_strlit("i64");
    reveal_strlit("s8");
    reveal_strlit("s16");
    reveal_strlit("s32");
    reveal_strlit("s64");
    reveal_strlit("f32");
    reveal_strlit("f64");
    reveal_strlit("char");
    reveal_strlit("str");
    reveal_strlit("String");
    reveal_strlit("string");
    reveal_strlit("Vec");
    reveal_strlit("HashSet");
    reveal_strlit("BTreeSet");
    reveal_strlit("Option");
    reveal_strlit("Result");
    reveal_strlit("Box");
    reveal_strlit("Arc");
    reveal_strlit("Rc");
    reveal_strlit("HashMap");
    reveal_strlit("BTreeMap");
    reveal_strlit("Stream");
    reveal_strlit("Future");
    reveal_strlit("Self");
    assert("bool"@ =~= seq!['b', 'o', 'o', 'l']);
    assert("u8"@ =~= seq!['u', '8']);
    assert("u16"@ =~= seq!['u', '1', '6']);
    assert("u32"@ =~= seq!['u', '3', '2']);
    assert("u64"@ =~= seq!['u', '6', '4']);
    assert("i8"@ =~= seq!['i', '8']);
    assert("i16"@ =~= seq!['i', '1', '6']);
    assert("i32"@ =~= seq!['i', '3', '2']);
    assert("i64"@ =~= seq!['i', '6', '4']);
    assert("s8"@ =~= seq!['s', '8']);
    assert("s16"@ =~= seq!['s', '1', '6']);
    assert("s32"@ =~= seq!['s', '3', '2']);
    assert("s64"@ =~= seq!['s', '6', '4']);
    assert("f32"@ =~= seq!['f', '3', '2']);
    assert("f64"@ =~= seq!['f', '6', '4']);
    assert("char"@ =~= seq!['c', 'h', 'a', 'r']);
    assert("str"@ =~= seq!['s', 't', 'r']);
    assert("String"@ =~= seq!['S', 't', 'r', 'i', 'n', 'g']);
    assert("string"@ =~= seq!['s', 't', 'r', 'i', 'n', 'g']);
    assert("Vec"@ =~= seq!['V', 'e', 'c']);
    assert("HashSet"@ =~= seq!['H', 'a', 's', 'h', 'S', 'e', 't']);
    assert("BTreeSet"@ =~= seq!['B', 'T', 'r', 'e', 'e', 'S', 'e', 't']);
    assert("Option"@ =~= seq!['O', 'p', 't', 'i', 'o', 'n']);
    assert("Result"@ =~= seq!['R', 'e', 's', 'u', 'l', 't']);
    assert("Box"@ =~= seq!['B', 'o', 'x']);
    assert("Arc"@ =~= seq!['A', 'r', 'c']);
    assert("Rc"@ =~= seq!['R', 'c']);
    assert("HashMap"@ =~= seq!['H', 'a', 's', 'h', 'M', 'a', 'p']);
    assert("BTreeMap"@ =~= seq!['B', 'T', 'r', 'e', 'e', 'M', 'a', 'p']);
    assert("Stream"@ =~= seq!['S', 't', 'r', 'e', 'a', 'm']);
    assert("Future"@ =~= seq!['F', 'u', 't', 'u', 'r', 'e']);
    assert("Self"@ =~= seq!['S', 'e', 'l', 'f']);
}

} // verus!
