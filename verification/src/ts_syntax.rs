//! The part of a TypeScript syntax tree that the export collector and the
//! branded-type detector read, as plain values: exported declarations,
//! their parameters and members, and type annotations.
use vstd::prelude::*;
use crate::ts_collect::KeywordType;

verus! {

/// A type annotation.
pub enum TsType {
    /// `number`, `string`, `boolean`, `bigint`, `void`, `any`, `unknown`,
    /// `never`, `symbol`, `object`.
    Keyword(KeywordType),
    /// `null`
    Null,
    /// `undefined`
    Undefined,
    /// `T[]`
    Array(Box<TsType>),
    /// `[A, B?, ...C]`
    Tuple(Vec<TsTupleElement>),
    /// `A | B`
    Union(Vec<TsType>),
    /// `A & B`
    Intersection(Vec<TsType>),
    /// `Name` or `Name<Args>`
    Reference { name: TsTypeName, type_args: Option<Vec<TsType>> },
    /// `{ a: A; b?: B }`
    TypeLiteral(Vec<TsSignature>),
    /// `(a: A) => B`
    Function,
    /// `(T)`
    Parenthesized(Box<TsType>),
    /// A literal type such as `'u32'` or `1`: the value when it is a string,
    /// and the node's debug text.
    Literal { string_value: Option<String>, debug: String },
    /// Any other type, by its node's debug text.
    Other(String),
}

/// An element of a tuple type.
pub enum TsTupleElement {
    /// `name: T`
    Named(Box<TsTupleElement>),
    /// `T?`
    Optional(TsType),
    /// `...T`
    Rest(TsType),
    /// A plain type.
    Type(TsType),
}

/// The name in a type reference.
pub enum TsTypeName {
    /// `Foo`
    Identifier(String),
    /// `ns.Foo`
    Qualified(Box<TsTypeName>, String),
    /// `this`
    This,
}

/// A member of an interface body or a type literal.
pub enum TsSignature {
    /// A property signature: its key when it is a plain identifier, its type
    /// annotation, and whether it is optional.
    Property { key: Option<String>, type_annotation: Option<TsType>, optional: bool },
    /// Any other member (methods, index signatures, ...).
    Other,
}

/// A function or method parameter.
pub struct TsParam {
    /// The bound name when the pattern is a plain identifier.
    pub name: Option<String>,
    pub type_annotation: Option<TsType>,
    pub optional: bool,
}

/// A function declaration.
pub struct TsFunction {
    /// The function's name; absent for an anonymous default export.
    pub id: Option<String>,
    pub params: Vec<TsParam>,
    pub return_type: Option<TsType>,
    pub is_async: bool,
}

/// A decorator's expression.
pub enum TsExpr {
    /// `foo`
    Identifier(String),
    /// `obj.prop`
    Member { object: Box<TsExpr>, property: String },
    /// `callee(...)`
    Call(Box<TsExpr>),
    /// Anything else.
    Other,
}

/// The kind of a class method.
pub enum TsMethodKind {
    Constructor,
    Method,
    Getter,
    Setter,
}

/// A class method.
pub struct TsMethod {
    pub kind: TsMethodKind,
    pub is_static: bool,
    /// The key's static name, if it has one.
    pub key: Option<String>,
    pub params: Vec<TsParam>,
    pub return_type: Option<TsType>,
    pub is_async: bool,
}

/// A class property definition.
pub struct TsPropertyDef {
    /// The key's static name, if it has one.
    pub key: Option<String>,
    pub type_annotation: Option<TsType>,
    pub optional: bool,
}

/// An element of a class body.
pub enum TsClassElement {
    Method(TsMethod),
    Property(TsPropertyDef),
    /// Static blocks, accessors, index signatures, ...
    Other,
}

/// A class declaration.
pub struct TsClass {
    /// The class's name; absent for an anonymous default export.
    pub id: Option<String>,
    pub decorators: Vec<TsExpr>,
    pub elements: Vec<TsClassElement>,
}

/// An interface declaration.
pub struct TsInterface {
    pub name: String,
    pub body: Vec<TsSignature>,
}

/// A type alias declaration.
pub struct TsTypeAlias {
    pub name: String,
    pub type_annotation: TsType,
}

/// The name of an enum member.
pub enum TsEnumMemberName {
    Identifier(String),
    Str(String),
    ComputedString(String),
    ComputedTemplate,
}

/// An enum declaration.
pub struct TsEnum {
    pub name: String,
    pub members: Vec<TsEnumMemberName>,
}

/// The declaration of a named export.
pub enum TsDeclaration {
    Function(TsFunction),
    Class(TsClass),
    Interface(TsInterface),
    TypeAlias(TsTypeAlias),
    Enum(TsEnum),
    /// Variables, namespaces, ...
    Other,
}

/// The declaration of a default export.
pub enum TsDefaultDeclaration {
    Function(TsFunction),
    Class(TsClass),
    Interface(TsInterface),
    /// An expression.
    Other,
}

/// An export declaration, in the order the syntax tree is walked.
pub enum TsExportDecl {
    /// `export <declaration>`, or a re-export without one.
    Named(Option<TsDeclaration>),
    /// `export default <declaration>`
    Default(TsDefaultDeclaration),
}

/// What the branded-type detector meets while walking a module.
pub enum BrandEvent {
    /// An import declaration: its source, and for each specifier the local
    /// name when it is a named import (`import { a as b }`).
    Import { source: String, specifiers: Vec<Option<String>> },
    /// A type alias declaration.
    TypeAlias(TsTypeAlias),
}

} // verus!
