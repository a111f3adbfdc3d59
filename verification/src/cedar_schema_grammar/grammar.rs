//! The concrete syntax tree of a Cedar schema file, as its grammar produces it.
use vstd::prelude::*;

verus! {

/// Identifier token.
#[derive(Debug, Clone, Copy, PartialEq, Eq, Structural)]
pub struct SchemaIdent;

/// Type/namespace path token: `Foo::Bar`.
#[derive(Debug, Clone, Copy, PartialEq, Eq, Structural)]
pub struct SchemaPath;

/// Name or string: identifier or double-quoted string.
#[derive(Debug, Clone, Copy, PartialEq, Eq, Structural)]
pub struct SchemaNameOrString;

/// Action reference: identifier path with optional trailing `::"string"`, or plain string.
#[derive(Debug, Clone, Copy, PartialEq, Eq, Structural)]
pub struct SchemaActionRefToken;

/// A Cedar schema file is a list of declarations or namespaces.
#[derive(Debug)]
pub struct Schema {
    pub items: Vec<SchemaItem>,
}

/// A top-level schema item.
#[derive(Debug)]
pub enum SchemaItem {
    Namespace(NamespaceDecl),
    Entity(EntityDecl),
    Action(ActionDecl),
    TypeDecl(TypeAliasDecl),
}

/// `namespace Foo::Bar { decl* }`
#[derive(Debug)]
pub struct NamespaceDecl {
    pub path: String,
    pub decls: Vec<NamespaceInnerDecl>,
}

/// Declarations inside a namespace.
#[derive(Debug)]
pub enum NamespaceInnerDecl {
    Entity(EntityDecl),
    Action(ActionDecl),
    TypeDecl(TypeAliasDecl),
}

/// `entity Foo [in Bar] [{ field: Type, ... }] ;`
#[derive(Debug)]
pub struct EntityDecl {
    pub name: String,
    pub extra_names: Vec<ExtraName>,
    pub parents: Option<EntityParents>,
    pub body: Option<RecordType>,
}

/// `, Name` for multi-entity declarations.
#[derive(Debug)]
pub struct ExtraName {
    pub name: String,
}

/// `in Parent` or `in [Parent1, Parent2]`
#[derive(Debug)]
pub enum EntityParents {
    Single((), String),
    List((), (), Vec<TypePath>, ()),
}

/// A type path like `Foo::Bar`.
#[derive(Debug)]
pub struct TypePath {
    pub head: String,
    pub tail: Vec<TypePathSegment>,
}

/// `::Ident` segment in a type path.
#[derive(Debug)]
pub struct TypePathSegment {
    pub name: String,
}

/// `action "doThing" [in SomeAction] [appliesTo { ... }] ;`
#[derive(Debug)]
pub struct ActionDecl {
    pub name: String,
    pub extra_names: Vec<ExtraActionName>,
    pub parents: Option<ActionParents>,
    pub applies_to: Option<AppliesTo>,
}

/// `, "name"` for multi-action declarations.
#[derive(Debug)]
pub struct ExtraActionName {
    pub name: String,
}

/// `in ActionRef` or `in [ActionRef, ...]`
#[derive(Debug)]
pub enum ActionParents {
    Single((), String),
    List((), (), Vec<ActionRef>, ()),
}

/// A reference to an action (identifier, string, or qualified path).
#[derive(Debug)]
pub struct ActionRef {
    pub name: String,
}

/// `appliesTo { principal: ..., resource: ..., context: ... }`
#[derive(Debug)]
pub struct AppliesTo {
    pub decls: Vec<AppliesToDecl>,
}

/// A single `principal: Type` / `resource: Type` / `context: Type` declaration.
#[derive(Debug)]
pub enum AppliesToDecl {
    Principal((), (), TypeExpr, Option<TrailingComma>),
    Resource((), (), TypeExpr, Option<TrailingComma>),
    Context((), (), TypeExpr, Option<TrailingComma>),
}

/// A trailing `,`.
#[derive(Debug)]
pub struct TrailingComma;

/// A Cedar schema type.
#[derive(Debug)]
pub enum TypeExpr {
    /// `Set<Type>`
    SetType((), (), Box<TypeExpr>, ()),
    /// Named type: `Long`, `String`, `Bool`, `MyType`, `Namespace::Type`
    Named(TypePath),
    /// Record type: `{ field: Type, ... }`
    Record(RecordType),
}

/// `{ field?: Type, ... }`
#[derive(Debug)]
pub struct RecordType {
    pub fields: Vec<FieldDecl>,
}

/// A field in a record type: `name?: Type`
#[derive(Debug)]
pub struct FieldDecl {
    pub name: String,
    pub optional: Option<QuestionMark>,
    pub ty: TypeExpr,
}

/// A `?` marking an optional field.
#[derive(Debug)]
pub struct QuestionMark;

/// `type MyType = Long;`
#[derive(Debug)]
pub struct TypeAliasDecl {
    pub name: String,
    pub ty: TypeExpr,
}

} // verus!
