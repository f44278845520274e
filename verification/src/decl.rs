//! Declaration descriptors: the external, already-parsed structural
//! description of one type that the registry consumes, plus the errors that
//! registration and aggregation report. A descriptor holds the type's own
//! raw attributes and, per field or variant, an identifier, raw attributes
//! (possibly containing the aggregation marker) and a declared type name.

use vstd::prelude::*;

verus! {

/// One field of a declaration: its declared name (`None` for a tuple-style
/// positional field), its raw attribute list, and the name of its declared
/// type, consulted only when the field carries the aggregation marker.
pub struct FieldDecl {
    pub name: Option<String>,
    pub attrs: Vec<String>,
    pub ty: Option<String>,
}

/// One enum variant: its name, its raw attribute list, and its own fields
/// (empty for a unit variant; each field named or positional).
pub struct VariantDecl {
    pub name: String,
    pub attrs: Vec<String>,
    pub fields: Vec<FieldDecl>,
}

/// The shape of a declared type. Unions carry named fields only and are
/// treated structurally like record structs.
pub enum TypeShape {
    Unit,
    Tuple(Vec<FieldDecl>),
    Record(Vec<FieldDecl>),
    Union(Vec<FieldDecl>),
    Enum(Vec<VariantDecl>),
}

/// A full declaration descriptor: the type's name, its own raw attributes,
/// and its shape.
pub struct DeclDescriptor {
    pub name: String,
    pub attrs: Vec<String>,
    pub shape: TypeShape,
}

/// Mathematical model of a `FieldDecl`.
pub struct FieldDeclView {
    pub name: Option<Seq<char>>,
    pub attrs: Seq<Seq<char>>,
    pub ty: Option<Seq<char>>,
}

/// Mathematical model of a `VariantDecl`.
pub struct VariantDeclView {
    pub name: Seq<char>,
    pub attrs: Seq<Seq<char>>,
    pub fields: Seq<FieldDeclView>,
}

/// Mathematical model of a `TypeShape`.
pub enum ShapeView {
    Unit,
    Tuple(Seq<FieldDeclView>),
    Record(Seq<FieldDeclView>),
    Union(Seq<FieldDeclView>),
    Enum(Seq<VariantDeclView>),
}

/// Mathematical model of a `DeclDescriptor`.
pub struct DeclView {
    pub name: Seq<char>,
    pub attrs: Seq<Seq<char>>,
    pub shape: ShapeView,
}

impl View for FieldDecl {
    type V = FieldDeclView;

    open spec fn view(&self) -> FieldDeclView {
        FieldDeclView {
            name: match self.name {
                Some(n) => Some(n@),
                None => None,
            },
            attrs: self.attrs.deep_view(),
            ty: match self.ty {
                Some(t) => Some(t@),
                None => None,
            },
        }
    }
}

pub open spec fn field_decls_view(s: Seq<FieldDecl>) -> Seq<FieldDeclView> {
    Seq::new(s.len(), |i: int| s[i]@)
}

impl View for VariantDecl {
    type V = VariantDeclView;

    open spec fn view(&self) -> VariantDeclView {
        VariantDeclView {
            name: self.name@,
            attrs: self.attrs.deep_view(),
            fields: field_decls_view(self.fields@),
        }
    }
}

pub open spec fn variant_decls_view(s: Seq<VariantDecl>) -> Seq<VariantDeclView> {
    Seq::new(s.len(), |i: int| s[i]@)
}

impl View for TypeShape {
    type V = ShapeView;

    open spec fn view(&self) -> ShapeView {
        match self {
            TypeShape::Unit => ShapeView::Unit,
            TypeShape::Tuple(fs) => ShapeView::Tuple(field_decls_view(fs@)),
            TypeShape::Record(fs) => ShapeView::Record(field_decls_view(fs@)),
            TypeShape::Union(fs) => ShapeView::Union(field_decls_view(fs@)),
            TypeShape::Enum(vs) => ShapeView::Enum(variant_decls_view(vs@)),
        }
    }
}

impl View for DeclDescriptor {
    type V = DeclView;

    open spec fn view(&self) -> DeclView {
        DeclView { name: self.name@, attrs: self.attrs.deep_view(), shape: self.shape@ }
    }
}

/// Why a declaration was refused at registration time. Every error names the
/// offending type, and where a field or variant is at fault, its identifier.
#[allow(inconsistent_fields)]
#[derive(Debug, PartialEq, Eq)]
pub enum RegisterError {
    /// A type of this name is already registered.
    DuplicateType { ty: String },
    /// A field breaks the naming rule of its context: record and union
    /// fields must be named, tuple fields must be positional.
    UnsupportedShape { ty: String, ident: String },
    /// Two fields of one map, or two variants, share an identifier.
    DuplicateIdentifier { ty: String, ident: String },
    /// A field carries the aggregation marker but its declared type is
    /// absent or not registered, so it cannot contribute a node.
    NotCapable { ty: String, field: String, target: Option<String> },
    /// A transparent wrapper forwards to a type that is not registered.
    UnknownTarget { ty: String, target: String },
}

/// Why an aggregation request failed: the requested type is unknown.
#[derive(Debug, PartialEq, Eq)]
pub enum AggregateError {
    NotRegistered { ty: String },
}

/// Mathematical model of a `RegisterError`.
#[allow(inconsistent_fields)]
pub enum RegisterErrorView {
    DuplicateType { ty: Seq<char> },
    UnsupportedShape { ty: Seq<char>, ident: Seq<char> },
    DuplicateIdentifier { ty: Seq<char>, ident: Seq<char> },
    NotCapable { ty: Seq<char>, field: Seq<char>, target: Option<Seq<char>> },
    UnknownTarget { ty: Seq<char>, target: Seq<char> },
}

/// Mathematical model of an `AggregateError`.
pub enum AggregateErrorView {
    NotRegistered { ty: Seq<char> },
}

impl View for RegisterError {
    type V = RegisterErrorView;

    open spec fn view(&self) -> RegisterErrorView {
        match self {
            RegisterError::DuplicateType { ty } => RegisterErrorView::DuplicateType { ty: ty@ },
            RegisterError::UnsupportedShape { ty, ident } => RegisterErrorView::UnsupportedShape {
                ty: ty@,
                ident: ident@,
            },
            RegisterError::DuplicateIdentifier {
                ty,
                ident,
            } => RegisterErrorView::DuplicateIdentifier { ty: ty@, ident: ident@ },
            RegisterError::NotCapable { ty, field, target } => RegisterErrorView::NotCapable {
                ty: ty@,
                field: field@,
                target: match target {
                    Some(t) => Some(t@),
                    None => None,
                },
            },
            RegisterError::UnknownTarget { ty, target } => RegisterErrorView::UnknownTarget {
                ty: ty@,
                target: target@,
            },
        }
    }
}

impl View for AggregateError {
    type V = AggregateErrorView;

    open spec fn view(&self) -> AggregateErrorView {
        match self {
            AggregateError::NotRegistered { ty } => AggregateErrorView::NotRegistered { ty: ty@ },
        }
    }
}

} // verus!
