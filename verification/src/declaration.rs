//! Declarations of error types as they are written, and the diagnostics that
//! checking them gives.

use crate::status::StatusCode;
use vstd::prelude::*;

verus! {

/// A field of a variant as it is declared. A positional field has no name.
pub struct FieldDeclaration {
    pub name: Option<String>,
    pub ty: String,
}

/// What a `FieldDeclaration` holds.
pub struct FieldDeclarationView {
    pub name: Option<Seq<char>>,
    pub ty: Seq<char>,
}

impl DeepView for FieldDeclaration {
    type V = FieldDeclarationView;

    open spec fn deep_view(&self) -> FieldDeclarationView {
        FieldDeclarationView { name: self.name.deep_view(), ty: self.ty@ }
    }
}

/// A variant as it is declared: its identifier, its fields in order, and the
/// two attributes, each of which may be missing.
pub struct VariantDeclaration {
    pub ident: String,
    pub fields: Vec<FieldDeclaration>,
    pub status: Option<StatusCode>,
    pub message: Option<String>,
}

/// What a `VariantDeclaration` holds.
pub struct VariantDeclarationView {
    pub ident: Seq<char>,
    pub fields: Seq<FieldDeclarationView>,
    pub status: Option<u16>,
    pub message: Option<Seq<char>>,
}

impl DeepView for VariantDeclaration {
    type V = VariantDeclarationView;

    open spec fn deep_view(&self) -> VariantDeclarationView {
        VariantDeclarationView {
            ident: self.ident@,
            fields: self.fields.deep_view(),
            status: match self.status {
                Some(s) => Some(s@),
                None => None,
            },
            message: self.message.deep_view(),
        }
    }
}

/// The body of a declared type.
pub enum DeclarationBody {
    Enum(Vec<VariantDeclaration>),
    Struct,
    Union,
}

/// What a `DeclarationBody` holds.
pub enum DeclarationBodyView {
    Enum(Seq<VariantDeclarationView>),
    Struct,
    Union,
}

impl DeepView for DeclarationBody {
    type V = DeclarationBodyView;

    open spec fn deep_view(&self) -> DeclarationBodyView {
        match self {
            DeclarationBody::Enum(variants) => DeclarationBodyView::Enum(variants.deep_view()),
            DeclarationBody::Struct => DeclarationBodyView::Struct,
            DeclarationBody::Union => DeclarationBodyView::Union,
        }
    }
}

/// A declared type: its identifier, its generic parameters as written, and
/// its body.
pub struct TypeDeclaration {
    pub ident: String,
    pub generics: String,
    pub body: DeclarationBody,
}

/// What a `TypeDeclaration` holds.
pub struct TypeDeclarationView {
    pub ident: Seq<char>,
    pub generics: Seq<char>,
    pub body: DeclarationBodyView,
}

impl DeepView for TypeDeclaration {
    type V = TypeDeclarationView;

    open spec fn deep_view(&self) -> TypeDeclarationView {
        TypeDeclarationView {
            ident: self.ident@,
            generics: self.generics@,
            body: self.body.deep_view(),
        }
    }
}

/// A defect of a declaration. Variants and fields are named by their index in
/// the declaration, which is where the defect is to be reported.
#[derive(Debug)]
pub enum Diagnostic {
    /// The declared type is no enum.
    UnsupportedShape,
    /// The variant has a field without a name.
    PositionalFields { variant: usize },
    /// The variant declares no status.
    MissingStatus { variant: usize },
    /// The variant declares no message.
    MissingMessage { variant: usize },
    /// The message of the variant is empty.
    EmptyMessage { variant: usize },
    /// The message names a variable for which the variant has no field.
    MissingField { variant: usize, variable: String },
    /// The message does not use the field.
    UnusedField { variant: usize, field: usize },
    /// An earlier field of the variant has the same name as the field.
    DuplicateField { variant: usize, field: usize },
}

/// What a `Diagnostic` holds.
pub enum DiagnosticView {
    UnsupportedShape,
    PositionalFields { variant: int },
    MissingStatus { variant: int },
    MissingMessage { variant: int },
    EmptyMessage { variant: int },
    MissingField { variant: int, variable: Seq<char> },
    UnusedField { variant: int, field: int },
    DuplicateField { variant: int, field: int },
}

impl DeepView for Diagnostic {
    type V = DiagnosticView;

    open spec fn deep_view(&self) -> DiagnosticView {
        match self {
            Diagnostic::UnsupportedShape => DiagnosticView::UnsupportedShape,
            Diagnostic::PositionalFields { variant } => DiagnosticView::PositionalFields {
                variant: *variant as int,
            },
            Diagnostic::MissingStatus { variant } => DiagnosticView::MissingStatus {
                variant: *variant as int,
            },
            Diagnostic::MissingMessage { variant } => DiagnosticView::MissingMessage {
                variant: *variant as int,
            },
            Diagnostic::EmptyMessage { variant } => DiagnosticView::EmptyMessage {
                variant: *variant as int,
            },
            Diagnostic::MissingField { variant, variable } => DiagnosticView::MissingField {
                variant: *variant as int,
                variable: variable@,
            },
            Diagnostic::UnusedField { variant, field } => DiagnosticView::UnusedField {
                variant: *variant as int,
                field: *field as int,
            },
            Diagnostic::DuplicateField { variant, field } => DiagnosticView::DuplicateField {
                variant: *variant as int,
                field: *field as int,
            },
        }
    }
}

/// The text of a diagnostic, as it is reported.
pub open spec fn text_of(defect: DiagnosticView) -> Seq<char> {
    match defect {
        DiagnosticView::UnsupportedShape => "Only enums are supported."@,
        DiagnosticView::PositionalFields { .. } => "Only variants with named fields or without fields are supported"@,
        DiagnosticView::MissingStatus { .. } => "Missing field `status`"@,
        DiagnosticView::MissingMessage { .. } => "Missing field `message`"@,
        DiagnosticView::EmptyMessage { .. } => "The message can't be empty"@,
        DiagnosticView::MissingField { variable, .. } => "Missing a field for the variable '"@
            + variable + "'"@,
        DiagnosticView::UnusedField { .. } => "The field is not being used"@,
        DiagnosticView::DuplicateField { .. } => "The field has the name of an earlier field"@,
    }
}

impl Diagnostic {
    /// The text of this diagnostic, as it is reported.
    pub fn text(&self) -> (text: String)
        ensures
            text@ == text_of(self.deep_view()),
    {
        match self {
            Diagnostic::UnsupportedShape => "Only enums are supported.".to_owned(),
            Diagnostic::PositionalFields { .. } => "Only variants with named fields or without fields are supported".to_owned(),
            Diagnostic::MissingStatus { .. } => "Missing field `status`".to_owned(),
            Diagnostic::MissingMessage { .. } => "Missing field `message`".to_owned(),
            Diagnostic::EmptyMessage { .. } => "The message can't be empty".to_owned(),
            Diagnostic::MissingField { variable, .. } => {
                let mut text = "Missing a field for the variable '".to_owned();
                text.append(variable.as_str());
                text.append("'");
                text
            },
            Diagnostic::UnusedField { .. } => "The field is not being used".to_owned(),
            Diagnostic::DuplicateField { .. } => "The field has the name of an earlier field".to_owned(),
        }
    }

    /// The index of the variant at which this diagnostic is reported; none
    /// for a defect of the type as a whole.
    pub fn variant(&self) -> (variant: Option<usize>)
        ensures
            variant == match self.deep_view() {
                DiagnosticView::UnsupportedShape => None::<usize>,
                DiagnosticView::PositionalFields { variant } => Some(variant as usize),
                DiagnosticView::MissingStatus { variant } => Some(variant as usize),
                DiagnosticView::MissingMessage { variant } => Some(variant as usize),
                DiagnosticView::EmptyMessage { variant } => Some(variant as usize),
                DiagnosticView::MissingField { variant, .. } => Some(variant as usize),
                DiagnosticView::UnusedField { variant, .. } => Some(variant as usize),
                DiagnosticView::DuplicateField { variant, .. } => Some(variant as usize),
            },
    {
        match self {
            Diagnostic::UnsupportedShape => None,
            Diagnostic::PositionalFields { variant } => Some(*variant),
            Diagnostic::MissingStatus { variant } => Some(*variant),
            Diagnostic::MissingMessage { variant } => Some(*variant),
            Diagnostic::EmptyMessage { variant } => Some(*variant),
            Diagnostic::MissingField { variant, .. } => Some(*variant),
            Diagnostic::UnusedField { variant, .. } => Some(*variant),
            Diagnostic::DuplicateField { variant, .. } => Some(*variant),
        }
    }
}

} // verus!
