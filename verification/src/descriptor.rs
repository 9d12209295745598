//! Checked error types: the descriptors of their variants, the summaries
//! that they give, and values of them with the accessors of `ErrorInfo`.

use crate::case::{code_of, shouty_snake_case};
use crate::declaration::{
    DeclarationBody, DeclarationBodyView, Diagnostic, FieldDeclaration, FieldDeclarationView,
    TypeDeclaration, TypeDeclarationView, VariantDeclarationView,
};
use crate::status::StatusCode;
use crate::template::{
    distinct_names, filled, lemma_filled_without_fields, lemma_value_of_field, placeholder_names,
    render, value_of,
};
use crate::validator::{
    declaration_diagnostics, field_names, lemma_validator_exact, name_of, sound_variant,
    template_matches, validate,
};
use vstd::prelude::*;

verus! {

/// A named field of a variant: its name and its declared type, which is
/// carried along and never read.
pub struct FieldDescriptor {
    pub name: String,
    pub ty: String,
}

/// What a `FieldDescriptor` holds.
pub struct FieldView {
    pub name: Seq<char>,
    pub ty: Seq<char>,
}

impl DeepView for FieldDescriptor {
    type V = FieldView;

    open spec fn deep_view(&self) -> FieldView {
        FieldView { name: self.name@, ty: self.ty@ }
    }
}

/// The names of fields, in order.
pub open spec fn names(fields: Seq<FieldView>) -> Seq<Seq<char>> {
    fields.map_values(|f: FieldView| f.name)
}

/// What a `VariantDescriptor` holds.
pub struct VariantView {
    pub ident: Seq<char>,
    pub fields: Seq<FieldView>,
    pub status: u16,
    pub message: Seq<char>,
}

/// The invariant of a variant descriptor: the placeholders of its message
/// are exactly the names of its fields, no two fields have the same name,
/// and the message is not empty.
pub open spec fn well_formed(variant: VariantView) -> bool {
    template_matches(variant.message, names(variant.fields))
}

/// The summary of a variant: its status, the code derived from its
/// identifier, and its message template as written.
pub open spec fn summary_of(variant: VariantView) -> SummaryView {
    SummaryView {
        status: variant.status,
        code: shouty_snake_case(variant.ident),
        raw_message: variant.message,
    }
}

/// The summary of one variant of an error type.
#[derive(Debug)]
pub struct ErrorInfoSummary {
    /// The status.
    pub status: StatusCode,
    /// The stable code.
    pub code: String,
    /// The message template; it may hold placeholders such as `{field}`.
    pub raw_message: String,
}

/// What an `ErrorInfoSummary` holds.
pub struct SummaryView {
    pub status: u16,
    pub code: Seq<char>,
    pub raw_message: Seq<char>,
}

impl DeepView for ErrorInfoSummary {
    type V = SummaryView;

    open spec fn deep_view(&self) -> SummaryView {
        SummaryView { status: self.status@, code: self.code@, raw_message: self.raw_message@ }
    }
}

impl View for ErrorInfoSummary {
    type V = SummaryView;

    open spec fn view(&self) -> SummaryView {
        self.deep_view()
    }
}

/// A checked variant of an error type. It keeps the stable code that was
/// derived from its identifier.
pub struct VariantDescriptor {
    ident: String,
    code: String,
    fields: Vec<FieldDescriptor>,
    status: StatusCode,
    message: String,
}

impl DeepView for VariantDescriptor {
    type V = VariantView;

    closed spec fn deep_view(&self) -> VariantView {
        VariantView {
            ident: self.ident@,
            fields: self.fields.deep_view(),
            status: self.status@,
            message: self.message@,
        }
    }
}

impl View for VariantDescriptor {
    type V = VariantView;

    open spec fn view(&self) -> VariantView {
        self.deep_view()
    }
}

/// A copy of `fields`.
fn copy_fields(fields: &Vec<FieldDescriptor>) -> (copy: Vec<FieldDescriptor>)
    ensures
        copy.deep_view() == fields.deep_view(),
{
    let mut copy: Vec<FieldDescriptor> = Vec::new();
    let mut f: usize = 0;
    while f < fields.len()
        invariant
            f <= fields.len(),
            copy.len() == f,
            forall|k: int| 0 <= k < f ==> copy@[k].deep_view() == fields@[k].deep_view(),
        decreases fields.len() - f,
    {
        copy.push(FieldDescriptor { name: fields[f].name.clone(), ty: fields[f].ty.clone() });
        f = f + 1;
    }
    assert(copy.deep_view() =~= fields.deep_view());
    copy
}

impl VariantDescriptor {
    #[verifier::type_invariant]
    spec fn checked(self) -> bool {
        &&& well_formed(self.deep_view())
        &&& self.code@ == shouty_snake_case(self.ident@)
    }

    /// The identifier of the variant.
    pub fn ident(&self) -> (ident: &str)
        ensures
            ident@ == self@.ident,
    {
        self.ident.as_str()
    }

    /// The fields of the variant, in the order of the declaration.
    pub fn fields(&self) -> (fields: &Vec<FieldDescriptor>)
        ensures
            fields.deep_view() == self@.fields,
            well_formed(self@),
    {
        proof {
            use_type_invariant(self);
        }
        &self.fields
    }

    /// The status of the variant.
    pub fn status(&self) -> (status: StatusCode)
        ensures
            status@ == self@.status,
            status@ == summary_of(self@).status,
    {
        self.status
    }

    /// The message template of the variant, as written.
    pub fn raw_message(&self) -> (raw: &str)
        ensures
            raw@ == self@.message,
            raw@ == summary_of(self@).raw_message,
            well_formed(self@),
    {
        proof {
            use_type_invariant(self);
        }
        self.message.as_str()
    }

    /// The stable code of the variant: the upper-snake-case form of its
    /// identifier.
    pub fn code(&self) -> (code: &str)
        ensures
            code@ == shouty_snake_case(self@.ident),
            code@ == summary_of(self@).code,
    {
        proof {
            use_type_invariant(self);
        }
        self.code.as_str()
    }

    /// The summary of the variant.
    pub fn summary(&self) -> (summary: ErrorInfoSummary)
        ensures
            summary@ == summary_of(self@),
    {
        proof {
            use_type_invariant(self);
        }
        ErrorInfoSummary {
            status: self.status,
            code: self.code.clone(),
            raw_message: self.message.clone(),
        }
    }

    /// A copy of this descriptor.
    pub fn duplicate(&self) -> (copy: VariantDescriptor)
        ensures
            copy@ == self@,
    {
        proof {
            use_type_invariant(self);
        }
        VariantDescriptor {
            ident: self.ident.clone(),
            code: self.code.clone(),
            fields: copy_fields(&self.fields),
            status: self.status,
            message: self.message.clone(),
        }
    }

    /// A value of this variant whose fields are bound to `values`, each given
    /// in its string form and in the order of the fields. There is one if
    /// and only if there is one value for each field.
    pub fn value(&self, values: Vec<String>) -> (value: Option<ErrorValue>)
        ensures
            value is Some <==> values.len() == self@.fields.len(),
            value matches Some(v) ==> v@ == (ValueView {
                variant: self@,
                values: values.deep_view(),
            }),
    {
        if values.len() == self.fields.len() {
            Some(ErrorValue { variant: self.duplicate(), values })
        } else {
            None
        }
    }
}

/// What an `ErrorValue` holds: its variant, and the string form of the value
/// of each field.
pub struct ValueView {
    pub variant: VariantView,
    pub values: Seq<Seq<char>>,
}

/// The fields of a value: each field's name with the string form of its
/// value, in the order of the fields.
pub open spec fn bindings(value: ValueView) -> Seq<(Seq<char>, Seq<char>)> {
    Seq::new(value.values.len(), |i: int| (value.variant.fields[i].name, value.values[i]))
}

/// A value of an error type: one of its variants with a value for each of
/// the variant's fields.
pub struct ErrorValue {
    variant: VariantDescriptor,
    values: Vec<String>,
}

impl View for ErrorValue {
    type V = ValueView;

    closed spec fn view(&self) -> ValueView {
        ValueView { variant: self.variant@, values: self.values.deep_view() }
    }
}

impl ErrorValue {
    #[verifier::type_invariant]
    spec fn bound(self) -> bool {
        self.values@.len() == self.variant@.fields.len()
    }

    /// The variant of this value.
    pub fn variant(&self) -> (variant: &VariantDescriptor)
        ensures
            variant@ == self@.variant,
            self@.values.len() == self@.variant.fields.len(),
    {
        proof {
            use_type_invariant(self);
        }
        &self.variant
    }
}

/// What every error value tells of itself. Types of errors implement the
/// four accessors; the final message is made from what they give.
pub trait ErrorInfo {
    /// The status of the error.
    fn status(&self) -> StatusCode;

    /// The stable code of the error.
    fn code(&self) -> &str;

    /// The message template of the error, without its fields substituted.
    fn raw_message(&self) -> &str;

    /// The fields that the message uses, each name with the string form of
    /// its value.
    fn fields(&self) -> Vec<(String, String)>;

    /// The final message: the template that `raw_message` gives, with every
    /// `{name}` placeholder replaced by the value that `fields` gives for
    /// `name`. The values are put in as they are.
    fn message(&self) -> (message: String)
        ensures
            exists|raw: &str, fields: Vec<(String, String)>|
                call_ensures(Self::raw_message, (self,), raw) && call_ensures(
                    Self::fields,
                    (self,),
                    fields,
                ) && message@ == filled(raw@, fields.deep_view()),
    {
        let raw = self.raw_message();
        let fields = self.fields();
        render(raw, &fields)
    }
}

impl ErrorInfo for ErrorValue {
    /// The status that the variant declares.
    fn status(&self) -> (status: StatusCode)
        ensures
            status@ == self@.variant.status,
            status@ == summary_of(self@.variant).status,
    {
        self.variant.status()
    }

    /// The upper-snake-case form of the variant's identifier.
    fn code(&self) -> (code: &str)
        ensures
            code@ == shouty_snake_case(self@.variant.ident),
            code@ == summary_of(self@.variant).code,
    {
        self.variant.code()
    }

    /// The message template of the variant, as written.
    fn raw_message(&self) -> (raw: &str)
        ensures
            raw@ == self@.variant.message,
            raw@ == summary_of(self@.variant).raw_message,
    {
        self.variant.raw_message()
    }

    /// Each field's name with the string form of its value, in the order of
    /// the fields. No name occurs twice.
    fn fields(&self) -> (fields: Vec<(String, String)>)
        ensures
            fields.deep_view() == bindings(self@),
            distinct_names(fields.deep_view()),
    {
        proof {
            use_type_invariant(self);
        }
        let declared = self.variant.fields();
        proof {
            lemma_bindings_distinct(self@);
        }
        let mut fields: Vec<(String, String)> = Vec::new();
        let mut f: usize = 0;
        while f < self.values.len()
            invariant
                f <= self.values.len(),
                self.values@.len() == declared@.len(),
                declared.deep_view() == self@.variant.fields,
                fields.len() == f,
                forall|k: int|
                    0 <= k < f ==> (#[trigger] fields@[k]).deep_view() == (
                        declared@[k].name@,
                        self.values@[k]@,
                    ),
            decreases self.values.len() - f,
        {
            fields.push((declared[f].name.clone(), self.values[f].clone()));
            f = f + 1;
        }
        assert(fields.deep_view() =~= bindings(self@)) by {
            assert forall|k: int| 0 <= k < fields.len() implies fields.deep_view()[k] == bindings(
                self@,
            )[k] by {
                assert(fields@[k].deep_view() == (declared@[k].name@, self.values@[k]@));
                assert(declared.deep_view()[k] == declared@[k].deep_view());
            }
        }
        fields
    }

    /// The message template with the value of every field in the place of
    /// its placeholders.
    fn message(&self) -> (message: String)
        ensures
            message@ == filled(self@.variant.message, bindings(self@)),
    {
        let raw = self.raw_message();
        let fields = self.fields();
        render(raw, &fields)
    }
}

/// What an `ErrorType` holds.
pub struct ErrorTypeView {
    pub ident: Seq<char>,
    pub generics: Seq<char>,
    pub variants: Seq<VariantView>,
}

/// The descriptor of a declared field.
pub open spec fn described_field(declared: FieldDeclarationView) -> FieldView {
    FieldView { name: name_of(declared), ty: declared.ty }
}

/// The descriptor of a declared variant that is sound.
pub open spec fn described_variant(declared: VariantDeclarationView) -> VariantView {
    VariantView {
        ident: declared.ident,
        fields: declared.fields.map_values(|f: FieldDeclarationView| described_field(f)),
        status: match declared.status {
            Some(status) => status,
            None => 0,
        },
        message: match declared.message {
            Some(message) => message,
            None => Seq::empty(),
        },
    }
}

/// The error type of a sound declaration: the identifier and the generic
/// parameters as written, and the descriptors of the variants in the order of
/// the declaration.
pub open spec fn described(declared: TypeDeclarationView) -> ErrorTypeView {
    ErrorTypeView {
        ident: declared.ident,
        generics: declared.generics,
        variants: match declared.body {
            DeclarationBodyView::Enum(variants) => variants.map_values(
                |v: VariantDeclarationView| described_variant(v),
            ),
            _ => Seq::empty(),
        },
    }
}

/// The summaries of an error type: one for each variant, in the order of the
/// declaration.
pub open spec fn summaries_of(ty: ErrorTypeView) -> Seq<SummaryView> {
    ty.variants.map_values(|v: VariantView| summary_of(v))
}

/// A checked error type: its identifier, its generic parameters, and its
/// variants in the order of the declaration.
pub struct ErrorType {
    ident: String,
    generics: String,
    variants: Vec<VariantDescriptor>,
}

impl DeepView for ErrorType {
    type V = ErrorTypeView;

    closed spec fn deep_view(&self) -> ErrorTypeView {
        ErrorTypeView {
            ident: self.ident@,
            generics: self.generics@,
            variants: self.variants.deep_view(),
        }
    }
}

impl View for ErrorType {
    type V = ErrorTypeView;

    open spec fn view(&self) -> ErrorTypeView {
        self.deep_view()
    }
}

impl ErrorType {
    /// The identifier of the type.
    pub fn ident(&self) -> (ident: &str)
        ensures
            ident@ == self@.ident,
    {
        self.ident.as_str()
    }

    /// The generic parameters of the type, as written.
    pub fn generics(&self) -> (generics: &str)
        ensures
            generics@ == self@.generics,
    {
        self.generics.as_str()
    }

    /// The variants of the type, in the order of the declaration.
    pub fn variants(&self) -> (variants: &Vec<VariantDescriptor>)
        ensures
            variants.deep_view() == self@.variants,
    {
        &self.variants
    }

    /// The key under which the type is registered: the upper-snake-case form
    /// of its identifier.
    pub fn registration_key(&self) -> (key: String)
        ensures
            key@ == shouty_snake_case(self@.ident),
    {
        code_of(self.ident.as_str())
    }

    /// The summaries of all variants, in the order of the declaration. No
    /// value of the type is needed for them.
    pub fn summaries(&self) -> (summaries: Vec<ErrorInfoSummary>)
        ensures
            summaries.deep_view() == summaries_of(self@),
    {
        let mut summaries: Vec<ErrorInfoSummary> = Vec::new();
        let mut v: usize = 0;
        while v < self.variants.len()
            invariant
                v <= self.variants.len(),
                summaries.len() == v,
                forall|k: int|
                    0 <= k < v ==> (#[trigger] summaries@[k])@ == summary_of(self.variants@[k]@),
            decreases self.variants.len() - v,
        {
            summaries.push(self.variants[v].summary());
            v = v + 1;
        }
        assert(summaries.deep_view() =~= summaries_of(self@));
        summaries
    }
}

/// The descriptors of declared fields.
fn describe_fields(declared: &Vec<FieldDeclaration>) -> (fields: Vec<FieldDescriptor>)
    ensures
        fields.deep_view() == declared.deep_view().map_values(
            |f: FieldDeclarationView| described_field(f),
        ),
        names(fields.deep_view()) == field_names(declared.deep_view()),
{
    let mut fields: Vec<FieldDescriptor> = Vec::new();
    let mut f: usize = 0;
    while f < declared.len()
        invariant
            f <= declared.len(),
            fields.len() == f,
            forall|k: int|
                0 <= k < f ==> (#[trigger] fields@[k]).deep_view() == described_field(
                    declared@[k].deep_view(),
                ),
        decreases declared.len() - f,
    {
        let name = match &declared[f].name {
            Some(name) => name.clone(),
            None => String::new(),
        };
        fields.push(FieldDescriptor { name, ty: declared[f].ty.clone() });
        f = f + 1;
    }
    assert(fields.deep_view() =~= declared.deep_view().map_values(
        |f: FieldDeclarationView| described_field(f),
    ));
    assert(names(fields.deep_view()) =~= field_names(declared.deep_view()));
    fields
}

/// Processes a declaration. A sound declaration gives its error type; any
/// other gives all its defects, as `validate` finds them.
pub fn process(declared: &TypeDeclaration) -> (outcome: Result<ErrorType, Vec<Diagnostic>>)
    ensures
        outcome is Ok <==> declaration_diagnostics(declared.deep_view()).len() == 0,
        outcome matches Ok(ty) ==> ty@ == described(declared.deep_view()),
        outcome matches Err(found) ==> found.deep_view() == declaration_diagnostics(
            declared.deep_view(),
        ),
{
    let found = validate(declared);
    match &declared.body {
        DeclarationBody::Enum(declarations) => {
            if found.len() > 0 {
                return Err(found);
            }
            let ghost all = declarations.deep_view();
            proof {
                lemma_validator_exact(declared.deep_view());
            }
            let mut variants: Vec<VariantDescriptor> = Vec::new();
            let mut v: usize = 0;
            while v < declarations.len()
                invariant
                    v <= declarations.len(),
                    all == declarations.deep_view(),
                    forall|k: int| 0 <= k < all.len() ==> sound_variant(#[trigger] all[k]),
                    variants.len() == v,
                    forall|k: int|
                        0 <= k < v ==> (#[trigger] variants@[k])@ == described_variant(all[k]),
                decreases declarations.len() - v,
            {
                let declaration = &declarations[v];
                assert(sound_variant(all[v as int]));
                assert(all[v as int] == declaration.deep_view());
                let fields = describe_fields(&declaration.fields);
                let variant = VariantDescriptor {
                    ident: declaration.ident.clone(),
                    code: code_of(declaration.ident.as_str()),
                    fields,
                    status: declaration.status.unwrap(),
                    message: declaration.message.as_ref().unwrap().clone(),
                };
                assert(variant@ == described_variant(all[v as int]));
                variants.push(variant);
                v = v + 1;
            }
            let ty = ErrorType {
                ident: declared.ident.clone(),
                generics: declared.generics.clone(),
                variants,
            };
            assert(ty@.variants =~= described(declared.deep_view()).variants);
            Ok(ty)
        },
        _ => Err(found),
    }
}

/// A value and the summary of its variant agree: the status, the code and
/// the message template that the accessors of a value give are those of the
/// summary that its type lists for the variant, and the code is the
/// upper-snake-case form of the variant's identifier.
pub proof fn lemma_value_agrees_with_summary(ty: ErrorTypeView, v: int, value: ValueView)
    requires
        0 <= v < ty.variants.len(),
        value.variant == ty.variants[v],
    ensures
        summaries_of(ty)[v] == summary_of(value.variant),
        summary_of(value.variant).code == shouty_snake_case(ty.variants[v].ident),
        summary_of(value.variant).status == ty.variants[v].status,
        summary_of(value.variant).raw_message == ty.variants[v].message,
{
}

/// The fields of a value of a checked variant have distinct names.
pub proof fn lemma_bindings_distinct(value: ValueView)
    requires
        well_formed(value.variant),
        value.values.len() == value.variant.fields.len(),
    ensures
        distinct_names(bindings(value)),
{
    let declared = names(value.variant.fields);
    assert forall|i: int, j: int|
        #![trigger bindings(value)[i], bindings(value)[j]]
        0 <= i < j < bindings(value).len() implies bindings(value)[i].0 != bindings(value)[j].0 by {
        assert(declared[i] != declared[j]);
    }
}

/// The final message of a value of a variant without fields is the message
/// template, unchanged.
pub proof fn lemma_message_without_fields(value: ValueView)
    requires
        value.variant.fields.len() == 0,
        value.values.len() == value.variant.fields.len(),
    ensures
        bindings(value).len() == 0,
        filled(value.variant.message, bindings(value)) == value.variant.message,
{
    assert(bindings(value) =~= Seq::<(Seq<char>, Seq<char>)>::empty());
    lemma_filled_without_fields(value.variant.message);
}

/// A message without placeholders belongs to a variant without fields, and
/// is its own final message.
pub proof fn lemma_message_without_placeholders(value: ValueView)
    requires
        well_formed(value.variant),
        value.values.len() == value.variant.fields.len(),
        placeholder_names(value.variant.message).len() == 0,
    ensures
        bindings(value).len() == 0,
        filled(value.variant.message, bindings(value)) == value.variant.message,
{
    let fields = names(value.variant.fields);
    if fields.len() > 0 {
        assert(placeholder_names(value.variant.message).contains(fields[0]));
    }
    lemma_message_without_fields(value);
}

/// In the final message of a value every placeholder is replaced by the
/// value of the field of its name: the fields give each placeholder of the
/// message a value, and the name of each field the value of that field.
pub proof fn lemma_message_fills_every_placeholder(value: ValueView)
    requires
        well_formed(value.variant),
        value.values.len() == value.variant.fields.len(),
    ensures
        forall|f: int|
            0 <= f < value.values.len() ==> value_of(
                bindings(value),
                (#[trigger] value.variant.fields[f]).name,
            ) == Some(value.values[f]),
        forall|k: int|
            0 <= k < placeholder_names(value.variant.message).len() ==> value_of(
                bindings(value),
                #[trigger] placeholder_names(value.variant.message)[k],
            ) is Some,
{
    let fields = bindings(value);
    let declared = names(value.variant.fields);
    let found = placeholder_names(value.variant.message);
    lemma_bindings_distinct(value);
    assert forall|f: int| 0 <= f < value.values.len() implies value_of(
        fields,
        (#[trigger] value.variant.fields[f]).name,
    ) == Some(value.values[f]) by {
        lemma_value_of_field(fields, f);
    }
    assert forall|k: int| 0 <= k < found.len() implies value_of(fields, #[trigger] found[k])
        is Some by {
        assert(declared.contains(found[k]));
        let f = choose|f: int| 0 <= f < declared.len() && declared[f] == found[k];
        assert(value.variant.fields[f].name == found[k]);
    }
}

} // verus!
