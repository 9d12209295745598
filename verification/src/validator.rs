//! Checking a declaration: every placeholder of a message needs a field of
//! that name, every field needs a placeholder, and no two fields of a variant
//! have the same name. All defects are collected.

use crate::declaration::{
    DeclarationBody, DeclarationBodyView, Diagnostic, DiagnosticView, FieldDeclaration,
    FieldDeclarationView, TypeDeclaration, TypeDeclarationView, VariantDeclarationView,
};
use crate::template::{placeholder_names, placeholders};
use vstd::prelude::*;

verus! {

/// The indices below `n`, in order.
pub open spec fn indices(n: nat) -> Seq<int> {
    Seq::new(n, |i: int| i)
}

/// The defect, if any, of one placeholder `name` of the variant `variant`
/// whose fields are named `fields`.
pub open spec fn missing_field(variant: int, fields: Seq<Seq<char>>) -> spec_fn(Seq<char>) -> Option<
    DiagnosticView,
> {
    |name: Seq<char>|
        if fields.contains(name) {
            None
        } else {
            Some(DiagnosticView::MissingField { variant, variable: name })
        }
}

/// The defect, if any, of the field with index `field` of the variant
/// `variant` whose message has the placeholders `names`.
pub open spec fn unused_field(variant: int, names: Seq<Seq<char>>, fields: Seq<Seq<char>>) -> spec_fn(
    int,
) -> Option<DiagnosticView> {
    |field: int|
        if names.contains(fields[field]) {
            None
        } else {
            Some(DiagnosticView::UnusedField { variant, field })
        }
}

/// The defect, if any, of the name of the field with index `field`: an
/// earlier field of the variant has the same name.
pub open spec fn duplicate_field(variant: int, fields: Seq<Seq<char>>) -> spec_fn(int) -> Option<
    DiagnosticView,
> {
    |field: int|
        if fields.take(field).contains(fields[field]) {
            Some(DiagnosticView::DuplicateField { variant, field })
        } else {
            None
        }
}

/// The defect of an empty message.
pub open spec fn empty_message(variant: int, message: Seq<char>) -> Seq<DiagnosticView> {
    if message.len() == 0 {
        seq![DiagnosticView::EmptyMessage { variant }]
    } else {
        Seq::empty()
    }
}

/// The defects of the message template of one variant, given the names of
/// its fields: first an empty message; then, for each placeholder in the
/// order of the text and once for each occurrence, a missing field; then,
/// for each field in order, that the message does not use it; then, for
/// each field in order, that an earlier field has its name.
pub open spec fn template_diagnostics(variant: int, message: Seq<char>, fields: Seq<Seq<char>>) -> Seq<
    DiagnosticView,
> {
    let names = placeholder_names(message);
    empty_message(variant, message) + names.filter_map(missing_field(variant, fields)) + indices(
        fields.len(),
    ).filter_map(unused_field(variant, names, fields)) + indices(fields.len()).filter_map(
        duplicate_field(variant, fields),
    )
}

/// Whether a name before index `at` of `list` is the name at `at`.
fn stands_before(list: &Vec<String>, at: usize) -> (found: bool)
    requires
        at < list.len(),
    ensures
        found == list.deep_view().take(at as int).contains(list.deep_view()[at as int]),
{
    let ghost earlier = list.deep_view().take(at as int);
    let ghost name = list.deep_view()[at as int];
    let mut i: usize = 0;
    while i < at
        invariant
            i <= at < list.len(),
            earlier == list.deep_view().take(at as int),
            name == list.deep_view()[at as int],
            forall|k: int| 0 <= k < i ==> earlier[k] != name,
        decreases at - i,
    {
        if list[i] == list[at] {
            assert(earlier[i as int] == name);
            return true;
        }
        i = i + 1;
    }
    false
}

/// Whether `list` holds `name`.
pub fn contains_name(list: &Vec<String>, name: &String) -> (found: bool)
    ensures
        found == list.deep_view().contains(name@),
{
    let mut i: usize = 0;
    while i < list.len()
        invariant
            i <= list.len(),
            forall|k: int| 0 <= k < i ==> list.deep_view()[k] != name@,
        decreases list.len() - i,
    {
        if list[i] == *name {
            assert(list.deep_view()[i as int] == name@);
            return true;
        }
        i = i + 1;
    }
    false
}

/// Checks the message template of the variant with index `variant` against
/// the names of its fields, and gives every defect found.
pub fn check_template(variant: usize, message: &str, fields: &Vec<String>) -> (found: Vec<
    Diagnostic,
>)
    ensures
        found.deep_view() == template_diagnostics(variant as int, message@, fields.deep_view()),
{
    let mut found: Vec<Diagnostic> = Vec::new();
    if message.is_empty() {
        found.push(Diagnostic::EmptyMessage { variant });
    }
    let names = placeholders(message);
    let ghost v = variant as int;
    let ghost all_names = names.deep_view();
    let ghost all_fields = fields.deep_view();
    let ghost first = empty_message(v, message@);
    let ghost missing = missing_field(v, all_fields);
    let ghost unused = unused_field(v, all_names, all_fields);
    assert(found.deep_view() =~= first);
    assert(all_names.take(0).filter_map(missing) =~= Seq::<DiagnosticView>::empty());
    let mut i: usize = 0;
    while i < names.len()
        invariant
            i <= names.len(),
            all_names == names.deep_view(),
            all_fields == fields.deep_view(),
            missing == missing_field(v, all_fields),
            v == variant as int,
            found.deep_view() == first + all_names.take(i as int).filter_map(missing),
        decreases names.len() - i,
    {
        let ghost before = found.deep_view();
        proof {
            all_names.lemma_filter_map_take_succ(missing, i as int);
            assert(all_names[i as int] == names@[i as int]@);
        }
        if !contains_name(fields, &names[i]) {
            found.push(Diagnostic::MissingField { variant, variable: names[i].clone() });
            assert(found.deep_view() =~= before.push(
                DiagnosticView::MissingField { variant: v, variable: all_names[i as int] },
            ));
        }
        i = i + 1;
    }
    assert(all_names.take(names.len() as int) =~= all_names);
    let ghost second = first + all_names.filter_map(missing);
    let ghost places = indices(all_fields.len());
    assert(places.take(0).filter_map(unused) =~= Seq::<DiagnosticView>::empty());
    let mut f: usize = 0;
    while f < fields.len()
        invariant
            f <= fields.len(),
            all_names == names.deep_view(),
            all_fields == fields.deep_view(),
            places == indices(all_fields.len()),
            unused == unused_field(v, all_names, all_fields),
            v == variant as int,
            found.deep_view() == second + places.take(f as int).filter_map(unused),
        decreases fields.len() - f,
    {
        let ghost before = found.deep_view();
        proof {
            places.lemma_filter_map_take_succ(unused, f as int);
            assert(all_fields[f as int] == fields@[f as int]@);
        }
        if !contains_name(&names, &fields[f]) {
            found.push(Diagnostic::UnusedField { variant, field: f });
            assert(found.deep_view() =~= before.push(
                DiagnosticView::UnusedField { variant: v, field: f as int },
            ));
        }
        f = f + 1;
    }
    assert(places.take(fields.len() as int) =~= places);
    let ghost third = second + places.filter_map(unused);
    let ghost twice = duplicate_field(v, all_fields);
    assert(places.take(0).filter_map(twice) =~= Seq::<DiagnosticView>::empty());
    let mut f: usize = 0;
    while f < fields.len()
        invariant
            f <= fields.len(),
            all_fields == fields.deep_view(),
            places == indices(all_fields.len()),
            twice == duplicate_field(v, all_fields),
            v == variant as int,
            found.deep_view() == third + places.take(f as int).filter_map(twice),
        decreases fields.len() - f,
    {
        let ghost before = found.deep_view();
        proof {
            places.lemma_filter_map_take_succ(twice, f as int);
        }
        if stands_before(fields, f) {
            found.push(Diagnostic::DuplicateField { variant, field: f });
            assert(found.deep_view() =~= before.push(
                DiagnosticView::DuplicateField { variant: v, field: f as int },
            ));
        }
        f = f + 1;
    }
    assert(places.take(fields.len() as int) =~= places);
    found
}

/// Some field of `fields` has no name.
pub open spec fn has_positional(fields: Seq<FieldDeclarationView>) -> bool {
    exists|f: int| 0 <= f < fields.len() && (#[trigger] fields[f]).name is None
}

/// The defect, if any, of the shape of the variant with index `variant`.
pub open spec fn positional_variant(variants: Seq<VariantDeclarationView>) -> spec_fn(int) -> Option<
    DiagnosticView,
> {
    |variant: int|
        if has_positional(variants[variant].fields) {
            Some(DiagnosticView::PositionalFields { variant })
        } else {
            None
        }
}

/// The name of a declared field; the empty text for a positional one.
pub open spec fn name_of(field: FieldDeclarationView) -> Seq<char> {
    match field.name {
        Some(name) => name,
        None => Seq::empty(),
    }
}

/// The names of declared fields, in order.
pub open spec fn field_names(fields: Seq<FieldDeclarationView>) -> Seq<Seq<char>> {
    fields.map_values(|f: FieldDeclarationView| name_of(f))
}

/// The defect of a missing status.
pub open spec fn missing_status(variant: int, status: Option<u16>) -> Seq<DiagnosticView> {
    if status is None {
        seq![DiagnosticView::MissingStatus { variant }]
    } else {
        Seq::empty()
    }
}

/// The defects of the variant with index `variant` whose fields all have
/// names: a missing status, then a missing message or the defects of the
/// message template.
pub open spec fn variant_diagnostics(variants: Seq<VariantDeclarationView>) -> spec_fn(int) -> Seq<
    DiagnosticView,
> {
    |variant: int|
        {
            let declared = variants[variant];
            missing_status(variant, declared.status) + match declared.message {
                None => seq![DiagnosticView::MissingMessage { variant }],
                Some(message) => template_diagnostics(
                    variant,
                    message,
                    field_names(declared.fields),
                ),
            }
        }
}

/// The defects of the declared shapes: one for each variant with a
/// positional field, in order.
pub open spec fn shape_diagnostics(variants: Seq<VariantDeclarationView>) -> Seq<DiagnosticView> {
    indices(variants.len()).filter_map(positional_variant(variants))
}

/// All defects of a declaration. A type that is no enum has one defect, its
/// shape. An enum with positional fields has one defect for each variant
/// that holds one, and nothing else is looked at. Otherwise the defects of
/// all variants are collected, variant by variant.
pub open spec fn declaration_diagnostics(declared: TypeDeclarationView) -> Seq<DiagnosticView> {
    match declared.body {
        DeclarationBodyView::Enum(variants) => {
            if shape_diagnostics(variants).len() > 0 {
                shape_diagnostics(variants)
            } else {
                indices(variants.len()).flat_map(variant_diagnostics(variants))
            }
        },
        _ => seq![DiagnosticView::UnsupportedShape],
    }
}

/// Whether some field has no name.
pub fn has_positional_field(fields: &Vec<FieldDeclaration>) -> (found: bool)
    ensures
        found == has_positional(fields.deep_view()),
{
    let mut f: usize = 0;
    while f < fields.len()
        invariant
            f <= fields.len(),
            forall|k: int| 0 <= k < f ==> (#[trigger] fields.deep_view()[k]).name is Some,
        decreases fields.len() - f,
    {
        if fields[f].name.is_none() {
            assert(fields.deep_view()[f as int].name is None);
            return true;
        }
        f = f + 1;
    }
    false
}

/// The names of the declared fields, in order; the empty text stands for a
/// positional field.
pub fn names_of(fields: &Vec<FieldDeclaration>) -> (names: Vec<String>)
    ensures
        names.deep_view() == field_names(fields.deep_view()),
{
    let mut names: Vec<String> = Vec::new();
    let mut f: usize = 0;
    while f < fields.len()
        invariant
            f <= fields.len(),
            names.len() == f,
            forall|k: int| 0 <= k < f ==> names@[k]@ == name_of(#[trigger] fields.deep_view()[k]),
        decreases fields.len() - f,
    {
        let name = match &fields[f].name {
            Some(name) => name.clone(),
            None => String::new(),
        };
        assert(name@ == name_of(fields.deep_view()[f as int]));
        names.push(name);
        f = f + 1;
    }
    assert(names.deep_view() =~= field_names(fields.deep_view()));
    names
}

/// Checks a declaration and gives every defect found, in the order of the
/// declaration. An empty result means that the declaration is sound.
pub fn validate(declared: &TypeDeclaration) -> (found: Vec<Diagnostic>)
    ensures
        found.deep_view() == declaration_diagnostics(declared.deep_view()),
{
    let mut found: Vec<Diagnostic> = Vec::new();
    match &declared.body {
        DeclarationBody::Enum(variants) => {
            let ghost all = variants.deep_view();
            let ghost places = indices(all.len());
            let ghost shape = positional_variant(all);
            let ghost each = variant_diagnostics(all);
            assert(places.take(0).filter_map(shape) =~= Seq::<DiagnosticView>::empty());
            let mut v: usize = 0;
            while v < variants.len()
                invariant
                    v <= variants.len(),
                    all == variants.deep_view(),
                    places == indices(all.len()),
                    shape == positional_variant(all),
                    found.deep_view() == places.take(v as int).filter_map(shape),
                decreases variants.len() - v,
            {
                let ghost before = found.deep_view();
                proof {
                    places.lemma_filter_map_take_succ(shape, v as int);
                    assert(all[v as int] == variants@[v as int].deep_view());
                }
                if has_positional_field(&variants[v].fields) {
                    found.push(Diagnostic::PositionalFields { variant: v });
                    assert(found.deep_view() =~= before.push(
                        DiagnosticView::PositionalFields { variant: v as int },
                    ));
                }
                v = v + 1;
            }
            assert(places.take(variants.len() as int) =~= places);
            if found.len() > 0 {
                return found;
            }
            assert(places.take(0).flat_map(each) =~= Seq::<DiagnosticView>::empty()) by {
                assert(places.take(0).map_values(each) =~= Seq::<Seq<DiagnosticView>>::empty());
            }
            let mut v: usize = 0;
            while v < variants.len()
                invariant
                    v <= variants.len(),
                    all == variants.deep_view(),
                    places == indices(all.len()),
                    each == variant_diagnostics(all),
                    found.deep_view() == places.take(v as int).flat_map(each),
                decreases variants.len() - v,
            {
                let ghost before = found.deep_view();
                let ghost declared_view = all[v as int];
                proof {
                    places.lemma_flat_map_take_append(each, v as int);
                    assert(declared_view == variants@[v as int].deep_view());
                }
                let variant = &variants[v];
                if variant.status.is_none() {
                    found.push(Diagnostic::MissingStatus { variant: v });
                }
                assert(found.deep_view() =~= before + missing_status(
                    v as int,
                    declared_view.status,
                ));
                let ghost middle = found.deep_view();
                match &variant.message {
                    None => {
                        found.push(Diagnostic::MissingMessage { variant: v });
                        assert(found.deep_view() =~= middle + seq![
                            DiagnosticView::MissingMessage { variant: v as int },
                        ]);
                    },
                    Some(message) => {
                        let names = names_of(&variant.fields);
                        let mut defects = check_template(v, message.as_str(), &names);
                        let ghost added = defects.deep_view();
                        found.append(&mut defects);
                        assert(found.deep_view() =~= middle + added);
                    },
                }
                assert(found.deep_view() =~= before + each(v as int));
                v = v + 1;
            }
            assert(places.take(variants.len() as int) =~= places);
            found
        },
        _ => {
            found.push(Diagnostic::UnsupportedShape);
            assert(found.deep_view() =~= seq![DiagnosticView::UnsupportedShape]);
            found
        },
    }
}

/// A message and the names of the fields of its variant correspond: the
/// message is not empty, every placeholder names a field, every field is
/// named by a placeholder, and no two fields have the same name.
pub open spec fn template_matches(message: Seq<char>, fields: Seq<Seq<char>>) -> bool {
    let names = placeholder_names(message);
    &&& message.len() > 0
    &&& forall|i: int| 0 <= i < names.len() ==> fields.contains(#[trigger] names[i])
    &&& forall|f: int| 0 <= f < fields.len() ==> names.contains(#[trigger] fields[f])
    &&& forall|e: int, f: int|
        #![trigger fields[e], fields[f]]
        0 <= e < f < fields.len() ==> fields[e] != fields[f]
}

/// Nothing comes out of `filter_map` exactly when `f` gives nothing for
/// every element.
pub proof fn lemma_filter_map_empty<A, B>(s: Seq<A>, f: spec_fn(A) -> Option<B>)
    ensures
        s.filter_map(f).len() == 0 <==> forall|i: int|
            0 <= i < s.len() ==> f(#[trigger] s[i]) is None,
    decreases s.len(),
{
    if s.len() > 0 {
        let rest = s.drop_last();
        lemma_filter_map_empty(rest, f);
        assert(forall|i: int| 0 <= i < rest.len() ==> rest[i] == s[i]);
        if s.filter_map(f).len() == 0 {
            assert(f(s.last()) is None);
            assert forall|i: int| 0 <= i < s.len() implies f(#[trigger] s[i]) is None by {
                if i < rest.len() {
                    assert(rest[i] == s[i]);
                }
            }
        }
        if forall|i: int| 0 <= i < s.len() ==> f(#[trigger] s[i]) is None {
            assert(f(s[s.len() - 1]) is None);
            assert forall|i: int| 0 <= i < rest.len() implies f(#[trigger] rest[i]) is None by {
                assert(rest[i] == s[i]);
            }
        }
    }
}

/// Nothing comes out of `flat_map` exactly when `f` gives nothing for every
/// element.
pub proof fn lemma_flat_map_empty<A, B>(s: Seq<A>, f: spec_fn(A) -> Seq<B>)
    ensures
        s.flat_map(f).len() == 0 <==> forall|i: int|
            0 <= i < s.len() ==> f(#[trigger] s[i]).len() == 0,
    decreases s.len(),
{
    if s.len() == 0 {
        assert(s.map_values(f) =~= Seq::<Seq<B>>::empty());
    } else {
        let rest = s.drop_last();
        lemma_flat_map_empty(rest, f);
        rest.lemma_flat_map_push(f, s.last());
        assert(rest.push(s.last()) =~= s);
        assert(forall|i: int| 0 <= i < rest.len() ==> rest[i] == s[i]);
        if s.flat_map(f).len() == 0 {
            assert forall|i: int| 0 <= i < s.len() implies f(#[trigger] s[i]).len() == 0 by {
                if i < rest.len() {
                    assert(rest[i] == s[i]);
                }
            }
        }
        if forall|i: int| 0 <= i < s.len() ==> f(#[trigger] s[i]).len() == 0 {
            assert(f(s[s.len() - 1]).len() == 0);
            assert forall|i: int| 0 <= i < rest.len() implies f(#[trigger] rest[i]).len()
                == 0 by {
                assert(rest[i] == s[i]);
            }
        }
    }
}

/// The validator is complete and exact: it finds no defect in a message and
/// its field names exactly when the message is not empty, every placeholder
/// has a field of its name, every field is used by a placeholder, and no
/// name stands for two fields.
pub proof fn lemma_template_sound(variant: int, message: Seq<char>, fields: Seq<Seq<char>>)
    ensures
        template_diagnostics(variant, message, fields).len() == 0 <==> template_matches(
            message,
            fields,
        ),
{
    let names = placeholder_names(message);
    let places = indices(fields.len());
    let missing = missing_field(variant, fields);
    let unused = unused_field(variant, names, fields);
    let twice = duplicate_field(variant, fields);
    lemma_filter_map_empty(names, missing);
    lemma_filter_map_empty(places, unused);
    lemma_filter_map_empty(places, twice);
    if template_diagnostics(variant, message, fields).len() == 0 {
        assert forall|e: int, f: int|
            #![trigger fields[e], fields[f]]
            0 <= e < f < fields.len() implies fields[e] != fields[f] by {
            assert(twice(places[f]) is None);
            assert(fields.take(f)[e] == fields[e]);
        }
        assert forall|i: int| 0 <= i < names.len() implies fields.contains(
            #[trigger] names[i],
        ) by {
            assert(missing(names[i]) is None);
        }
        assert forall|f: int| 0 <= f < fields.len() implies names.contains(
            #[trigger] fields[f],
        ) by {
            assert(unused(places[f]) is None);
        }
    }
    if template_matches(message, fields) {
        assert forall|i: int| 0 <= i < names.len() implies missing(#[trigger] names[i]) is None by {
            assert(fields.contains(names[i]));
        }
        assert forall|f: int| 0 <= f < places.len() implies unused(#[trigger] places[f]) is None by {
            assert(names.contains(fields[f]));
        }
        assert forall|f: int| 0 <= f < places.len() implies twice(#[trigger] places[f]) is None by {
            if fields.take(f).contains(fields[f]) {
                let e = choose|e: int| 0 <= e < fields.take(f).len() && fields.take(f)[e] == fields[f];
                assert(fields[e] != fields[f]);
            }
        }
    }
}

/// A declared variant is sound: all its fields have names, it declares a
/// status and a message, and the message corresponds to the fields.
pub open spec fn sound_variant(declared: VariantDeclarationView) -> bool {
    &&& !has_positional(declared.fields)
    &&& declared.status is Some
    &&& declared.message matches Some(message) && template_matches(
        message,
        field_names(declared.fields),
    )
}

/// A declaration is sound: it is an enum and each of its variants is sound.
pub open spec fn sound_declaration(declared: TypeDeclarationView) -> bool {
    declared.body matches DeclarationBodyView::Enum(variants) && forall|v: int|
        0 <= v < variants.len() ==> sound_variant(#[trigger] variants[v])
}

/// The validator rejects exactly the declarations that are not sound: it
/// finds no defect if and only if the type is an enum whose variants all have
/// named fields only, each name once, a status, and a message that is not
/// empty, names a field with each placeholder and uses every field.
pub proof fn lemma_validator_exact(declared: TypeDeclarationView)
    ensures
        declaration_diagnostics(declared).len() == 0 <==> sound_declaration(declared),
{
    if let DeclarationBodyView::Enum(variants) = declared.body {
        let places = indices(variants.len());
        let shape = positional_variant(variants);
        let each = variant_diagnostics(variants);
        lemma_filter_map_empty(places, shape);
        lemma_flat_map_empty(places, each);
        assert forall|v: int| 0 <= v < variants.len() implies (each(v).len() == 0 <==> (
            (#[trigger] variants[v]).status is Some && variants[v].message is Some
                && template_matches(variants[v].message->0, field_names(variants[v].fields)))) by {
            if let Some(message) = variants[v].message {
                lemma_template_sound(v, message, field_names(variants[v].fields));
            }
        }
        if declaration_diagnostics(declared).len() == 0 {
            assert forall|v: int| 0 <= v < variants.len() implies sound_variant(
                #[trigger] variants[v],
            ) by {
                assert(shape(places[v]) is None);
                assert(each(places[v]).len() == 0);
            }
        }
        if sound_declaration(declared) {
            assert forall|v: int| 0 <= v < places.len() implies shape(#[trigger] places[v])
                is None by {
                assert(sound_variant(variants[v]));
            }
            assert forall|v: int| 0 <= v < places.len() implies each(#[trigger] places[v]).len()
                == 0 by {
                assert(sound_variant(variants[v]));
            }
        }
    }
}

} // verus!
