use error_info::declaration::{
    DeclarationBody, Diagnostic, FieldDeclaration, TypeDeclaration, VariantDeclaration,
};
use error_info::descriptor::process;
use error_info::status::StatusCode;
use error_info::validator::{check_template, contains_name, has_positional_field, names_of, validate};

fn strings(items: &[&str]) -> Vec<String> {
    items.iter().map(|s| s.to_string()).collect()
}

fn shown(found: &[Diagnostic]) -> Vec<String> {
    found.iter().map(|d| format!("{:?}", d)).collect()
}

fn field(name: &str) -> FieldDeclaration {
    FieldDeclaration { name: Some(name.to_string()), ty: "String".to_string() }
}

fn positional() -> FieldDeclaration {
    FieldDeclaration { name: None, ty: "String".to_string() }
}

fn variant(ident: &str, fields: Vec<FieldDeclaration>, status: Option<u16>, message: Option<&str>) -> VariantDeclaration {
    VariantDeclaration {
        ident: ident.to_string(),
        fields,
        status: status.map(|s| StatusCode::from_u16(s).unwrap()),
        message: message.map(|m| m.to_string()),
    }
}

fn declaration(variants: Vec<VariantDeclaration>) -> TypeDeclaration {
    TypeDeclaration {
        ident: "Failure".to_string(),
        generics: "<T: Clone>".to_string(),
        body: DeclarationBody::Enum(variants),
    }
}

#[test]
fn a_matching_template_has_no_defect() {
    assert!(check_template(0, "Bad request: {reason}", &strings(&["reason"])).is_empty());
    assert!(check_template(3, "Internal server error", &strings(&[])).is_empty());
    assert!(check_template(0, "{a}{b}{a}", &strings(&["b", "a"])).is_empty());
}

#[test]
fn an_empty_message_is_a_defect() {
    let found = check_template(2, "", &strings(&[]));
    assert_eq!(shown(&found), vec!["EmptyMessage { variant: 2 }".to_string()]);
    assert_eq!(found[0].text(), "The message can't be empty");
    assert_eq!(found[0].variant(), Some(2));
}

#[test]
fn a_placeholder_without_field_is_a_defect() {
    let found = check_template(1, "Bad request: {reason}", &strings(&[]));
    assert_eq!(
        shown(&found),
        vec!["MissingField { variant: 1, variable: \"reason\" }".to_string()]
    );
    assert_eq!(found[0].text(), "Missing a field for the variable 'reason'");
}

#[test]
fn a_field_without_placeholder_is_a_defect() {
    let found = check_template(1, "Bad request", &strings(&["reason"]));
    assert_eq!(shown(&found), vec!["UnusedField { variant: 1, field: 0 }".to_string()]);
    assert_eq!(found[0].text(), "The field is not being used");
}

#[test]
fn all_defects_of_a_template_are_collected_in_order() {
    let found = check_template(4, "{x} {reason} {x}", &strings(&["unused", "reason", "other"]));
    assert_eq!(
        shown(&found),
        vec![
            "MissingField { variant: 4, variable: \"x\" }".to_string(),
            "MissingField { variant: 4, variable: \"x\" }".to_string(),
            "UnusedField { variant: 4, field: 0 }".to_string(),
            "UnusedField { variant: 4, field: 2 }".to_string(),
        ]
    );
}

#[test]
fn an_empty_message_leaves_every_field_unused() {
    let found = check_template(0, "", &strings(&["reason"]));
    assert_eq!(
        shown(&found),
        vec![
            "EmptyMessage { variant: 0 }".to_string(),
            "UnusedField { variant: 0, field: 0 }".to_string(),
        ]
    );
}

#[test]
fn a_name_that_stands_twice_is_a_defect() {
    let found = check_template(1, "{a} {b}", &strings(&["a", "b", "a", "a"]));
    assert_eq!(
        shown(&found),
        vec![
            "DuplicateField { variant: 1, field: 2 }".to_string(),
            "DuplicateField { variant: 1, field: 3 }".to_string(),
        ]
    );
    assert_eq!(found[0].text(), "The field has the name of an earlier field");
    assert_eq!(found[0].variant(), Some(1));
}

#[test]
fn a_name_that_stands_twice_comes_after_the_other_defects() {
    let found = check_template(0, "", &strings(&["a", "a"]));
    assert_eq!(
        shown(&found),
        vec![
            "EmptyMessage { variant: 0 }".to_string(),
            "UnusedField { variant: 0, field: 0 }".to_string(),
            "UnusedField { variant: 0, field: 1 }".to_string(),
            "DuplicateField { variant: 0, field: 1 }".to_string(),
        ]
    );
}

#[test]
fn two_fields_of_one_name_fail_to_process() {
    let declared = declaration(vec![variant(
        "BadRequest",
        vec![field("a"), field("a")],
        Some(400),
        Some("{a}"),
    )]);
    let found = process(&declared).err().unwrap();
    assert_eq!(shown(&found), vec!["DuplicateField { variant: 0, field: 1 }".to_string()]);
}

#[test]
fn names_are_looked_up_exactly() {
    let list = strings(&["reason", "kind"]);
    assert!(contains_name(&list, &"kind".to_string()));
    assert!(!contains_name(&list, &"Kind".to_string()));
    assert!(!contains_name(&list, &"".to_string()));
    assert!(!contains_name(&Vec::new(), &"kind".to_string()));
}

#[test]
fn positional_fields_are_recognised() {
    assert!(!has_positional_field(&vec![]));
    assert!(!has_positional_field(&vec![field("a"), field("b")]));
    assert!(has_positional_field(&vec![field("a"), positional()]));
    assert_eq!(names_of(&vec![field("a"), positional(), field("b")]), strings(&["a", "", "b"]));
}

#[test]
fn a_sound_declaration_has_no_defect() {
    let declared = declaration(vec![
        variant("BadRequest", vec![field("reason")], Some(400), Some("Bad request: {reason}")),
        variant("InternalServerError", vec![], Some(500), Some("Internal server error")),
    ]);
    assert!(validate(&declared).is_empty());
    assert!(process(&declared).is_ok());
}

#[test]
fn a_type_that_is_no_enum_is_rejected() {
    for body in [DeclarationBody::Struct, DeclarationBody::Union] {
        let declared =
            TypeDeclaration { ident: "Failure".to_string(), generics: String::new(), body };
        let found = validate(&declared);
        assert_eq!(shown(&found), vec!["UnsupportedShape".to_string()]);
        assert_eq!(found[0].text(), "Only enums are supported.");
        assert_eq!(found[0].variant(), None);
        assert!(process(&declared).is_err());
    }
}

#[test]
fn positional_fields_are_rejected_before_anything_else() {
    let declared = declaration(vec![
        variant("First", vec![positional()], Some(400), Some("{0}")),
        variant("Second", vec![field("unused")], None, Some("")),
        variant("Third", vec![field("a"), positional()], Some(500), None),
    ]);
    let found = validate(&declared);
    assert_eq!(
        shown(&found),
        vec![
            "PositionalFields { variant: 0 }".to_string(),
            "PositionalFields { variant: 2 }".to_string(),
        ]
    );
    assert_eq!(shown(&process(&declared).err().unwrap()), shown(&found));
}

#[test]
fn missing_attributes_are_defects() {
    let declared = declaration(vec![
        variant("First", vec![], None, Some("First")),
        variant("Second", vec![field("a")], Some(400), None),
        variant("Third", vec![], None, None),
    ]);
    let found = validate(&declared);
    assert_eq!(
        shown(&found),
        vec![
            "MissingStatus { variant: 0 }".to_string(),
            "MissingMessage { variant: 1 }".to_string(),
            "MissingStatus { variant: 2 }".to_string(),
            "MissingMessage { variant: 2 }".to_string(),
        ]
    );
    assert_eq!(found[0].text(), "Missing field `status`");
    assert_eq!(found[1].text(), "Missing field `message`");
}

#[test]
fn the_defects_of_all_variants_are_reported_together() {
    let declared = declaration(vec![
        variant("First", vec![field("reason")], Some(400), Some("Bad request")),
        variant("Second", vec![], Some(500), Some("Internal server error")),
        variant("Third", vec![], Some(404), Some("No {thing}")),
        variant("Fourth", vec![], Some(500), Some("")),
    ]);
    let found = process(&declared).err().unwrap();
    assert_eq!(
        shown(&found),
        vec![
            "UnusedField { variant: 0, field: 0 }".to_string(),
            "MissingField { variant: 2, variable: \"thing\" }".to_string(),
            "EmptyMessage { variant: 3 }".to_string(),
        ]
    );
}

#[test]
fn an_unused_field_fails_to_process() {
    let declared = declaration(vec![variant(
        "BadRequest",
        vec![field("reason"), field("detail")],
        Some(400),
        Some("Bad request: {reason}"),
    )]);
    assert!(process(&declared).is_err());
}

#[test]
fn a_placeholder_without_field_fails_to_process() {
    let declared = declaration(vec![variant(
        "BadRequest",
        vec![field("reason")],
        Some(400),
        Some("Bad request: {reason} {detail}"),
    )]);
    assert!(process(&declared).is_err());
}

#[test]
fn an_enum_without_variants_is_sound() {
    let declared = declaration(vec![]);
    assert!(validate(&declared).is_empty());
    let ty = process(&declared).ok().unwrap();
    assert!(ty.variants().is_empty());
    assert!(ty.summaries().is_empty());
}
