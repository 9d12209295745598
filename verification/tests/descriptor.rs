use error_info::declaration::{
    DeclarationBody, FieldDeclaration, TypeDeclaration, VariantDeclaration,
};
use error_info::descriptor::{process, ErrorInfo, ErrorType};
use error_info::status::StatusCode;

fn field(name: &str, ty: &str) -> FieldDeclaration {
    FieldDeclaration { name: Some(name.to_string()), ty: ty.to_string() }
}

fn variant(ident: &str, fields: Vec<FieldDeclaration>, status: u16, message: &str) -> VariantDeclaration {
    VariantDeclaration {
        ident: ident.to_string(),
        fields,
        status: StatusCode::from_u16(status),
        message: Some(message.to_string()),
    }
}

fn order_error() -> ErrorType {
    let declared = TypeDeclaration {
        ident: "OrderError".to_string(),
        generics: "<'a>".to_string(),
        body: DeclarationBody::Enum(vec![
            variant(
                "MissingField",
                vec![field("field", "&'a str"), field("kind", "Kind")],
                422,
                "Missing '{field}' of {kind}: {field}",
            ),
            variant("XMLHttpRequest", vec![], 502, "Upstream failed"),
            variant("NotFound", vec![field("id", "u64")], 404, "No order {id}"),
        ]),
    };
    process(&declared).ok().unwrap()
}

#[test]
fn a_processed_type_keeps_what_was_declared() {
    let ty = order_error();
    assert_eq!(ty.ident(), "OrderError");
    assert_eq!(ty.generics(), "<'a>");
    assert_eq!(ty.variants().len(), 3);
    let first = &ty.variants()[0];
    assert_eq!(first.ident(), "MissingField");
    assert_eq!(first.status().as_u16(), 422);
    assert_eq!(first.raw_message(), "Missing '{field}' of {kind}: {field}");
    assert_eq!(first.fields().len(), 2);
    assert_eq!(first.fields()[0].name, "field");
    assert_eq!(first.fields()[0].ty, "&'a str");
    assert_eq!(first.fields()[1].name, "kind");
    assert_eq!(first.fields()[1].ty, "Kind");
    assert!(ty.variants()[1].fields().is_empty());
}

#[test]
fn codes_are_the_upper_snake_case_of_the_identifier() {
    let ty = order_error();
    assert_eq!(ty.variants()[0].code(), "MISSING_FIELD");
    assert_eq!(ty.variants()[1].code(), "XML_HTTP_REQUEST");
    assert_eq!(ty.variants()[2].code(), "NOT_FOUND");
    assert_eq!(ty.registration_key(), "ORDER_ERROR");
}

#[test]
fn summaries_follow_the_declaration() {
    let ty = order_error();
    let summaries = ty.summaries();
    assert_eq!(summaries.len(), 3);
    assert_eq!(summaries[0].status.as_u16(), 422);
    assert_eq!(summaries[0].code, "MISSING_FIELD");
    assert_eq!(summaries[0].raw_message, "Missing '{field}' of {kind}: {field}");
    assert_eq!(summaries[1].status.as_u16(), 502);
    assert_eq!(summaries[1].code, "XML_HTTP_REQUEST");
    assert_eq!(summaries[1].raw_message, "Upstream failed");
    assert_eq!(summaries[2].status.as_u16(), 404);
    assert_eq!(summaries[2].code, "NOT_FOUND");
    assert_eq!(summaries[2].raw_message, "No order {id}");
}

#[test]
fn the_code_of_a_value_is_the_code_of_its_summary() {
    let ty = order_error();
    let summaries = ty.summaries();
    for (v, variant) in ty.variants().iter().enumerate() {
        let values = variant.fields().iter().map(|f| f.name.to_uppercase()).collect();
        let value = variant.value(values).unwrap();
        assert_eq!(value.code(), summaries[v].code);
        assert_eq!(value.code(), variant.summary().code);
        assert_eq!(value.status().as_u16(), summaries[v].status.as_u16());
        assert_eq!(value.raw_message(), summaries[v].raw_message);
        assert_eq!(value.raw_message(), variant.raw_message());
        assert_eq!(value.variant().ident(), variant.ident());
    }
}

#[test]
fn a_value_needs_one_value_for_each_field() {
    let ty = order_error();
    assert!(ty.variants()[0].value(vec!["id".to_string()]).is_none());
    assert!(ty.variants()[0].value(vec![]).is_none());
    assert!(ty.variants()[1].value(vec!["id".to_string()]).is_none());
    assert!(ty.variants()[1].value(vec![]).is_some());
    assert!(ty.variants()[0].value(vec!["id".to_string(), "order".to_string()]).is_some());
}

#[test]
fn the_message_holds_the_values_of_the_fields() {
    let ty = order_error();
    let value = ty.variants()[0].value(vec!["id".to_string(), "order".to_string()]).unwrap();
    assert_eq!(
        value.fields(),
        vec![
            ("field".to_string(), "id".to_string()),
            ("kind".to_string(), "order".to_string()),
        ]
    );
    assert_eq!(value.raw_message(), "Missing '{field}' of {kind}: {field}");
    assert_eq!(value.message(), "Missing 'id' of order: id");
}

#[test]
fn a_message_without_placeholders_is_left_as_it_is() {
    let ty = order_error();
    let value = ty.variants()[1].value(vec![]).unwrap();
    assert!(value.fields().is_empty());
    assert_eq!(value.message(), value.raw_message());
    assert_eq!(value.message(), "Upstream failed");
}

#[test]
fn a_copy_of_a_descriptor_is_the_same() {
    let ty = order_error();
    let copy = ty.variants()[2].duplicate();
    assert_eq!(copy.ident(), "NotFound");
    assert_eq!(copy.status().as_u16(), 404);
    assert_eq!(copy.raw_message(), "No order {id}");
    assert_eq!(copy.fields().len(), 1);
    assert_eq!(copy.fields()[0].name, "id");
    assert_eq!(copy.fields()[0].ty, "u64");
    assert_eq!(copy.code(), "NOT_FOUND");
}

#[test]
fn a_value_that_holds_a_placeholder_is_put_in_as_it_is() {
    let declared = |first: &str, second: &str| TypeDeclaration {
        ident: "Failure".to_string(),
        generics: String::new(),
        body: DeclarationBody::Enum(vec![variant(
            "Both",
            vec![field(first, "String"), field(second, "String")],
            400,
            "{a} {b}",
        )]),
    };
    let ty = process(&declared("a", "b")).ok().unwrap();
    let value = ty.variants()[0].value(vec!["{b}".to_string(), "x".to_string()]).unwrap();
    assert_eq!(value.message(), "{b} x");
    let ty = process(&declared("b", "a")).ok().unwrap();
    let value = ty.variants()[0].value(vec!["x".to_string(), "{b}".to_string()]).unwrap();
    assert_eq!(value.message(), "{b} x");
}
