use error_info::declaration::{DeclarationBody, TypeDeclaration, VariantDeclaration};
use error_info::descriptor::{process, ErrorInfoSummary, ErrorType};
use error_info::registry::{comes_before, sort_summaries, summary, Registry};
use error_info::status::StatusCode;

fn entry(status: u16, code: &str, raw_message: &str) -> ErrorInfoSummary {
    ErrorInfoSummary {
        status: StatusCode::from_u16(status).unwrap(),
        code: code.to_string(),
        raw_message: raw_message.to_string(),
    }
}

fn shown(entries: &[ErrorInfoSummary]) -> Vec<(u16, String, String)> {
    entries.iter().map(|e| (e.status.as_u16(), e.code.clone(), e.raw_message.clone())).collect()
}

fn error_type(ident: &str, variants: &[(&str, u16, &str)]) -> ErrorType {
    let declared = TypeDeclaration {
        ident: ident.to_string(),
        generics: String::new(),
        body: DeclarationBody::Enum(
            variants
                .iter()
                .map(|(ident, status, message)| VariantDeclaration {
                    ident: ident.to_string(),
                    fields: vec![],
                    status: StatusCode::from_u16(*status),
                    message: Some(message.to_string()),
                })
                .collect(),
        ),
    };
    process(&declared).ok().unwrap()
}

#[test]
fn entries_are_ordered_by_status_then_code() {
    assert!(comes_before(&entry(400, "Z", ""), &entry(500, "A", "")));
    assert!(!comes_before(&entry(500, "A", ""), &entry(400, "Z", "")));
    assert!(comes_before(&entry(400, "A", ""), &entry(400, "B", "")));
    assert!(!comes_before(&entry(400, "B", ""), &entry(400, "A", "")));
    assert!(comes_before(&entry(400, "A", "x"), &entry(400, "A", "y")));
    assert!(comes_before(&entry(400, "A", "y"), &entry(400, "A", "x")));
}

#[test]
fn sorting_nothing_gives_nothing() {
    assert!(sort_summaries(Vec::new()).is_empty());
    assert!(summary(&Registry::new()).is_empty());
    assert_eq!(Registry::new().len(), 0);
}

#[test]
fn sorting_keeps_every_entry_and_the_order_of_equals() {
    let sorted = sort_summaries(vec![
        entry(500, "B", "first"),
        entry(400, "Z", "second"),
        entry(500, "A", "third"),
        entry(400, "Z", "fourth"),
        entry(100, "Z", "fifth"),
        entry(500, "B", "sixth"),
        entry(400, "Z", "seventh"),
    ]);
    assert_eq!(
        shown(&sorted),
        vec![
            (100, "Z".to_string(), "fifth".to_string()),
            (400, "Z".to_string(), "second".to_string()),
            (400, "Z".to_string(), "fourth".to_string()),
            (400, "Z".to_string(), "seventh".to_string()),
            (500, "A".to_string(), "third".to_string()),
            (500, "B".to_string(), "first".to_string()),
            (500, "B".to_string(), "sixth".to_string()),
        ]
    );
}

#[test]
fn sorting_agrees_with_a_stable_sort_by_key() {
    let codes = ["B", "A", "", "AB", "É", "a", "B_C", "B"];
    let mut entries = Vec::new();
    let mut expected = Vec::new();
    for n in 0..40u16 {
        let status = 100 + (n * 37) % 5 * 100;
        let code = codes[(n as usize * 5) % codes.len()];
        let message = format!("entry {}", n);
        entries.push(entry(status, code, &message));
        expected.push((status, code.to_string(), message));
    }
    expected.sort_by_key(|e| (e.0, e.1.clone()));
    assert_eq!(shown(&sort_summaries(entries)), expected);
}

#[test]
fn the_400_entry_precedes_the_500_entry() {
    let mut registry = Registry::new();
    registry.register(error_type(
        "Failure",
        &[("InternalServerError", 500, "Internal server error"), ("BadRequest", 400, "Bad request")],
    ));
    let catalogue = summary(&registry);
    assert_eq!(
        shown(&catalogue),
        vec![
            (400, "BAD_REQUEST".to_string(), "Bad request".to_string()),
            (500, "INTERNAL_SERVER_ERROR".to_string(), "Internal server error".to_string()),
        ]
    );
}

#[test]
fn the_catalogue_holds_the_summaries_of_all_types_sorted() {
    let mut registry = Registry::new();
    registry.register(error_type(
        "StorageError",
        &[("Unavailable", 503, "Storage unavailable"), ("NotFound", 404, "No such object")],
    ));
    registry.register(error_type("Empty", &[]));
    registry.register(error_type(
        "ApiError",
        &[
            ("NotFound", 404, "No such route"),
            ("BadRequest", 400, "Bad request"),
            ("MethodNotAllowed", 405, "Method not allowed"),
            ("BadGateway", 502, "Bad gateway"),
        ],
    ));
    assert_eq!(registry.len(), 3);
    assert_eq!(
        shown(&registry.collect()),
        vec![
            (503, "UNAVAILABLE".to_string(), "Storage unavailable".to_string()),
            (404, "NOT_FOUND".to_string(), "No such object".to_string()),
            (404, "NOT_FOUND".to_string(), "No such route".to_string()),
            (400, "BAD_REQUEST".to_string(), "Bad request".to_string()),
            (405, "METHOD_NOT_ALLOWED".to_string(), "Method not allowed".to_string()),
            (502, "BAD_GATEWAY".to_string(), "Bad gateway".to_string()),
        ]
    );
    assert_eq!(
        shown(&summary(&registry)),
        vec![
            (400, "BAD_REQUEST".to_string(), "Bad request".to_string()),
            (404, "NOT_FOUND".to_string(), "No such object".to_string()),
            (404, "NOT_FOUND".to_string(), "No such route".to_string()),
            (405, "METHOD_NOT_ALLOWED".to_string(), "Method not allowed".to_string()),
            (502, "BAD_GATEWAY".to_string(), "Bad gateway".to_string()),
            (503, "UNAVAILABLE".to_string(), "Storage unavailable".to_string()),
        ]
    );
    assert_eq!(registry.len(), 3);
}
