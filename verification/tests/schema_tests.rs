use overl::document::Document;
use overl::file::File;
use overl::schema::{validate, verdict, Violation};

fn text(s: &str) -> Document {
    Document::String(s.to_string())
}

fn object(entries: Vec<(&str, Document)>) -> Document {
    Document::Object(entries.into_iter().map(|(k, v)| (k.to_string(), v)).collect())
}

fn schema() -> Document {
    object(vec![
        ("type", text("object")),
        ("required", Document::Array(vec![text("name")])),
        (
            "properties",
            object(vec![
                ("name", object(vec![("type", text("string"))])),
                ("replicas", object(vec![("type", text("integer")), ("minimum", Document::Integer(1))])),
            ]),
        ),
    ])
}

#[test]
fn a_conforming_document_is_accepted() {
    let instance = object(vec![("name", text("web")), ("replicas", Document::Integer(2))]);
    assert_eq!(validate(&schema(), &instance), Ok(()));
    assert_eq!(File::new(instance).validate(&schema()), Ok(()));
}

#[test]
fn a_violation_names_its_place_in_the_instance() {
    let instance = object(vec![("name", Document::Integer(1))]);
    let found = validate(&schema(), &instance).unwrap_err();
    assert_eq!(found.len(), 1);
    assert_eq!(found[0].location, "/name");
    assert_eq!(found[0].message, "1 is not of type \"string\"");
}

#[test]
fn every_violation_is_reported() {
    let instance = object(vec![("name", Document::Integer(1)), ("replicas", Document::Integer(0))]);
    let found = File::new(instance).validate(&schema()).unwrap_err();
    let mut places: Vec<&str> = found.iter().map(|v| v.location.as_str()).collect();
    places.sort();
    assert_eq!(places, vec!["/name", "/replicas"]);
}

#[test]
fn a_missing_property_is_reported_at_the_root() {
    let found = validate(&schema(), &object(vec![])).unwrap_err();
    assert_eq!(found.len(), 1);
    assert_eq!(found[0].location, "");
    assert_eq!(found[0].message, "\"name\" is a required property");
}

#[test]
fn validation_changes_neither_document() {
    let instance = object(vec![("name", Document::Integer(1))]);
    let rules = schema();
    let _ = validate(&rules, &instance);
    assert_eq!(instance, object(vec![("name", Document::Integer(1))]));
    assert_eq!(rules, schema());
}

#[test]
fn an_unusable_schema_is_one_finding() {
    let bad = object(vec![("type", Document::Integer(12))]);
    let found = validate(&bad, &object(vec![])).unwrap_err();
    assert_eq!(found.len(), 1);
    assert!(!found[0].message.is_empty());
}

#[test]
fn a_float_is_checked_as_a_number() {
    let rules = object(vec![("type", text("number")), ("maximum", Document::Integer(2))]);
    assert_eq!(validate(&rules, &Document::Float("1.5".to_string())), Ok(()));
    assert!(validate(&rules, &Document::Float("2.5".to_string())).is_err());
}

#[test]
fn the_verdict_is_success_only_for_no_findings() {
    assert_eq!(verdict(vec![]), Ok(()));
    let one = Violation { message: "m".to_string(), location: "/a".to_string() };
    let two = Violation { message: "n".to_string(), location: "/b".to_string() };
    assert_eq!(verdict(vec![one.clone()]), Err(vec![one.clone()]));
    assert_eq!(verdict(vec![one.clone(), two.clone()]), Err(vec![one, two]));
}

#[test]
fn the_same_documents_give_the_same_findings() {
    let instance = object(vec![("name", Document::Integer(1)), ("replicas", Document::Integer(0))]);
    let first = validate(&schema(), &instance);
    let second = validate(&schema(), &instance);
    assert!(first.is_err());
    assert_eq!(first, second);
    assert_eq!(File::new(instance).validate(&schema()), first);
}
