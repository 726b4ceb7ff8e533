use portal_api::assistant::{endpoint_access, score, words};
use portal_api::json::JsonValue;

fn text(s: &str) -> JsonValue {
    JsonValue::Str(s.to_string())
}

fn object(members: Vec<(&str, JsonValue)>) -> JsonValue {
    JsonValue::Object(members.into_iter().map(|(k, v)| (k.to_string(), v)).collect())
}

#[test]
fn words_are_short_lower_and_unique() {
    assert_eq!(
        words("Where is the Bike  availability, bike?"),
        vec!["availability", "bike", "is", "the", "where"]
    );
    assert!(words("a , !").is_empty());
}

#[test]
fn a_score_counts_words_and_names_fields() {
    let fields = vec![
        ("name", "helsinki-bikes".to_owned()),
        ("title", "City bikes".to_owned()),
        ("description", "Bike stations and availability".to_owned()),
    ];
    let (hits, reasons) = score(&fields, &words("bike availability"));
    assert_eq!(hits, 2);
    assert_eq!(reasons, vec!["name", "title", "description"]);
    assert_eq!(score(&fields, &words("parking")).0, 0);
}

#[test]
fn the_audience_decides_the_verdict() {
    assert!(endpoint_access(&object(vec![("audience", text("public"))]), "helsinki").is_allowed());
    assert!(endpoint_access(&object(vec![("audience", text("organization"))]), "helsinki").is_allowed());
    assert!(endpoint_access(
        &object(vec![
            ("audience", text("project-list")),
            ("allowedProjects", JsonValue::Array(vec![text("helsinki")])),
        ]),
        "helsinki"
    )
    .is_allowed());
    let shut = endpoint_access(
        &object(vec![
            ("audience", text("project-list")),
            ("allowedProjects", JsonValue::Array(vec![text("espoo")])),
        ]),
        "helsinki",
    );
    assert!(!shut.is_allowed());
    assert!(shut.reason.contains("does not name helsinki"));
    assert!(!endpoint_access(&object(vec![]), "helsinki").is_allowed());
}
