use portal_api::delete::{has_typed_ref, still_named};
use portal_api::resource::{Envelope, Metadata};
use portal_api::json::JsonValue;

fn text(s: &str) -> JsonValue {
    JsonValue::Str(s.to_string())
}

fn object(members: Vec<(&str, JsonValue)>) -> JsonValue {
    JsonValue::Object(members.into_iter().map(|(k, v)| (k.to_string(), v)).collect())
}

#[test]
fn has_typed_ref_scenarios() {
    let same_ns_ref = object(vec![(
        "target",
        object(vec![("kind", text("ContextSpace")), ("name", text("mobility"))]),
    )]);
    assert!(has_typed_ref(&same_ns_ref, "ovzdusie", "ovzdusie", "ContextSpace", "mobility"));

    let explicit_matching_ns = object(vec![(
        "ref",
        object(vec![
            ("kind", text("ContextSpace")),
            ("name", text("mobility")),
            ("namespace", text("ovzdusie")),
        ]),
    )]);
    assert!(has_typed_ref(&explicit_matching_ns, "foreign-proj", "ovzdusie", "ContextSpace", "mobility"));

    let explicit_foreign_ns = object(vec![(
        "ref",
        object(vec![
            ("kind", text("ContextSpace")),
            ("name", text("mobility")),
            ("namespace", text("other-ns")),
        ]),
    )]);
    assert!(!has_typed_ref(&explicit_foreign_ns, "ovzdusie", "ovzdusie", "ContextSpace", "mobility"));

    let foreign_referrer_implicit_ns = object(vec![(
        "ref",
        object(vec![("kind", text("ContextSpace")), ("name", text("mobility"))]),
    )]);
    assert!(!has_typed_ref(
        &foreign_referrer_implicit_ns,
        "foreign-proj",
        "ovzdusie",
        "ContextSpace",
        "mobility"
    ));

    let nested_array = object(vec![(
        "pipelines",
        JsonValue::Array(vec![object(vec![(
            "endpoints",
            JsonValue::Array(vec![object(vec![
                ("kind", text("Endpoint")),
                ("name", text("air-sensor")),
            ])]),
        )])]),
    )]);
    assert!(has_typed_ref(&nested_array, "ovzdusie", "ovzdusie", "Endpoint", "air-sensor"));

    let mismatched_kind = object(vec![("kind", text("Pipeline")), ("name", text("mobility"))]);
    assert!(!has_typed_ref(&mismatched_kind, "ovzdusie", "ovzdusie", "ContextSpace", "mobility"));

    let mismatched_name = object(vec![("kind", text("ContextSpace")), ("name", text("traffic"))]);
    assert!(!has_typed_ref(&mismatched_name, "ovzdusie", "ovzdusie", "ContextSpace", "mobility"));

    let non_string_type = object(vec![
        ("kind", JsonValue::Number("123".to_string())),
        ("name", text("mobility")),
    ]);
    assert!(!has_typed_ref(&non_string_type, "ovzdusie", "ovzdusie", "ContextSpace", "mobility"));
}

fn manifest(kind: &str, namespace: Option<&str>, name: &str, spec: JsonValue) -> Envelope {
    Envelope {
        api_version: "joinedcontext.com/v1".to_string(),
        kind: kind.to_string(),
        metadata: Metadata {
            name: name.to_string(),
            namespace: namespace.map(str::to_string),
            labels: vec![],
            annotations: vec![],
            title: vec![],
            description: vec![],
        },
        spec,
        phase: None,
    }
}

#[test]
fn a_file_another_resource_names_stays() {
    let mirror = vec![
        manifest("DataModel", Some("helsinki"), "air", object(vec![("source", text("./air.linkml.yaml"))])),
        manifest("Pipeline", Some("helsinki"), "aq", object(vec![("config", text("bento.yaml"))])),
    ];
    let path = "projects/helsinki/spaces/air/datamodels/air.linkml.yaml";
    assert!(!still_named(&mirror, "helsinki", "DataModel", "air", path));
    let mut other = mirror;
    other.push(manifest(
        "ModelProjection",
        Some("helsinki"),
        "air-lite",
        object(vec![("from", JsonValue::Array(vec![text("../datamodels/air.linkml.yaml")]))]),
    ));
    assert!(still_named(&other, "helsinki", "DataModel", "air", path));
    assert!(still_named(&other, "helsinki", "Pipeline", "aq", "bento.yaml") == false);
    assert!(still_named(&other, "espoo", "DataModel", "air", path));
}
