use portal_api::json::JsonValue;
use portal_api::mutate::{filing_space, patch_format, body_format, pipeline_second_shape, BodyFormat};
use portal_api::error::ApiError;
use portal_api::resource::{Envelope, Metadata};

fn text(s: &str) -> JsonValue {
    JsonValue::Str(s.to_string())
}

fn object(members: Vec<(&str, JsonValue)>) -> JsonValue {
    JsonValue::Object(members.into_iter().map(|(k, v)| (k.to_string(), v)).collect())
}

fn copy(v: &JsonValue) -> JsonValue {
    match v {
        JsonValue::Null => JsonValue::Null,
        JsonValue::Bool(b) => JsonValue::Bool(*b),
        JsonValue::Number(n) => JsonValue::Number(n.clone()),
        JsonValue::Str(s) => JsonValue::Str(s.clone()),
        JsonValue::Array(a) => JsonValue::Array(a.iter().map(copy).collect()),
        JsonValue::Object(m) => JsonValue::Object(m.iter().map(|(k, v)| (k.clone(), copy(v))).collect()),
    }
}

fn at<'a>(v: &'a JsonValue, key: &str) -> &'a JsonValue {
    v.get_member(key).unwrap_or(&JsonValue::Null)
}

fn item(v: &JsonValue, i: usize) -> &JsonValue {
    match v {
        JsonValue::Array(a) => a.get(i).unwrap_or(&JsonValue::Null),
        _ => &JsonValue::Null,
    }
}

fn spec_mut(body: &mut JsonValue) -> &mut Vec<(String, JsonValue)> {
    match body {
        JsonValue::Object(m) => match m.iter_mut().find(|(k, _)| k == "spec") {
            Some((_, JsonValue::Object(s))) => s,
            _ => panic!("spec"),
        },
        _ => panic!("object"),
    }
}

fn first() -> JsonValue {
    object(vec![
        ("apiVersion", text("joinedcontext.com/v1alpha1")),
        ("kind", text("Pipeline")),
        ("metadata", object(vec![("name", text("p")), ("namespace", text("helsinki"))])),
        (
            "spec",
            object(vec![
                ("class", text("resident")),
                (
                    "source",
                    object(vec![(
                        "dataSourceRef",
                        object(vec![("kind", text("DataSource")), ("name", text("gbfs"))]),
                    )]),
                ),
                ("compute", object(vec![("kind", text("bloblang")), ("bloblang", text("root = this"))])),
                ("targetEndpoint", text("urn:ngsi-ld:Endpoint:hel.fi:helsinki:ops")),
                ("output", object(vec![("type", text("BikeHireDockingStation")), ("mode", text("upsert"))])),
                (
                    "secretRefs",
                    JsonValue::Array(vec![object(vec![
                        ("name", text("s")),
                        ("key", text("k")),
                        ("envVar", text("V")),
                    ])]),
                ),
            ]),
        ),
    ])
}

#[test]
fn a_first_shape_pipeline_is_written_as_the_second() {
    let mut body = first();
    pipeline_second_shape(&mut body);
    assert_eq!(at(&body, "apiVersion"), &text("joinedcontext.com/v1alpha2"));
    let spec = at(&body, "spec");
    assert_eq!(at(at(item(at(spec, "sources"), 0), "dataSourceRef"), "name"), &text("gbfs"));
    assert_eq!(at(item(at(spec, "steps"), 0), "bloblang"), &text("root = this"));
    assert_eq!(
        at(item(at(spec, "outputs"), 0), "targetEndpoint"),
        &text("urn:ngsi-ld:Endpoint:hel.fi:helsinki:ops")
    );
    assert_eq!(at(item(at(spec, "outputs"), 0), "type"), &text("BikeHireDockingStation"));
    assert_eq!(at(item(at(spec, "outputs"), 0), "mode"), &text("upsert"));
    for gone in ["source", "compute", "targetEndpoint", "output"] {
        assert!(spec.get_member(gone).is_none(), "{gone} is left behind");
    }
    assert_eq!(
        at(item(at(spec, "secretRefs"), 0), "envVar"),
        &text("V"),
        "what is not moved stays"
    );
}

#[test]
fn a_pipeline_without_compute_or_output_gets_no_steps_and_a_bare_output() {
    let mut body = first();
    let spec = spec_mut(&mut body);
    spec.retain(|(k, _)| k != "compute" && k != "output");
    pipeline_second_shape(&mut body);
    assert!(at(&body, "spec").get_member("steps").is_none());
    assert_eq!(
        at(at(&body, "spec"), "outputs"),
        &JsonValue::Array(vec![object(vec![(
            "targetEndpoint",
            text("urn:ngsi-ld:Endpoint:hel.fi:helsinki:ops")
        )])])
    );
}

#[test]
fn what_is_not_a_first_shape_pipeline_is_left_as_it_came() {
    let mut no_source = first();
    spec_mut(&mut no_source).retain(|(k, _)| k != "source");
    let before = copy(&no_source);
    pipeline_second_shape(&mut no_source);
    assert_eq!(no_source, before);

    let mut mixed = first();
    spec_mut(&mut mixed).push(("outputs".to_string(), JsonValue::Array(vec![])));
    let before = copy(&mixed);
    pipeline_second_shape(&mut mixed);
    assert_eq!(mixed, before);

    let mut other = object(vec![
        ("kind", text("Endpoint")),
        ("apiVersion", text("joinedcontext.com/v1alpha1")),
        (
            "spec",
            object(vec![
                ("source", JsonValue::Number("1".into())),
                ("targetEndpoint", JsonValue::Number("2".into())),
            ]),
        ),
    ]);
    let before = copy(&other);
    pipeline_second_shape(&mut other);
    assert_eq!(other, before);

    let mut no_spec = object(vec![("kind", text("Pipeline"))]);
    pipeline_second_shape(&mut no_spec);
    assert_eq!(no_spec, object(vec![("kind", text("Pipeline"))]));
}

#[test]
fn an_output_that_names_its_own_target_keeps_it() {
    let mut body = first();
    let spec = spec_mut(&mut body);
    spec.retain(|(k, _)| k != "output");
    spec.push((
        "output".to_string(),
        object(vec![("targetEndpoint", text("urn:ngsi-ld:Endpoint:hel.fi:helsinki:other"))]),
    ));
    pipeline_second_shape(&mut body);
    assert_eq!(
        at(item(at(at(&body, "spec"), "outputs"), 0), "targetEndpoint"),
        &text("urn:ngsi-ld:Endpoint:hel.fi:helsinki:other")
    );
}

#[test]
fn parse_patch_content_types() {
    let err = patch_format(Some("application/json")).unwrap_err();
    match err {
        ApiError::UnsupportedMediaType(msg) => assert!(msg.contains("application/merge-patch+json")),
        other => panic!("expected UnsupportedMediaType, got {other:?}"),
    }

    assert_eq!(patch_format(Some("application/merge-patch+json")).unwrap(), BodyFormat::Json);
    let val: serde_json::Value =
        serde_json::from_slice(b"{\"spec\":{\"audience\":\"public\"}}").expect("parse valid json patch");
    assert_eq!(val["spec"]["audience"], "public");

    assert_eq!(patch_format(Some("application/apply-patch+yaml")).unwrap(), BodyFormat::Yaml);
    let val_yaml: serde_json::Value =
        serde_yaml_ng::from_slice(b"spec:\n  audience: public\n").expect("parse valid yaml patch");
    assert_eq!(val_yaml["spec"]["audience"], "public");
}

#[test]
fn body_media_types_are_read_before_the_parameters() {
    assert_eq!(body_format(None).unwrap(), BodyFormat::Json);
    assert_eq!(body_format(Some("")).unwrap(), BodyFormat::Json);
    assert_eq!(body_format(Some("application/json; charset=utf-8")).unwrap(), BodyFormat::Json);
    assert_eq!(body_format(Some(" text/yaml ;q=1")).unwrap(), BodyFormat::Yaml);
    assert_eq!(body_format(Some("application/x-yaml")).unwrap(), BodyFormat::Yaml);
    match body_format(Some("text/plain; charset=utf-8")).unwrap_err() {
        ApiError::UnsupportedMediaType(msg) => assert_eq!(
            msg,
            "content type 'text/plain' is not supported; expected application/json or application/yaml"
        ),
        other => panic!("expected UnsupportedMediaType, got {other:?}"),
    }
    match patch_format(None).unwrap_err() {
        ApiError::UnsupportedMediaType(msg) => assert_eq!(
            msg,
            "content type '' is not supported for PATCH; expected application/merge-patch+json or application/apply-patch+yaml"
        ),
        other => panic!("expected UnsupportedMediaType, got {other:?}"),
    }
}

fn endpoint(spec: JsonValue, labels: Vec<(&str, &str)>) -> Envelope {
    Envelope {
        api_version: "joinedcontext.com/v1alpha1".into(),
        kind: "Endpoint".into(),
        metadata: Metadata {
            name: "citybikes-2046-all".into(),
            namespace: Some("helsinki".into()),
            labels: labels.into_iter().map(|(k, v)| (k.to_string(), v.to_string())).collect(),
            annotations: vec![],
            title: vec![],
            description: vec![],
        },
        spec,
        phase: None,
    }
}

#[test]
fn a_space_scoped_resource_is_filed_under_the_space_it_references() {
    for reference in [
        text("citybikes-2046"),
        object(vec![("kind", text("ContextSpace")), ("name", text("citybikes-2046"))]),
    ] {
        let env = endpoint(object(vec![("contextSpaceRef", reference)]), vec![]);
        assert_eq!(filing_space(&env, "Endpoint").as_deref(), Some("citybikes-2046"));
    }
    assert_eq!(filing_space(&endpoint(object(vec![]), vec![]), "Endpoint").as_deref(), Some("helsinki"));
    let labelled = endpoint(
        object(vec![("contextSpaceRef", text("citybikes-2046"))]),
        vec![("joinedcontext.com/space", "mobility")],
    );
    assert_eq!(filing_space(&labelled, "Endpoint").as_deref(), Some("mobility"));
    let pipeline = endpoint(object(vec![("contextSpaceRef", text("citybikes-2046"))]), vec![]);
    assert_eq!(filing_space(&pipeline, "Pipeline").as_deref(), Some("helsinki"));
}
