use portal_api::bundle_checks::{own_spaces, references, refusals, space_of, unresolved};
use portal_api::json::JsonValue;
use portal_api::resource::{Envelope, KindInfo, Metadata};

fn text(s: &str) -> JsonValue {
    JsonValue::Str(s.to_string())
}

fn object(members: Vec<(&str, JsonValue)>) -> JsonValue {
    JsonValue::Object(members.into_iter().map(|(k, v)| (k.to_string(), v)).collect())
}

fn manifest(kind: &str, name: &str, spec: JsonValue) -> Envelope {
    Envelope {
        api_version: "joinedcontext.com/v1alpha1".into(),
        kind: kind.into(),
        metadata: Metadata {
            name: name.into(),
            namespace: Some("helsinki".into()),
            labels: vec![],
            annotations: vec![],
            title: vec![],
            description: vec![],
        },
        spec,
        phase: None,
    }
}

#[test]
fn references_are_read_in_every_shape_and_secrets_are_not_references() {
    let spec = object(vec![
        ("contextSpaceRef", text("air")),
        ("secretRef", object(vec![("kind", text("Secret")), ("name", text("s"))])),
        (
            "sources",
            JsonValue::Array(vec![object(vec![(
                "dataSourceRef",
                object(vec![("kind", text("DataSource")), ("name", text("gbfs"))]),
            )])]),
        ),
        ("endpointRef", object(vec![("name", text("untyped"))])),
    ]);
    let found: Vec<(String, String)> = references(&spec);
    assert_eq!(
        found,
        vec![
            ("ContextSpace".to_string(), "air".to_string()),
            ("DataSource".to_string(), "gbfs".to_string()),
        ]
    );
}

#[test]
fn a_reference_nobody_holds_is_reported_once() {
    let bundle = vec![
        manifest("ContextSpace", "air", object(vec![])),
        manifest(
            "Endpoint",
            "air-public",
            object(vec![
                ("contextSpaceRef", text("air")),
                ("modelRef", object(vec![("kind", text("DataModel")), ("name", text("aq"))])),
                ("policyRef", object(vec![("kind", text("Policy")), ("name", text("open"))])),
                ("policyRef2", object(vec![("kind", text("Policy")), ("name", text("open"))])),
            ]),
        ),
    ];
    let held = vec![("DataModel".to_string(), "aq".to_string())];
    assert_eq!(
        unresolved(&bundle, &held, "helsinki"),
        vec!["air-public: Policy 'open' is in neither the bundle nor project 'helsinki'".to_string()]
    );
}

#[test]
fn the_spaces_a_bundle_carries_are_its_own() {
    let mut labelled = manifest("Pipeline", "p", object(vec![]));
    labelled.metadata.labels = vec![("joinedcontext.com/space".into(), "mobility".into())];
    let bundle = vec![
        manifest("ContextSpace", "air", object(vec![])),
        manifest("Endpoint", "e", object(vec![("contextSpaceRef", object(vec![("name", text("bikes"))]))])),
        labelled,
    ];
    assert_eq!(own_spaces(&bundle), vec!["air", "bikes", "helsinki", "mobility"]);
    assert_eq!(space_of(&bundle[1]).map(|s| s.as_str()), Some("bikes"));
}

#[test]
fn everything_wrong_with_a_manifest_is_said_in_order() {
    let catalogue = vec![KindInfo { plural: "endpoints".into(), kind: "Endpoint".into() }];
    let mut env = manifest("Widget", "Bad", object(vec![("password", text("hunter2"))]));
    env.api_version = "v0".into();
    env.metadata.annotations = vec![("joinedcontext.com/built-image".into(), "x".into())];
    let raw = object(vec![("status", object(vec![]))]);
    let built = vec!["joinedcontext.com/built-image".to_string()];
    let said = refusals(&env, &raw, &catalogue, &Err("a DNS-1123 label must be lower case".into()), &built);
    assert_eq!(
        said,
        vec![
            "Bad: apiVersion 'v0' is not supported (expected 'joinedcontext.com/v1alpha1')",
            "Bad: kind 'Widget' is not a resource this platform serves",
            "Bad: a DNS-1123 label must be lower case",
            "Bad: status is computed by the platform and cannot be imported (MF-04)",
            "Bad: literal secret in field 'password'; use secretRef instead (MF-24)",
            "Bad: annotation 'joinedcontext.com/built-image' is written by this instance's build lane and cannot be imported; the image is built here (AP-11, AP-13a)",
        ]
    );
    let ok = manifest("Endpoint", "good", object(vec![]));
    assert!(refusals(&ok, &object(vec![]), &catalogue, &Ok(()), &built).is_empty());
}
