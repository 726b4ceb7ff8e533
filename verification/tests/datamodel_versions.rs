use portal_api::json::JsonValue;
use portal_api::datamodels::{check_source_size, source_update, choose_version, decode_content, ModelChange, SemVer, SourcePutQuery};
use portal_api::error::ApiError;

fn change(severity: &str, reason: &str) -> ModelChange {
    ModelChange { severity: severity.into(), subject: "s".into(), reason: reason.into() }
}

#[test]
fn a_source_takes_the_version_asked_for_or_the_bumped_one() {
    let published = SemVer { major: 1, minor: 2, patch: 3 };
    let (severity, v) = choose_version(&published, None, &[change("additive", "new class")]).unwrap();
    assert_eq!((severity, v), ("additive", SemVer { major: 1, minor: 3, patch: 0 }));
    let (severity, v) = choose_version(&published, None, &[]).unwrap();
    assert_eq!((severity, v), ("none", SemVer { major: 1, minor: 2, patch: 4 }));
    let (_, v) = choose_version(&published, None, &[change("breaking", "gone")]).unwrap();
    assert_eq!(v, SemVer { major: 2, minor: 0, patch: 0 });
    let (_, v) = choose_version(&published, Some(SemVer { major: 3, minor: 0, patch: 0 }), &[change("breaking", "gone")]).unwrap();
    assert_eq!(v, SemVer { major: 3, minor: 0, patch: 0 });
}

#[test]
fn a_breaking_change_under_the_published_major_is_refused() {
    let published = SemVer { major: 1, minor: 2, patch: 3 };
    match choose_version(
        &published,
        Some(SemVer { major: 1, minor: 9, patch: 0 }),
        &[change("breaking", "class Station is gone"), change("additive", "x"), change("breaking", "slot id is gone")],
    ) {
        Err(ApiError::Invalid { detail, errors }) => {
            assert_eq!(detail, "a breaking change cannot be saved under version 1.9.0; publish it as 2.0.0");
            assert_eq!(errors, vec!["class Station is gone", "slot id is gone"]);
        }
        other => panic!("expected Invalid, got {other:?}"),
    }
}

#[test]
fn a_dry_run_of_a_source_is_all_or_true_in_any_case() {
    let q = |d: Option<&str>| SourcePutQuery { version: None, dry_run: d.map(str::to_string) };
    assert!(q(Some("All")).is_dry());
    assert!(q(Some("TRUE")).is_dry());
    assert!(!q(Some("yes")).is_dry());
    assert!(!q(None).is_dry());
}

#[test]
fn forge_content_is_decoded_only_when_it_is_base64_of_text() {
    assert_eq!(decode_content("aWQ6IGFx\ncHJlZml4\n"), "id: aqprefix");
    assert_eq!(decode_content(" aWQ6IGFx "), "id: aq");
    assert_eq!(decode_content("id: aq"), "id: aq");
    assert_eq!(decode_content("AAEC"), "AAEC", "bytes that are not text stay as they came");
    assert_eq!(decode_content(""), "");
}

fn text(s: &str) -> JsonValue {
    JsonValue::Str(s.to_string())
}

#[test]
fn a_new_source_rewrites_version_classes_and_artifacts() {
    let spec = JsonValue::Object(vec![
        ("contextSpaceRef".to_string(), text("air")),
        ("version".to_string(), text("1.0.0")),
        ("linkml".to_string(), text("air.linkml.yaml")),
    ]);
    let next = JsonValue::Object(vec![(
        "classes".to_string(),
        JsonValue::Object(vec![
            ("Sensor".to_string(), JsonValue::Object(vec![])),
            ("AirQualityObserved".to_string(), JsonValue::Object(vec![])),
        ]),
    )]);
    let version = SemVer { major: 2, minor: 0, patch: 0 };
    let (new_spec, paths) = source_update(spec, "helsinki", "air", "air", "air.linkml.yaml", &version, &next);
    let JsonValue::Object(m) = &new_spec else { panic!("an object") };
    let get = |k: &str| m.iter().find(|(n, _)| n == k).map(|(_, v)| v);
    assert_eq!(get("version"), Some(&text("2.0.0")));
    assert_eq!(get("contextSpaceRef"), Some(&text("air")));
    assert_eq!(get("classes"), Some(&JsonValue::Array(vec![text("AirQualityObserved"), text("Sensor")])));
    assert_eq!(
        get("artifacts"),
        Some(&JsonValue::Object(vec![
            ("jsonSchema".to_string(), text("./json-schema/air.v2.json")),
            ("context".to_string(), text("./context/air.v2.jsonld")),
            ("docs".to_string(), text("./docs/air.md")),
            ("example".to_string(), text("./examples/air.example.jsonld")),
        ]))
    );
    assert_eq!(
        paths,
        vec![
            "projects/helsinki/spaces/air/datamodels/air.yaml",
            "projects/helsinki/spaces/air/datamodels/air.linkml.yaml",
            "projects/helsinki/spaces/air/datamodels/json-schema/air.v2.json",
            "projects/helsinki/spaces/air/datamodels/context/air.v2.jsonld",
            "projects/helsinki/spaces/air/datamodels/docs/air.md",
            "projects/helsinki/spaces/air/datamodels/examples/air.example.jsonld",
        ]
    );
    assert!(check_source_size(10, 10).is_ok());
    match check_source_size(11, 10) {
        Err(ApiError::BadRequest(m)) => assert_eq!(m, "the source is larger than the 10 byte limit"),
        _ => panic!("expected a 400"),
    }
}
