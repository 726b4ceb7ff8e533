use portal_api::json::JsonValue;
use portal_api::rename::{move_urn, rewrite_reference, rewrite_space};

fn text(s: &str) -> JsonValue {
    JsonValue::Str(s.to_string())
}

fn object(members: Vec<(&str, JsonValue)>) -> JsonValue {
    JsonValue::Object(members.into_iter().map(|(k, v)| (k.to_string(), v)).collect())
}

#[test]
fn the_ids_of_a_renamed_space_move_with_it() {
    assert_eq!(
        move_urn("urn:ngsi-ld:AirQualityObserved:hel.fi:air:station-1", "air", "air-helsinki"),
        "urn:ngsi-ld:AirQualityObserved:hel.fi:air-helsinki:station-1"
    );
    assert_eq!(
        move_urn("^urn:ngsi-ld:AirQualityObserved:hel\\.fi:air:.*$", "air", "air-helsinki"),
        "^urn:ngsi-ld:AirQualityObserved:hel\\.fi:air-helsinki:.*$"
    );
    assert_eq!(move_urn("urn:ngsi-ld:X:hel.fi:water:1", "air", "n"), "urn:ngsi-ld:X:hel.fi:water:1");
    assert_eq!(move_urn("air", "air", "n"), "air");

    let mut value = object(vec![
        ("ids", JsonValue::Array(vec![text("urn:ngsi-ld:T:hel.fi:air:1"), JsonValue::Number("3".into())])),
        ("note", text("air")),
    ]);
    rewrite_space(&mut value, "air", "air-x");
    assert_eq!(
        value,
        object(vec![
            ("ids", JsonValue::Array(vec![text("urn:ngsi-ld:T:hel.fi:air-x:1"), JsonValue::Number("3".into())])),
            ("note", text("air")),
        ])
    );
}

#[test]
fn a_renamed_resource_is_named_anew_wherever_it_is_referenced() {
    let mut spec = object(vec![
        ("contextSpaceRef", text("air")),
        ("modelRef", object(vec![("kind", text("DataModel")), ("name", text("aq"))])),
        (
            "nested",
            JsonValue::Array(vec![object(vec![(
                "spaceRef",
                object(vec![("kind", text("ContextSpace")), ("name", text("air")), ("project", text("p"))]),
            )])]),
        ),
        ("label", text("air")),
    ]);
    rewrite_reference(&mut spec, "ContextSpace", "air", "air-helsinki");
    assert_eq!(
        spec,
        object(vec![
            ("contextSpaceRef", text("air-helsinki")),
            ("modelRef", object(vec![("kind", text("DataModel")), ("name", text("aq"))])),
            (
                "nested",
                JsonValue::Array(vec![object(vec![(
                    "spaceRef",
                    object(vec![
                        ("kind", text("ContextSpace")),
                        ("name", text("air-helsinki")),
                        ("project", text("p")),
                    ]),
                )])]),
            ),
            ("label", text("air")),
        ])
    );
}
