use portal_api::json::JsonValue;
use portal_api::preferences::{Preferences, MAX_LAYOUTS_BYTES};

fn layouts_len(layouts: &[(String, JsonValue)]) -> usize {
    // The length of the layouts written as JSON, as the caller measures it.
    fn write(v: &JsonValue) -> serde_json::Value {
        match v {
            JsonValue::Null => serde_json::Value::Null,
            JsonValue::Bool(b) => serde_json::Value::Bool(*b),
            JsonValue::Number(n) => serde_json::from_str(n).expect("number"),
            JsonValue::Str(s) => serde_json::Value::String(s.clone()),
            JsonValue::Array(a) => serde_json::Value::Array(a.iter().map(write).collect()),
            JsonValue::Object(m) => {
                serde_json::Value::Object(m.iter().map(|(k, v)| (k.clone(), write(v))).collect())
            }
        }
    }
    let map: serde_json::Map<String, serde_json::Value> =
        layouts.iter().map(|(k, v)| (k.clone(), write(v))).collect();
    serde_json::to_vec(&map).map(|b| b.len()).unwrap_or(usize::MAX)
}

/// What the language-code rules say of a locale: a two-letter lower-case ISO 639-1 code.
fn locale_verdict(p: &Preferences) -> Result<(), String> {
    match &p.locale {
        Some(l) if l.len() == 2 && l.chars().all(|c| c.is_ascii_lowercase()) => Ok(()),
        Some(l) => Err(format!("locale '{l}' is not an ISO 639-1 code")),
        None => Ok(()),
    }
}

fn validate(p: &Preferences) -> Result<(), String> {
    p.validate(locale_verdict(p), layouts_len(&p.dashboard_layouts))
}

#[test]
fn accepts_the_documented_example() {
    let p = Preferences {
        theme: Some("system".into()),
        locale: Some("sk".into()),
        default_project: Some("ovzdusie".into()),
        dashboard_layouts: vec![(
            "ovzdusie-prehlad".into(),
            JsonValue::Object(vec![("collapsedLegend".into(), JsonValue::Bool(true))]),
        )],
    };
    assert_eq!(validate(&p), Ok(()));
    assert!(validate(&Preferences::default()).is_ok(), "nothing set is fine");
}

#[test]
fn refuses_what_it_understands_and_is_wrong() {
    let with = |f: &dyn Fn(&mut Preferences)| {
        let mut p = Preferences::default();
        f(&mut p);
        p
    };
    assert!(validate(&with(&|p| p.theme = Some("sepia".into()))).is_err());
    assert!(validate(&with(&|p| p.locale = Some("slovak".into()))).is_err());
    assert!(validate(&with(&|p| p.default_project = Some("Ovzdusie".into()))).is_err());
    assert!(validate(&with(&|p| p.dashboard_layouts = vec![("../x".into(), JsonValue::Object(vec![]))])).is_err());
    assert_eq!(
        validate(&with(&|p| p.theme = Some("sepia".into()))),
        Err("theme 'sepia' is not light, dark or system".into())
    );
    assert_eq!(
        validate(&with(&|p| p.default_project = Some("Ovzdusie".into()))),
        Err("defaultProject 'Ovzdusie' is not a DNS-1123 name".into())
    );
    assert_eq!(
        validate(&with(&|p| p.dashboard_layouts = vec![("../x".into(), JsonValue::Object(vec![]))])),
        Err("dashboardLayouts key '../x' is not a dashboard name".into())
    );
}

#[test]
fn layouts_are_bounded() {
    let big = "x".repeat(MAX_LAYOUTS_BYTES);
    let p = Preferences {
        dashboard_layouts: vec![("d".into(), JsonValue::Str(big))],
        ..Preferences::default()
    };
    assert!(validate(&p).is_err(), "a layout larger than the cap is not a layout");
    assert_eq!(
        p.validate(Ok(()), 65545),
        Err("dashboardLayouts is 65545 bytes, the limit is 65536".into())
    );
}
