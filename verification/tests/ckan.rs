use portal_api::ckan::{datastore, link, publication, reference_name, InstanceSummary};
use portal_api::json::JsonValue;
use portal_api::resource::{Envelope, Metadata};

fn text(s: &str) -> JsonValue {
    JsonValue::Str(s.to_string())
}

fn object(members: Vec<(&str, JsonValue)>) -> JsonValue {
    JsonValue::Object(members.into_iter().map(|(k, v)| (k.to_string(), v)).collect())
}

fn endpoint(spec: JsonValue) -> Envelope {
    Envelope {
        api_version: "joinedcontext.com/v1alpha1".into(),
        kind: "Endpoint".into(),
        metadata: Metadata {
            name: "air-public".into(),
            namespace: Some("helsinki".into()),
            labels: vec![],
            annotations: vec![],
            title: vec![],
            description: vec![],
        },
        spec,
        phase: Some("Ready".into()),
    }
}

fn instances() -> Vec<InstanceSummary> {
    vec![InstanceSummary {
        name: "avoindata".into(),
        url: "https://www.avoindata.fi/data".into(),
        organization_default: Some("helsinki".into()),
        api_token_ref: "ckan-token".into(),
    }]
}

fn declared(instance: JsonValue) -> JsonValue {
    object(vec![(
        "publish",
        object(vec![(
            "ckan",
            object(vec![
                ("instanceRef", instance),
                ("name", text("air-quality")),
                ("datastore", object(vec![("representation", text("csv"))])),
            ]),
        )]),
    )])
}

#[test]
fn an_endpoint_that_publishes_nowhere_is_not_listed() {
    assert!(publication(&endpoint(object(vec![])), &instances(), None).is_none());
}

#[test]
fn a_dangling_instance_is_shown_with_what_the_endpoint_asked_for() {
    let p = publication(&endpoint(declared(text("gone"))), &instances(), None).expect("listed");
    assert!(p.instance_missing);
    assert_eq!(p.instance, "gone");
    assert_eq!(p.dataset, "air-quality");
    assert_eq!(p.phase.as_deref(), Some("Ready"));
    assert!(p.dataset_url.is_none());
    let ds = p.datastore.expect("a mirror");
    assert_eq!((ds.representation.as_str(), ds.refresh.as_str()), ("csv", "onChange"));
}

#[test]
fn a_rendered_dataset_gives_its_url_and_resources() {
    let rendered = object(vec![
        ("name", text("helsinki-air-quality")),
        ("owner_org", text("helsinki")),
        (
            "resources",
            JsonValue::Array(vec![object(vec![
                ("name", text("Air quality (CSV)")),
                ("url", text("https://helsinki.example/api/endpoint/air-public.csv")),
                ("format", text("CSV")),
            ])]),
        ),
    ]);
    let typed = object(vec![("kind", text("CkanInstance")), ("name", text("avoindata"))]);
    let p = publication(&endpoint(declared(typed)), &instances(), Some(&rendered)).expect("listed");
    assert!(!p.instance_missing);
    assert_eq!(p.organization.as_deref(), Some("helsinki"));
    assert_eq!(p.dataset, "helsinki-air-quality");
    assert_eq!(
        p.dataset_url.as_deref(),
        Some("https://www.avoindata.fi/data/dataset/helsinki-air-quality")
    );
    assert_eq!(p.resources.len(), 1);
    assert_eq!(p.resources[0].format, "CSV");
    assert!(publication(&endpoint(declared(text("avoindata"))), &instances(), None).is_none());
}

#[test]
fn links_and_mirrors_read_what_is_there() {
    let l = link(&object(vec![("name", text("n"))]));
    assert_eq!((l.name.as_str(), l.url.as_str(), l.format.as_str()), ("n", "", ""));
    let d = datastore(&object(vec![("datastore", object(vec![("refresh", text("hourly"))]))])).expect("declared");
    assert_eq!((d.representation.as_str(), d.refresh.as_str()), ("", "hourly"));
    assert!(datastore(&object(vec![])).is_none());
    assert_eq!(reference_name(&text("x")).map(|s| s.as_str()), Some("x"));
    assert_eq!(reference_name(&JsonValue::Null), None);
}
