use portal_api::assistant::Freshness;
use portal_api::catalog::{feeders, fresh_reads, ranked, search, set_freshness, space_of, MAX_ITEMS};
use portal_api::json::JsonValue;
use portal_api::resource::{Envelope, Metadata};

fn text(s: &str) -> JsonValue {
    JsonValue::Str(s.to_string())
}

fn object(members: Vec<(&str, JsonValue)>) -> JsonValue {
    JsonValue::Object(members.into_iter().map(|(k, v)| (k.to_string(), v)).collect())
}

fn manifest(kind: &str, name: &str, title: &str, labels: Vec<(&str, &str)>, spec: JsonValue) -> Envelope {
    Envelope {
        api_version: "joinedcontext.com/v1".to_string(),
        kind: kind.to_string(),
        metadata: Metadata {
            name: name.to_string(),
            namespace: Some("helsinki".to_string()),
            labels: labels.into_iter().map(|(k, v)| (k.to_string(), v.to_string())).collect(),
            annotations: vec![],
            title: if title.is_empty() { vec![] } else { vec![("en".to_string(), title.to_string())] },
            description: vec![],
        },
        spec,
        phase: None,
    }
}

fn project_bikes() -> (Vec<Envelope>, Vec<Envelope>, Vec<Envelope>) {
    let endpoints = vec![
        manifest(
            "Endpoint",
            "public-bikes",
            "City bikes",
            vec![],
            object(vec![
                ("audience", text("public")),
                ("slug", text("bikes")),
                ("contextSpaceRef", text("mobility")),
            ]),
        ),
        manifest(
            "Endpoint",
            "partner-bikes",
            "Partner bikes",
            vec![],
            object(vec![
                ("audience", text("project-list")),
                ("allowedProjects", JsonValue::Array(vec![text("espoo")])),
                ("slug", text("partner")),
                ("contextSpaceRef", object(vec![("name", text("mobility"))])),
            ]),
        ),
    ];
    let spaces = vec![
        manifest("ContextSpace", "mobility", "Mobility", vec![], object(vec![])),
        manifest("ContextSpace", "weather", "Weather", vec![], object(vec![])),
    ];
    let models = vec![manifest(
        "DataModel",
        "bike-station",
        "Bike station",
        vec![("joinedcontext.com/space", "mobility")],
        object(vec![("classes", JsonValue::Array(vec![text("BikeHireDockingStation")]))]),
    )];
    (endpoints, spaces, models)
}

#[test]
fn a_space_is_its_own_and_others_name_theirs() {
    let (endpoints, spaces, models) = project_bikes();
    assert_eq!(space_of(&endpoints[0]), "mobility");
    assert_eq!(space_of(&endpoints[1]), "mobility");
    assert_eq!(space_of(&spaces[1]), "weather");
    assert_eq!(space_of(&models[0]), "mobility");
    assert_eq!(space_of(&manifest("Endpoint", "loose", "", vec![], object(vec![]))), "");
}

#[test]
fn a_question_without_words_finds_nothing() {
    let (endpoints, spaces, models) = project_bikes();
    let catalog = search("helsinki", "a ?", &endpoints, &spaces, &models, None);
    assert_eq!(catalog.q, "a ?");
    assert!(catalog.items.is_empty());
}

#[test]
fn the_best_matches_come_first_and_a_restricted_one_shows_only_its_name() {
    let (endpoints, spaces, models) = project_bikes();
    let catalog = search("helsinki", "bike", &endpoints, &spaces, &models, None);
    let names: Vec<(&str, &str)> =
        catalog.items.iter().map(|i| (i.kind.as_str(), i.name.as_str())).collect();
    assert_eq!(
        names,
        vec![
            ("Endpoint", "partner-bikes"),
            ("Endpoint", "public-bikes"),
            ("ContextSpace", "mobility"),
            ("DataModel", "bike-station"),
        ]
    );
    let partner = &catalog.items[0];
    assert_eq!(partner.access.verdict, "restricted");
    assert_eq!(partner.access.reason, "audience project-list does not name helsinki");
    assert_eq!(partner.title, None);
    assert_eq!(partner.endpoint_slug, None);
    let public = &catalog.items[1];
    assert_eq!(public.access.verdict, "allowed");
    assert_eq!(public.title.as_deref(), Some("City bikes"));
    assert_eq!(public.endpoint_slug.as_deref(), Some("bikes"));
    assert_eq!(public.owner, "helsinki");
    let space = &catalog.items[2];
    assert_eq!(space.match_reason, vec!["endpoint public-bikes", "endpoint partner-bikes"]);
    assert_eq!(space.access.reason, "endpoint public-bikes admits you");
    let model = &catalog.items[3];
    assert_eq!(model.access.verdict, "allowed");
    assert_eq!(model.match_reason, vec!["name", "title", "classes"]);
    assert!(catalog.items.iter().all(|i| i.freshness.is_none()));
}

#[test]
fn a_scope_keeps_one_kind() {
    let (endpoints, spaces, models) = project_bikes();
    let catalog = search("helsinki", "bike", &endpoints, &spaces, &models, Some("DataModel"));
    assert_eq!(catalog.items.len(), 1);
    assert_eq!(catalog.items[0].name, "bike-station");
    let none = search("helsinki", "weather", &endpoints, &spaces, &models, Some("Endpoint"));
    assert!(none.items.is_empty());
}

#[test]
fn a_space_no_endpoint_opens_is_restricted() {
    let (endpoints, spaces, models) = project_bikes();
    let catalog = search("helsinki", "weather", &endpoints, &spaces, &models, None);
    assert_eq!(catalog.items.len(), 1);
    assert_eq!(catalog.items[0].access.verdict, "restricted");
    assert_eq!(catalog.items[0].access.reason, "no endpoint of the space admits you");
}

#[test]
fn no_more_than_the_best_twenty_are_shown() {
    let endpoints: Vec<Envelope> = (0..25)
        .map(|n| manifest("Endpoint", &format!("bikes-{n:02}"), "", vec![], object(vec![("audience", text("public"))])))
        .collect();
    let catalog = search("helsinki", "bikes", &endpoints, &vec![], &vec![], None);
    assert_eq!(catalog.items.len(), MAX_ITEMS);
    assert_eq!(catalog.items[0].name, "bikes-00");
    assert_eq!(catalog.items[19].name, "bikes-19");
    let again = ranked(catalog.items, None);
    assert_eq!(again.len(), 20);
}

#[test]
fn the_first_pipeline_feeds_an_endpoint() {
    let pipelines = vec![
        manifest("Pipeline", "bikes-a", "", vec![], object(vec![("targetEndpoint", text("urn:jc:helsinki:public-bikes"))])),
        manifest("Pipeline", "bikes-b", "", vec![], object(vec![("targetEndpoint", text("public-bikes"))])),
        manifest("Pipeline", "weather", "", vec![], object(vec![("targetEndpoint", text("weather-now"))])),
        manifest("Pipeline", "idle", "", vec![], object(vec![])),
    ];
    let fed = feeders(&pipelines);
    assert_eq!(
        fed,
        vec![
            ("public-bikes".to_string(), "bikes-a".to_string()),
            ("weather-now".to_string(), "weather".to_string()),
        ]
    );
}

#[test]
fn freshness_is_read_for_open_endpoints_a_pipeline_feeds() {
    let (endpoints, spaces, models) = project_bikes();
    let mut catalog = search("helsinki", "bikes", &endpoints, &spaces, &models, None);
    let fed = vec![
        ("public-bikes".to_string(), "bikes-a".to_string()),
        ("partner-bikes".to_string(), "bikes-p".to_string()),
    ];
    let reads = fresh_reads(&catalog.items, &fed);
    assert_eq!(reads, vec![(1, "bikes-a".to_string())]);
    set_freshness(
        &mut catalog.items,
        1,
        Freshness {
            pipeline: "bikes-a".to_string(),
            scraped_at: "2026-03-01T10:00:00Z".to_string(),
            received: Some(12),
            errors: None,
        },
    );
    assert_eq!(catalog.items[1].freshness.as_ref().map(|f| f.pipeline.as_str()), Some("bikes-a"));
    assert!(catalog.items[0].freshness.is_none());
    assert_eq!(catalog.items[1].name, "public-bikes");
}
