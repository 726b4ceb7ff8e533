use portal_api::change::Lane;
use portal_api::import::{kept_manifests, assign_slugs, apply_renames, import_report, put_sorted, plan_import, Arriving, ConflictPolicy, Outcome, already_exists, free_name, provenance, unstorable_rename, ImportReport, Verified};
use portal_api::error::ApiError;
use portal_api::json::JsonValue;
use portal_api::resource::{Envelope, Metadata};

fn report(verified: Vec<Verified>) -> ImportReport {
    ImportReport {
        created: Vec::new(),
        replaced: Vec::new(),
        skipped: Vec::new(),
        renamed: Vec::new(),
        native_files: 0,
        lane: Lane::Green,
        source: None,
        verified,
    }
}

fn file(path: &str, equal: bool) -> Verified {
    Verified {
        path: path.to_owned(),
        equal,
    }
}

#[test]
fn the_summary_counts_what_matched_out_of_what_was_checked() {
    let files: Vec<Verified> = (0..10)
        .map(|index| file(&format!("f{index}.yaml"), index != 3))
        .collect();
    assert_eq!(
        report(files).verification_summary().as_deref(),
        Some("9 of 10 files equal")
    );
}

#[test]
fn a_transfer_that_all_arrived_says_so_in_the_same_words() {
    assert_eq!(
        report(vec![file("a.yaml", true), file("b.yaml", true)])
            .verification_summary()
            .as_deref(),
        Some("2 of 2 files equal")
    );
}

#[test]
fn a_bundle_that_carried_no_checksums_says_nothing_about_verification() {
    assert_eq!(report(Vec::new()).verification_summary(), None);
}

#[test]
fn a_rename_lands_on_the_first_name_nobody_holds() {
    let taken = vec!["air-espoo".to_string(), "air-espoo-2".to_string(), "bikes".to_string()];
    assert_eq!(free_name("air-espoo", &taken), "air-espoo-3");
    assert_eq!(free_name("water-espoo", &taken), "water-espoo");
    assert_eq!(free_name("air-espoo", &vec![]), "air-espoo");
    let many: Vec<String> = std::iter::once("x".to_string()).chain((2..=11).map(|n| format!("x-{n}"))).collect();
    assert_eq!(free_name("x", &many), "x-12");
}

fn bundle(name: &str, spec: JsonValue) -> Envelope {
    Envelope {
        api_version: "joinedcontext.com/v1".to_string(),
        kind: "Bundle".to_string(),
        metadata: Metadata {
            name: name.to_string(),
            namespace: Some("org".to_string()),
            labels: vec![],
            annotations: vec![],
            title: vec![],
            description: vec![],
        },
        spec,
        phase: None,
    }
}

#[test]
fn a_bundle_says_where_it_came_from() {
    let current = bundle("helsinki", JsonValue::Object(vec![("sourceRevision".to_string(), JsonValue::Str("0a1b2c3".to_string()))]));
    assert_eq!(provenance(&current), "helsinki@0a1b2c3");
    let older = bundle(
        "x",
        JsonValue::Object(vec![
            ("project".to_string(), JsonValue::Str("espoo".to_string())),
            ("revision".to_string(), JsonValue::Str("main".to_string())),
        ]),
    );
    assert_eq!(provenance(&older), "espoo@main");
    assert_eq!(provenance(&bundle("vantaa", JsonValue::Object(vec![]))), "vantaa@unknown");
    let odd = bundle(
        "y",
        JsonValue::Object(vec![
            ("sourceRevision".to_string(), JsonValue::Number("7".to_string())),
            ("revision".to_string(), JsonValue::Str("main".to_string())),
        ]),
    );
    assert_eq!(provenance(&odd), "y@unknown");
}

#[test]
fn a_conflict_and_an_unstorable_rename_are_refused_in_words() {
    match already_exists("Endpoint", "air", "helsinki") {
        ApiError::Conflict(m) => {
            assert_eq!(m, "Endpoint 'air' already exists in project 'helsinki'; choose skip, replace or rename (MF-23)")
        }
        _ => panic!("expected a 409"),
    }
    match unstorable_rename("air", "air_espoo") {
        ApiError::BadRequest(m) => assert_eq!(
            m,
            "renaming 'air' would produce 'air_espoo', which is not a name this platform can store; rename it in the source project first (MF-23)"
        ),
        _ => panic!("expected a 400"),
    }
}

fn arriving(kind: &str, name: &str) -> Arriving {
    let mut b = bundle(name, JsonValue::Object(vec![]));
    b.kind = kind.to_string();
    Arriving { origin: "espoo".to_string(), stored: "helsinki".to_string(), envelope: b }
}

fn held(kind: &str, name: &str) -> (String, String, String) {
    ("helsinki".to_string(), kind.to_string(), name.to_string())
}

#[test]
fn the_conflict_policy_decides_each_manifest_in_turn() {
    let bundle = vec![arriving("Endpoint", "air"), arriving("Endpoint", "bikes"), arriving("DataModel", "air")];
    let existing = vec![held("Endpoint", "air"), held("Endpoint", "air-espoo")];
    match plan_import(&bundle, &existing, "helsinki", ConflictPolicy::Fail) {
        Err(ApiError::Conflict(m)) => assert_eq!(
            m,
            "Endpoint 'air' already exists in project 'helsinki'; choose skip, replace or rename (MF-23)"
        ),
        _ => panic!("expected a 409"),
    }
    let skip = plan_import(&bundle, &existing, "helsinki", ConflictPolicy::Skip).unwrap();
    assert!(matches!(skip[..], [Outcome::Skipped, Outcome::Created, Outcome::Created]));
    let replace = plan_import(&bundle, &existing, "helsinki", ConflictPolicy::Replace).unwrap();
    assert!(matches!(replace[..], [Outcome::Replaced, Outcome::Created, Outcome::Created]));
    let rename = plan_import(&bundle, &existing, "helsinki", ConflictPolicy::Rename).unwrap();
    match &rename[0] {
        Outcome::Renamed(n) => assert_eq!(n, "air-espoo-2"),
        _ => panic!("expected a rename"),
    }
    assert!(matches!(rename[1], Outcome::Created));
    let long = "a".repeat(60);
    let too_long = vec![arriving("Endpoint", &long)];
    match plan_import(&too_long, &vec![held("Endpoint", &long)], "helsinki", ConflictPolicy::Rename) {
        Err(ApiError::BadRequest(m)) => assert!(m.starts_with(&format!("renaming '{long}' would produce '{long}-espoo'"))),
        _ => panic!("expected a 400"),
    }
}

#[test]
fn a_report_lists_each_manifest_once_and_renames_in_key_order() {
    let bundle = vec![arriving("Endpoint", "zeta"), arriving("Endpoint", "air"), arriving("DataModel", "air"), arriving("Endpoint", "bikes")];
    let outcomes = vec![
        Outcome::Renamed("zeta-espoo".to_string()),
        Outcome::Renamed("air-espoo".to_string()),
        Outcome::Renamed("air-espoo-2".to_string()),
        Outcome::Skipped,
    ];
    let report = import_report(&bundle, &outcomes, 2, Lane::Yellow, Some("espoo@main".to_string()), vec![]);
    assert_eq!(
        report.renamed,
        vec![
            ("air".to_string(), "air-espoo-2".to_string()),
            ("zeta".to_string(), "zeta-espoo".to_string()),
        ]
    );
    assert_eq!(report.skipped, vec!["bikes"]);
    assert!(report.created.is_empty() && report.replaced.is_empty());
    assert_eq!(report.native_files, 2);
    let mut m = vec![("b".to_string(), "1".to_string())];
    put_sorted(&mut m, &"a".to_string(), "2".to_string());
    put_sorted(&mut m, &"b".to_string(), "3".to_string());
    assert_eq!(m, vec![("a".to_string(), "2".to_string()), ("b".to_string(), "3".to_string())]);
}

#[test]
fn a_rename_is_carried_into_every_reference_of_the_bundle() {
    let mut space = bundle("air-espoo", JsonValue::Object(vec![]));
    space.kind = "ContextSpace".to_string();
    let mut endpoint = bundle(
        "public-air",
        JsonValue::Object(vec![
            ("contextSpaceRef".to_string(), JsonValue::Str("air".to_string())),
            (
                "ids".to_string(),
                JsonValue::Array(vec![JsonValue::Str("urn:ngsi-ld:T:hel.fi:air:1".to_string())]),
            ),
        ]),
    );
    endpoint.kind = "Endpoint".to_string();
    let mut kept = vec![space, endpoint];
    apply_renames(&mut kept, &vec![("air".to_string(), "air-espoo".to_string()), ("gone".to_string(), "nowhere".to_string())]);
    assert_eq!(
        kept[1].spec,
        JsonValue::Object(vec![
            ("contextSpaceRef".to_string(), JsonValue::Str("air-espoo".to_string())),
            (
                "ids".to_string(),
                JsonValue::Array(vec![JsonValue::Str("urn:ngsi-ld:T:hel.fi:air-espoo:1".to_string())]),
            ),
        ])
    );
    assert_eq!(kept[0].metadata.name, "air-espoo");
}

#[test]
fn an_imported_endpoint_keeps_this_instances_slug_or_takes_a_new_one() {
    let endpoint = |name: &str| {
        let mut e = bundle(name, JsonValue::Object(vec![("slug".to_string(), JsonValue::Str("source-slug".to_string()))]));
        e.kind = "Endpoint".to_string();
        e
    };
    let mut model = bundle("aq", JsonValue::Object(vec![]));
    model.kind = "DataModel".to_string();
    let mut kept = vec![endpoint("air"), model, endpoint("bikes"), endpoint("water")];
    let held = vec![("bikes".to_string(), "minted-here".to_string())];
    let fresh = vec!["fresh-1".to_string(), "fresh-2".to_string()];
    assign_slugs(&mut kept, &held, &fresh);
    let slug = |e: &Envelope| match &e.spec {
        JsonValue::Object(m) => m.iter().find(|(k, _)| k == "slug").and_then(|(_, v)| match v {
            JsonValue::Str(s) => Some(s.clone()),
            _ => None,
        }),
        _ => None,
    };
    assert_eq!(slug(&kept[0]).as_deref(), Some("fresh-1"));
    assert_eq!(slug(&kept[1]), None);
    assert_eq!(slug(&kept[2]).as_deref(), Some("minted-here"));
    assert_eq!(slug(&kept[3]).as_deref(), Some("fresh-2"));
}

#[test]
fn a_skipped_manifest_is_not_written_and_a_renamed_one_takes_its_new_name() {
    let bundle_in = vec![arriving("Endpoint", "air"), arriving("Endpoint", "bikes"), arriving("DataModel", "aq")];
    let outcomes = vec![Outcome::Renamed("air-espoo".to_string()), Outcome::Skipped, Outcome::Created];
    let kept = kept_manifests(bundle_in, &outcomes);
    let names: Vec<&str> = kept.iter().map(|e| e.metadata.name.as_str()).collect();
    assert_eq!(names, vec!["air-espoo", "aq"]);
}
