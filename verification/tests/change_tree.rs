use portal_api::change::{Lane, Operation};
use portal_api::changes::{approval_lane, author_of, change_file, manifest_in_tree, ChangeAuthor};
use portal_api::import::ImportQuery;

#[test]
fn a_change_manifest_is_found_in_the_tree_by_its_name() {
    let tree: Vec<String> = vec![
        "README.md".into(),
        "projects/espoo/spaces/air/endpoints/air-public.yaml".into(),
        "projects/helsinki/spaces/air/endpoints/air-public-2.yaml".into(),
        "projects/helsinki/spaces/air/pipelines/aq/pipeline.yaml".into(),
        "projects/helsinki/spaces/air/endpoints/air-public.yaml".into(),
    ];
    assert_eq!(
        manifest_in_tree(&tree, "helsinki", "air-public").map(|s| s.as_str()),
        Some("projects/helsinki/spaces/air/endpoints/air-public.yaml")
    );
    assert_eq!(
        manifest_in_tree(&tree, "helsinki", "aq").map(|s| s.as_str()),
        Some("projects/helsinki/spaces/air/pipelines/aq/pipeline.yaml")
    );
    assert_eq!(manifest_in_tree(&tree, "helsinki", "missing"), None);
}

#[test]
fn an_import_is_a_dry_run_only_for_all() {
    assert!(ImportQuery { dry_run: Some("All".into()) }.is_dry_run());
    assert!(!ImportQuery { dry_run: Some("all".into()) }.is_dry_run());
    assert!(!ImportQuery { dry_run: None }.is_dry_run());
}

#[test]
fn a_changed_file_takes_the_lane_of_its_manifest() {
    let f = change_file(
        "projects/helsinki/spaces/air/endpoints/air.yaml".to_string(),
        false,
        true,
        Some("Endpoint".to_string()),
        Some(Lane::Yellow),
        None,
    );
    assert_eq!(f.kind, "Endpoint");
    assert_eq!(f.operation, Operation::Create);
    assert_eq!(f.lane, Lane::Yellow);

    let gone = change_file("projects/helsinki/a.yaml".to_string(), true, false, Some("Endpoint".to_string()), Some(Lane::Green), None);
    assert_eq!(gone.operation, Operation::Delete);
    assert_eq!(gone.lane, Lane::Red);

    let native = change_file(
        "projects/helsinki/spaces/air/pipelines/aq/main.py".to_string(),
        false,
        false,
        None,
        Some(Lane::Red),
        Some("Pipeline".to_string()),
    );
    assert_eq!(native.kind, "Pipeline");
    assert_eq!(native.operation, Operation::Update);
    assert_eq!(native.lane, Lane::Green);

    let bare = change_file("README.md".to_string(), false, false, None, None, None);
    assert_eq!(bare.kind, "");
}

#[test]
fn a_change_is_approved_at_its_riskiest_file() {
    assert_eq!(approval_lane(&vec![]), Lane::Green);
    assert_eq!(approval_lane(&vec![(false, Lane::Green), (false, Lane::Yellow), (false, Lane::Green)]), Lane::Yellow);
    assert_eq!(approval_lane(&vec![(false, Lane::Green), (true, Lane::Green)]), Lane::Red);
    assert_eq!(approval_lane(&vec![(false, Lane::Red), (false, Lane::Yellow)]), Lane::Red);
}

#[test]
fn the_author_is_the_head_commit_when_it_has_a_name() {
    let poster = || ChangeAuthor { name: "portal-bot".to_string(), email: None };
    let a = author_of(
        Some(ChangeAuthor { name: "Aino".to_string(), email: Some("aino@example.org".to_string()) }),
        poster(),
    );
    assert_eq!(a.name, "Aino");
    assert_eq!(a.email.as_deref(), Some("aino@example.org"));
    let b = author_of(Some(ChangeAuthor { name: "  ".to_string(), email: None }), poster());
    assert_eq!(b.name, "portal-bot");
    let c = author_of(None, poster());
    assert_eq!(c.name, "portal-bot");
}
