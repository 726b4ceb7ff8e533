use portal_api::error::ApiError;
use portal_api::json::JsonValue;
use portal_api::projects::{cooldown_days, deletion_files, live_references, open_project_files, u64_text, Identity, OpenProject};
use portal_api::resource::{Envelope, Metadata};

fn text(s: &str) -> JsonValue {
    JsonValue::Str(s.to_string())
}

fn object(members: Vec<(&str, JsonValue)>) -> JsonValue {
    JsonValue::Object(members.into_iter().map(|(k, v)| (k.to_string(), v)).collect())
}

fn manifest(kind: &str, namespace: Option<&str>, name: &str, spec: JsonValue) -> Envelope {
    Envelope {
        api_version: "joinedcontext.com/v1alpha1".into(),
        kind: kind.into(),
        metadata: Metadata {
            name: name.into(),
            namespace: namespace.map(str::to_string),
            labels: vec![],
            annotations: vec![],
            title: vec![],
            description: vec![],
        },
        spec,
        phase: None,
    }
}

fn at<'a>(v: &'a JsonValue, key: &str) -> &'a JsonValue {
    v.get_member(key).unwrap_or(&JsonValue::Null)
}

#[test]
fn a_deletion_removes_the_tree_and_the_bindings_that_name_the_project() {
    let tree: Vec<String> = vec![
        "projects/helsinki/project.yaml".into(),
        "projects/helsinki/spaces/air/space.yaml".into(),
        "projects/helsinki-2/project.yaml".into(),
        "users/assignments/helsinki-creator.yaml".into(),
        "users/assignments/air-readers.yaml".into(),
        "users/assignments/espoo-creator.yaml".into(),
    ];
    let spaces = vec!["air".to_string()];
    let bindings = vec![
        ("users/assignments/espoo-creator.yaml".to_string(), object(vec![("scope", object(vec![("project", text("espoo"))]))])),
        ("users/assignments/air-readers.yaml".to_string(), object(vec![("scope", object(vec![("contextSpace", text("air"))]))])),
        ("users/assignments/helsinki-creator.yaml".to_string(), object(vec![("scope", object(vec![("project", text("helsinki"))]))])),
        ("users/assignments/gone.yaml".to_string(), object(vec![("scope", object(vec![("project", text("helsinki"))]))])),
    ];
    assert_eq!(
        deletion_files(&tree, "helsinki", &spaces, &bindings),
        vec![
            "projects/helsinki/project.yaml",
            "projects/helsinki/spaces/air/space.yaml",
            "users/assignments/air-readers.yaml",
            "users/assignments/helsinki-creator.yaml",
        ]
    );
}

#[test]
fn a_share_of_another_project_holds_a_deletion_back() {
    let endpoints = vec![
        manifest("Endpoint", Some("helsinki"), "air-public", object(vec![("slug", text("hel-air"))])),
        manifest("Endpoint", Some("helsinki"), "draft", object(vec![])),
    ];
    let others = vec![
        manifest("SharedSpaceReference", Some("espoo"), "air-from-helsinki", object(vec![("endpointSlug", text("hel-air"))])),
        manifest("SharedSpaceReference", Some("helsinki"), "own", object(vec![("endpointSlug", text("hel-air"))])),
        manifest("SharedSpaceReference", Some("vantaa"), "other", object(vec![("endpointSlug", text("esp-bikes"))])),
        manifest("Endpoint", Some("espoo"), "not-a-share", object(vec![("endpointSlug", text("hel-air"))])),
    ];
    assert_eq!(live_references(&endpoints, &others, "helsinki"), vec!["espoo/air-from-helsinki"]);
    let draft_only = vec![manifest("Endpoint", Some("helsinki"), "draft", object(vec![]))];
    assert!(live_references(&draft_only, &others, "helsinki").is_empty());
}

#[test]
fn the_name_cooldown_is_the_organizations_or_the_default() {
    let org = |days: JsonValue| manifest("Organization", Some("org"), "hel", object(vec![("projects", object(vec![("nameCooldownDays", days)]))]));
    assert_eq!(cooldown_days(&vec![org(JsonValue::Number("7".into()))], 30), 7);
    assert_eq!(cooldown_days(&vec![org(JsonValue::Number("-7".into()))], 30), 30);
    assert_eq!(cooldown_days(&vec![org(JsonValue::Number("7.5".into()))], 30), 30);
    assert_eq!(cooldown_days(&vec![], 30), 30);
    assert_eq!(u64_text("18446744073709551615"), Some(u64::MAX));
    assert_eq!(u64_text("18446744073709551616"), None);
    assert_eq!(u64_text(""), None);
}

#[test]
fn a_new_project_is_its_manifest_and_its_openers_binding() {
    let identity = Identity {
        subject: "s".into(),
        username: "anna".into(),
        email: Some("anna@hel.fi".into()),
        name: None,
        roles: vec![],
        groups: vec![],
    };
    let request = OpenProject {
        name: "bikes".into(),
        display_name: Some("City bikes".into()),
        description: Some("  ".into()),
    };
    match open_project_files(None, &identity, &request, "bikes") {
        Err(ApiError::Unavailable(m)) => assert!(m.contains("PF-66")),
        other => panic!("{other:?}"),
    }
    let files = open_project_files(Some("helsinki"), &identity, &request, "bikes").expect("files");
    assert_eq!(files[0].0, "projects/bikes/project.yaml");
    assert_eq!(files[1].0, "users/assignments/bikes-creator.yaml");
    let project = &files[0].1;
    assert_eq!(at(project, "kind"), &text("Project"));
    assert_eq!(at(at(project, "metadata"), "namespace"), &text("org"));
    assert_eq!(at(at(at(project, "metadata"), "labels"), "joinedcontext.com/display-name"), &text("City bikes"));
    assert!(at(project, "metadata").get_member("annotations").is_none(), "a blank description says nothing");
    assert_eq!(at(at(at(project, "spec"), "organizationRef"), "name"), &text("helsinki"));
    let binding = &files[1].1;
    assert_eq!(at(at(binding, "metadata"), "name"), &text("bikes-creator"));
    assert_eq!(at(at(binding, "spec"), "role"), &text("steward"));
    assert_eq!(at(at(at(binding, "spec"), "scope"), "project"), &text("bikes"));
    match at(at(binding, "spec"), "subjects") {
        JsonValue::Array(subjects) => assert_eq!(at(&subjects[0], "user"), &text("anna@hel.fi")),
        other => panic!("{other:?}"),
    }
}
