use portal_api::agent_runs::{
    app_manifest, authenticate_proxy, code_files, constant_time_eq, navigate_route, run_in_project, PublishedRun,
};
use portal_api::error::ApiError;
use portal_api::json::JsonValue;

fn text(s: &str) -> JsonValue {
    JsonValue::Str(s.to_string())
}

fn object(members: Vec<(&str, JsonValue)>) -> JsonValue {
    JsonValue::Object(members.into_iter().map(|(k, v)| (k.to_string(), v)).collect())
}

#[test]
fn a_portal_path_with_a_prefill_passes() {
    let payload = object(vec![
        ("route", text("/projects/helsinki/endpoints?tab=all")),
        ("prefill", object(vec![("name", text("air-quality-public"))])),
    ]);
    assert_eq!(
        navigate_route(&payload).unwrap(),
        "/projects/helsinki/endpoints?tab=all"
    );
    assert!(navigate_route(&object(vec![("route", text("/"))])).is_ok());
    assert!(navigate_route(&object(vec![("route", text("/x")), ("prefill", JsonValue::Null)])).is_ok());
}

#[test]
fn anything_that_is_not_a_path_inside_the_portal_is_refused() {
    for route in [
        "https://evil.example/",
        "//evil.example/projects",
        "javascript:alert(1)",
        "projects/helsinki",
        "/projects/helsinki#/x",
        "/projects/hel\nsinki",
        "",
    ] {
        assert!(
            navigate_route(&object(vec![("route", text(route))])).is_err(),
            "{route:?}"
        );
    }
    let long = format!("/{}", "a".repeat(512));
    assert!(navigate_route(&object(vec![("route", text(&long))])).is_err());
    assert!(navigate_route(&object(vec![("prefill", object(vec![]))])).is_err());
    assert!(navigate_route(&object(vec![("route", text("/x")), ("prefill", text("name=x"))])).is_err());
    assert!(navigate_route(&object(vec![
        ("route", text("/x")),
        ("prefill", JsonValue::Array(vec![JsonValue::Number("1".to_string())])),
    ]))
    .is_err());
}

#[test]
fn equal_texts_are_equal_in_constant_time() {
    assert!(constant_time_eq("s3cr3t-token", "s3cr3t-token"));
    assert!(!constant_time_eq("s3cr3t-token", "s3cr3t-tokem"));
    assert!(!constant_time_eq("s3cr3t", "s3cr3t-token"));
    assert!(constant_time_eq("", ""));
}

#[test]
fn the_proxy_presents_the_runner_token() {
    assert!(authenticate_proxy(Some("tok"), Some("Bearer tok")).is_ok());
    assert!(matches!(authenticate_proxy(Some("tok"), Some("Bearer other")), Err(ApiError::Unauthorized)));
    assert!(matches!(authenticate_proxy(Some("tok"), Some("tok")), Err(ApiError::Unauthorized)));
    assert!(matches!(authenticate_proxy(Some("tok"), None), Err(ApiError::Unauthorized)));
    assert!(matches!(authenticate_proxy(None, Some("Bearer tok")), Err(ApiError::Unauthorized)));
}

#[test]
fn a_run_of_another_project_is_not_found() {
    assert!(run_in_project(Some("helsinki"), "helsinki", "run-1").is_ok());
    match run_in_project(Some("espoo"), "helsinki", "run-1") {
        Err(ApiError::NotFound(m)) => assert_eq!(m, "run 'run-1' not found in project 'helsinki'"),
        _ => panic!("expected a 404"),
    }
    assert!(matches!(run_in_project(None, "helsinki", "run-1"), Err(ApiError::NotFound(_))));
}

#[test]
fn the_code_of_a_run_is_its_text_under_src_or_functions() {
    let files = object(vec![
        ("README.md", text("# app")),
        ("src/main.rs", text("fn main() {}")),
        ("functions/hello.js", text("export default 1")),
        ("src/logo.png", JsonValue::Null),
    ]);
    assert_eq!(
        code_files(&files),
        vec![
            ("src/main.rs".to_string(), "fn main() {}".to_string()),
            ("functions/hello.js".to_string(), "export default 1".to_string()),
        ]
    );
    assert!(code_files(&text("src/main.rs")).is_empty());
}

#[test]
fn a_published_run_leaves_an_app_manifest() {
    let run = PublishedRun {
        id: "run-7".to_string(),
        project: "helsinki".to_string(),
        app_name: "bike-map".to_string(),
        app_class: "static".to_string(),
        visibility: "organization".to_string(),
        prompt_digest: "sha256:ab".to_string(),
    };
    let needs = JsonValue::Array(vec![text("public-bikes")]);
    let app = app_manifest(&run, needs);
    let JsonValue::Object(m) = &app else { panic!("an object") };
    let keys: Vec<&str> = m.iter().map(|(k, _)| k.as_str()).collect();
    assert_eq!(keys, vec!["apiVersion", "kind", "metadata", "spec"]);
    assert!(matches!(&m[1].1, JsonValue::Str(k) if k == "App"));
    let JsonValue::Object(spec) = &m[3].1 else { panic!("a spec") };
    let JsonValue::Object(build) = &spec[2].1 else { panic!("a build") };
    assert_eq!(build.len(), 1);
    assert_eq!(build[0].0, "node");
    assert!(matches!(&spec[5].1, JsonValue::Array(v) if v.len() == 1));

    let server = PublishedRun { app_class: "server".to_string(), ..run };
    let JsonValue::Object(m) = app_manifest(&server, JsonValue::Null) else { panic!("an object") };
    let JsonValue::Object(spec) = &m[3].1 else { panic!("a spec") };
    let JsonValue::Object(build) = &spec[2].1 else { panic!("a build") };
    assert_eq!(build.iter().map(|(k, _)| k.as_str()).collect::<Vec<_>>(), vec!["rust", "node"]);
}
