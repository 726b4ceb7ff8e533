use portal_api::dry_run::Probe;
use portal_api::error::ApiError;
use portal_api::json::JsonValue;
use portal_api::pipeline_test::{
    answer_of, candidate_manifest, feed_failed, outcome_of, probe_plan, FeedMarkers, RunningTests,
    TraceError, TraceSummary,
};

const EMPTY_BODY: &str = "the feed answered an empty body";

fn text(s: &str) -> JsonValue {
    JsonValue::Str(s.to_string())
}

fn object(members: Vec<(&str, JsonValue)>) -> JsonValue {
    JsonValue::Object(members.into_iter().map(|(k, v)| (k.to_string(), v)).collect())
}

fn markers() -> FeedMarkers {
    FeedMarkers { fetch_failed: "fetch: ".into(), empty_body: EMPTY_BODY.into() }
}

fn trace_with(events: usize, errors: &[(&str, &str)]) -> TraceSummary {
    TraceSummary {
        events,
        bytes: events * 10,
        sample: Some(object(vec![("id", JsonValue::Number("1".into()))])),
        errors: errors
            .iter()
            .map(|(stage, message)| TraceError { stage: (*stage).into(), message: (*message).into() })
            .collect(),
    }
}

#[test]
fn the_probe_names_what_the_fetch_answered_and_a_kept_stream_never_replaces_it() {
    let kept = (
        "runner",
        "the test stream could not be deleted; the runner keeps it until it is",
    );
    let records = answer_of(trace_with(2, &[kept]), &markers());
    assert_eq!((records.records, records.bytes), (Some(2), Some(20)));
    assert!(records.skipped.is_none());

    for (error, said) in [
        ("fetch: http://127.0.0.1:42019/x: Get \"http://127.0.0.1:42019/x\": dial tcp 127.0.0.1:42019: connect: connection refused", "the feed could not be reached: connection refused"),
        ("fetch: http://127.0.0.1:42013/missing: HTTP request returned unexpected response code (404): 404 Not Found, Error: not here", "the feed answered 404 Not Found"),
        ("fetch: http://127.0.0.1:42013/slow: Get \"http://127.0.0.1:42013/slow\": context deadline exceeded (Client.Timeout exceeded while awaiting headers)", "the feed did not answer within the test's three seconds"),
        ("fetch: https://127.0.0.1:42013/tls: Get \"https://127.0.0.1:42013/tls\": tls: first record does not look like a TLS handshake", "the feed could not be reached: first record does not look like a TLS handshake"),
        ("fetch: http://no-such-host.invalid/x: Get \"http://no-such-host.invalid/x\": dial tcp: lookup no-such-host.invalid on 192.168.65.7:53: no such host", "the feed could not be reached: no such host"),
        ("fetch: failed assignment (line 1): the feed answered an empty body", EMPTY_BODY),
        ("failed to parse message into JSON array: invalid character '<' looking for beginning of value", "the feed is not JSON: invalid character '<' looking for beginning of value"),
    ] {
        let answer = answer_of(trace_with(1, &[("mapping", error), kept]), &markers());
        assert_eq!(answer.skipped.as_deref(), Some(said));
        assert_eq!(feed_failed(&answer).map(|s| s.as_str()), Some(said));
    }
    assert_eq!(
        answer_of(trace_with(0, &[kept]), &markers()).skipped.as_deref(),
        Some("the feed answered nothing within the test's three seconds")
    );
    assert!(feed_failed(&answer_of(trace_with(0, &[kept]), &markers())).is_some());
    assert!(feed_failed(&records).is_none());
    assert!(feed_failed(&Probe::skipped(
        "the source declares a credential; a dry run resolves none (MF-38)".into()
    ))
    .is_none());
}

#[test]
fn a_transport_error_without_a_clause_is_reported_whole() {
    assert_eq!(outcome_of("fetch: boom", &markers()), "the feed could not be reached: boom");
    assert_eq!(outcome_of("not json", &markers()), "the feed is not JSON: not json");
}

fn draft() -> JsonValue {
    object(vec![
        ("apiVersion", text("joinedcontext.com/v1alpha1")),
        ("kind", text("Pipeline")),
        ("metadata", object(vec![("name", text("x"))])),
        (
            "spec",
            object(vec![
                ("class", text("resident")),
                ("targetEndpoint", text("urn:ngsi-ld:Endpoint:hel.fi:helsinki:all")),
            ]),
        ),
    ])
}

fn at<'a>(v: &'a JsonValue, key: &str) -> &'a JsonValue {
    v.get_member(key).unwrap_or(&JsonValue::Null)
}

#[test]
fn a_manifest_of_another_kind_or_a_broken_spec_is_400() {
    assert!(matches!(
        candidate_manifest(object(vec![("kind", text("Endpoint")), ("spec", object(vec![]))]), "helsinki"),
        Err(ApiError::BadRequest(_))
    ));
    // The draft names no namespace: the project of the URL is filled in. Another project's
    // namespace is refused.
    let filled = candidate_manifest(draft(), "helsinki").expect("a valid pipeline");
    assert_eq!(at(at(&filled, "metadata"), "namespace"), &text("helsinki"));
    assert!(at(&filled, "spec").get_member("compute").is_none());
    let foreign = |project: &str| {
        object(vec![
            ("kind", text("Pipeline")),
            ("metadata", object(vec![("name", text("x")), ("namespace", text(project))])),
            ("spec", object(vec![])),
        ])
    };
    match candidate_manifest(foreign("espoo"), "helsinki") {
        Err(ApiError::BadRequest(m)) => {
            assert_eq!(m, "pipeline.metadata.namespace 'espoo' is not the project 'helsinki'")
        }
        other => panic!("expected BadRequest, got {other:?}"),
    }
    assert!(candidate_manifest(foreign("espoo"), "espoo").is_ok());
}

#[test]
fn only_an_http_source_without_a_credential_is_probed() {
    assert!(probe_plan(&object(vec![("type", text("mqtt")), ("mqtt", object(vec![]))])).is_none());
    let with_credential = object(vec![
        ("type", text("http")),
        (
            "http",
            object(vec![
                ("url", text("https://feeds.example/bikes.json")),
                (
                    "authorization",
                    object(vec![
                        ("scheme", text("bearer")),
                        ("headerRef", object(vec![("name", text("feed")), ("key", text("token"))])),
                    ]),
                ),
            ]),
        ),
    ]);
    let skipped = probe_plan(&with_credential).expect("http").expect_err("skipped");
    assert!(skipped.skipped.as_deref().is_some_and(|r| r.contains("MF-38")));
    assert!(!format!("{skipped:?}").contains("token\": \""));
    assert_eq!(
        probe_plan(&object(vec![
            ("type", text("http")),
            ("http", object(vec![("url", text("https://feeds.example/bikes.json"))])),
        ]))
        .map(|r| r.map_err(|p| p.skipped)),
        Some(Ok("https://feeds.example/bikes.json".to_owned()))
    );
    assert!(probe_plan(&object(vec![
        ("type", text("http")),
        ("http", object(vec![("url", text("ftp://x"))])),
    ]))
    .expect("http")
    .is_err());
}

#[test]
fn one_test_per_project_and_the_slot_is_freed_when_it_ends() {
    let mut running = RunningTests::new();
    assert!(running.take("slot-project", "id-1").is_ok());
    match running.take("slot-project", "id-2") {
        Err(ApiError::Conflict(m)) => {
            assert_eq!(m, "a pipeline test is already running in 'slot-project'; wait for it")
        }
        other => panic!("expected Conflict, got {other:?}"),
    }
    assert!(running.take("other-project", "id-3").is_ok());
    running.free("id-1");
    assert!(running.take("slot-project", "id-4").is_ok());
    assert_eq!(running.project_of("id-4").map(|s| s.as_str()), Some("slot-project"));
    assert_eq!(running.project_of("id-1"), None);
}
