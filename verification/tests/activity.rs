use portal_api::activity::{event_of, i64_text, triage, ActivityQuery, PageLimits};
use portal_api::json::JsonValue;
use portal_api::error::ApiError;

const DEFAULT_LIMIT: i64 = 50;
const MAX_LIMIT: i64 = 200;

fn limits() -> PageLimits {
    PageLimits { default: DEFAULT_LIMIT, max: MAX_LIMIT }
}

#[test]
fn a_query_reads_its_kinds_comma_separated_and_refuses_a_severity_that_is_not_one() {
    let filter = ActivityQuery { kind: Some("access.denied, pipeline.error".into()), ..Default::default() }
        .into_filter(limits(), true)
        .expect("a filter");
    assert_eq!(filter.kinds, vec!["access.denied", "pipeline.error"]);
    assert_eq!(filter.limit, DEFAULT_LIMIT);

    assert!(ActivityQuery { severity: Some("loud".into()), ..Default::default() }
        .into_filter(limits(), true)
        .is_err());
    assert!(ActivityQuery { since: Some("yesterday".into()), ..Default::default() }
        .into_filter(limits(), true)
        .is_err());
}

#[test]
fn a_page_larger_than_the_ceiling_is_the_ceiling() {
    let filter = ActivityQuery { limit: Some(10_000), ..Default::default() }
        .into_filter(limits(), true)
        .expect("a filter");
    assert_eq!(filter.limit, MAX_LIMIT);
}

#[test]
fn an_activity_query_is_refused_in_its_own_words() {
    match (ActivityQuery { since: Some("yesterday".into()), ..Default::default() }).into_filter(limits(), true) {
        Err(ApiError::BadRequest(m)) => assert_eq!(m, "'yesterday' is not an RFC 3339 instant"),
        other => panic!("expected BadRequest, got {:?}", other.err()),
    }
    match (ActivityQuery { severity: Some("loud".into()), ..Default::default() }).into_filter(limits(), true) {
        Err(ApiError::BadRequest(m)) => assert_eq!(m, "'loud' is not a severity: info, warning or error"),
        other => panic!("expected BadRequest, got {:?}", other.err()),
    }
    match (ActivityQuery { cursor: Some("forged".into()), ..Default::default() }).into_filter(limits(), false) {
        Err(ApiError::BadRequest(m)) => assert_eq!(m, "that cursor is not one this Portal handed out"),
        other => panic!("expected BadRequest, got {:?}", other.err()),
    }
    let f = ActivityQuery {
        since: Some("2026-09-06T16:20:11+02:00".into()),
        limit: Some(0),
        kind: Some(" , ,a".into()),
        ..Default::default()
    }
    .into_filter(limits(), true)
    .expect("a filter");
    assert_eq!(f.since, Some((1788704411, 0)));
    assert_eq!(f.limit, 1);
    assert_eq!(f.kinds, vec!["a"]);
}

#[test]
fn a_batch_is_answered_record_by_record() {
    let known = vec!["helsinki".to_string()];
    let outcomes: Vec<Result<String, String>> = vec![
        Ok("helsinki".into()),
        Err("a kind outside the vocabulary".into()),
        Ok("espoo".into()),
        Ok("helsinki".into()),
    ];
    let (accepted, response) = triage(&outcomes, &known);
    assert_eq!(accepted, vec![0, 3]);
    let partial = response.partial_success.expect("two were refused");
    assert_eq!(partial.rejected_log_records, 2);
    assert_eq!(partial.error_message, "a kind outside the vocabulary");

    let (accepted, response) = triage(&vec![Err(String::new()), Ok("espoo".into())], &known);
    assert!(accepted.is_empty());
    let partial = response.partial_success.expect("both were refused");
    assert_eq!(partial.error_message, "project 'espoo' is not a project here");

    let (_, response) = triage(&vec![Ok("helsinki".into())], &known);
    assert!(response.partial_success.is_none());
}

fn text(s: &str) -> JsonValue {
    JsonValue::Str(s.to_string())
}

fn object(members: Vec<(&str, JsonValue)>) -> JsonValue {
    JsonValue::Object(members.into_iter().map(|(k, v)| (k.to_string(), v)).collect())
}

fn attribute(key: &str, value: &str) -> JsonValue {
    object(vec![("key", text(key)), ("value", object(vec![("stringValue", text(value))]))])
}

fn record(extra: Vec<JsonValue>) -> JsonValue {
    let mut attributes = vec![
        attribute("project", "helsinki"),
        attribute("kind", "access.denied"),
        attribute("source", "gateway"),
        attribute("severity", "warning"),
        attribute("summary", "An anonymous caller was refused a write."),
    ];
    attributes.extend(extra);
    object(vec![("timeUnixNano", text("1789314063000000000")), ("attributes", JsonValue::Array(attributes))])
}

fn detail<'a>(details: &'a [(String, JsonValue)], key: &str) -> Option<&'a JsonValue> {
    details.iter().find(|(k, _)| k == key).map(|(_, v)| v)
}

#[test]
fn a_log_record_becomes_the_event_its_attributes_name() {
    let event = event_of(
        &record(vec![
            attribute("space", "air-quality"),
            attribute("correlationId", "4bf92f3577b34da6a3ce929d0e0e4736"),
            attribute("endpoint", "public-air"),
            object(vec![("key", text("requests")), ("value", object(vec![("intValue", text("42"))]))]),
        ]),
        0,
    );

    assert_eq!(event.project, "helsinki");
    assert_eq!(event.kind, "access.denied");
    assert_eq!(event.space.as_deref(), Some("air-quality"));
    assert_eq!(event.correlation_id.as_deref(), Some("4bf92f3577b34da6a3ce929d0e0e4736"));
    assert_eq!(event.time / 1_000_000_000, 1_789_314_063);
    assert_eq!(detail(&event.details, "endpoint"), Some(&text("public-air")));
    assert_eq!(detail(&event.details, "requests"), Some(&JsonValue::Number("42".to_string())));
    assert!(detail(&event.details, "project").is_none(), "a field of the record is not repeated in details");
}

#[test]
fn the_body_is_the_summary_when_no_attribute_carries_one() {
    let mut spoken = record(vec![]);
    if let JsonValue::Object(members) = &mut spoken {
        for (k, v) in members.iter_mut() {
            if k == "attributes" {
                if let JsonValue::Array(items) = v {
                    items.retain(|a| match a {
                        JsonValue::Object(m) => !m.iter().any(|(k, v)| k == "key" && *v == text("summary")),
                        _ => true,
                    });
                }
            }
        }
        members.push(("body".to_string(), object(vec![("stringValue", text("The PDP refused a write."))])));
    }
    let event = event_of(&spoken, 0);
    assert_eq!(event.summary, "The PDP refused a write.");
}

#[test]
fn a_record_without_an_instant_happened_when_it_arrived() {
    let event = event_of(&object(vec![("attributes", JsonValue::Array(vec![attribute("severity", "")]))]), 77);
    assert_eq!(event.time, 77);
    assert_eq!(event.severity, "info");
    assert_eq!(event.project, "");
    assert!(event.details.is_empty());
    let numbered = event_of(&object(vec![("timeUnixNano", JsonValue::Number("-5".to_string()))]), 77);
    assert_eq!(numbered.time, -5);
}

#[test]
fn an_attribute_keeps_its_type_and_the_last_value_wins() {
    let event = event_of(
        &record(vec![
            object(vec![("key", text("n")), ("value", object(vec![("intValue", text("+007"))]))]),
            object(vec![("key", text("big")), ("value", object(vec![("intValue", text("9223372036854775808"))]))]),
            object(vec![("key", text("ok")), ("value", object(vec![("boolValue", JsonValue::Bool(true))]))]),
            object(vec![("key", text("ratio")), ("value", object(vec![("doubleValue", JsonValue::Number("0.5".to_string()))]))]),
            attribute("endpoint", "first"),
            attribute("endpoint", "second"),
        ]),
        0,
    );
    assert_eq!(detail(&event.details, "n"), Some(&JsonValue::Number("7".to_string())));
    assert!(detail(&event.details, "big").is_none());
    assert_eq!(detail(&event.details, "ok"), Some(&JsonValue::Bool(true)));
    assert_eq!(detail(&event.details, "ratio"), Some(&JsonValue::Number("0.5".to_string())));
    assert_eq!(detail(&event.details, "endpoint"), Some(&text("second")));
    assert_eq!(i64_text("-9223372036854775808"), Some(i64::MIN));
    assert_eq!(i64_text("9223372036854775808"), None);
    assert_eq!(i64_text("-"), None);
}
