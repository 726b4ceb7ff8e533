use portal_api::change::Operation;
use portal_api::changes::{parse_branch_name, parse_change_id, redact, FieldChange};
use portal_api::json::JsonValue;

fn text(s: &str) -> JsonValue {
    JsonValue::Str(s.to_string())
}

#[test]
fn test_parse_change_id() {
    assert_eq!(parse_change_id("chg-00000001").unwrap(), 1);
    assert_eq!(parse_change_id("chg-0000002a").unwrap(), 42);
    assert_eq!(parse_change_id("chg-0000019c").unwrap(), 412);

    assert!(parse_change_id("mr-00000001").is_err());
    assert!(parse_change_id("chg-1").is_err());
    assert!(parse_change_id("chg-000000001").is_err());
    assert!(parse_change_id("chg-0000001A").is_err());
    assert!(parse_change_id("chg-0000000z").is_err());
}

#[test]
fn test_parse_branch_name() {
    let b1 = parse_branch_name("portal/create-contextspace-mobility-12345678").unwrap();
    assert_eq!(b1.operation, Operation::Create);
    assert_eq!(b1.kind_lower, "contextspace");
    assert_eq!(b1.resource_name, "mobility");
    assert_eq!(b1.hash, "12345678");

    let b2 = parse_branch_name("portal/update-endpoint-public-air-87654321").unwrap();
    assert_eq!(b2.operation, Operation::Update);
    assert_eq!(b2.kind_lower, "endpoint");
    assert_eq!(b2.resource_name, "public-air");
    assert_eq!(b2.hash, "87654321");

    let b3 = parse_branch_name("portal/delete-pipeline-traffic-stream-abcdef01").unwrap();
    assert_eq!(b3.operation, Operation::Delete);
    assert_eq!(b3.kind_lower, "pipeline");
    assert_eq!(b3.resource_name, "traffic-stream");
    assert_eq!(b3.hash, "abcdef01");

    assert!(parse_branch_name("main").is_none());
    assert!(parse_branch_name("portal/invalid").is_none());
    assert!(parse_branch_name("portal/foo-bar-baz-123").is_none());
    // A retry's nonce is not part of the name.
    let b4 = parse_branch_name("portal/update-pipeline-hel-news-0711bca4_144d2358").unwrap();
    assert_eq!(b4.operation, Operation::Update);
    assert_eq!(b4.kind_lower, "pipeline");
    assert_eq!(b4.resource_name, "hel-news");
    assert_eq!(b4.hash, "0711bca4");
}

#[test]
fn test_redact() {
    let fields = vec![
        FieldChange {
            path: "metadata.name".to_string(),
            from: None,
            to: Some(text("public-air")),
        },
        FieldChange {
            path: "spec.password".to_string(),
            from: Some(text("old-pass")),
            to: Some(text("new-pass")),
        },
        FieldChange {
            path: "spec.auth.apiKey".to_string(),
            from: None,
            to: Some(text("my-api-key")),
        },
        FieldChange {
            path: "spec.token".to_string(),
            from: Some(text("deleted-token")),
            to: None,
        },
        FieldChange {
            path: "spec.clientSecret".to_string(),
            from: Some(text("secret-1")),
            to: Some(text("secret-2")),
        },
    ];

    let redacted = redact(fields);
    assert_eq!(redacted[0].to, Some(text("public-air")));
    assert_eq!(redacted[1].from, Some(text("[REDACTED]")));
    assert_eq!(redacted[1].to, Some(text("[REDACTED]")));
    assert_eq!(redacted[2].from, None);
    assert_eq!(redacted[2].to, Some(text("[REDACTED]")));
    assert_eq!(redacted[3].from, Some(text("[REDACTED]")));
    assert_eq!(redacted[3].to, None);
    assert_eq!(redacted[4].from, Some(text("[REDACTED]")));
    assert_eq!(redacted[4].to, Some(text("[REDACTED]")));
}

#[test]
fn every_credential_name_is_redacted_in_a_plan() {
    let fields = vec![
        FieldChange { path: "spec.apiToken".to_string(), from: Some(text("t-1")), to: Some(text("t-2")) },
        FieldChange { path: "spec.ckan[0].api_token".to_string(), from: None, to: Some(text("t-3")) },
        FieldChange { path: "spec.apiTokenRef".to_string(), from: None, to: Some(text("ref")) },
    ];
    let redacted = redact(fields);
    assert_eq!(redacted[0].from, Some(text("[REDACTED]")));
    assert_eq!(redacted[0].to, Some(text("[REDACTED]")));
    assert_eq!(redacted[1].from, None);
    assert_eq!(redacted[1].to, Some(text("[REDACTED]")));
    assert_eq!(redacted[2].to, Some(text("ref")));
}
