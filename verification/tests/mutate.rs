use portal_api::json::JsonValue;
use portal_api::mutate::{build_lane_write, propose_step, admit_envelope, find_literal_secret, pending_change, proposal_texts};
use portal_api::change::Operation;
use portal_api::error::ApiError;
use portal_api::resource::{Envelope, KindInfo, Metadata};

fn text(s: &str) -> JsonValue {
    JsonValue::Str(s.to_string())
}

fn object(members: Vec<(&str, JsonValue)>) -> JsonValue {
    JsonValue::Object(members.into_iter().map(|(k, v)| (k.to_string(), v)).collect())
}

#[test]
fn detects_literal_secrets_and_permits_secret_refs() {
    assert_eq!(
        find_literal_secret(&object(vec![("password", text("supersecret"))])),
        Some("password".into())
    );
    assert_eq!(
        find_literal_secret(&object(vec![("spec", object(vec![("token", text("ghp_123"))]))])),
        Some("token".into())
    );
    assert_eq!(
        find_literal_secret(&object(vec![(
            "spec",
            object(vec![("nested", object(vec![("clientSecret", text("plain"))]))])
        )])),
        Some("clientSecret".into())
    );
    assert_eq!(
        find_literal_secret(&object(vec![("apiKey", text("12345"))])),
        Some("apiKey".into())
    );

    assert_eq!(
        find_literal_secret(&object(vec![(
            "spec",
            object(vec![(
                "password",
                object(vec![(
                    "secretRef",
                    object(vec![("name", text("db-secret")), ("key", text("password"))])
                )])
            )])
        )])),
        None
    );
    assert_eq!(
        find_literal_secret(&object(vec![(
            "spec",
            object(vec![("secretRef", object(vec![("name", text("vault-key"))]))])
        )])),
        None
    );
    assert_eq!(
        find_literal_secret(&object(vec![
            ("metadata", object(vec![("name", text("public-air"))])),
            ("spec", object(vec![("audience", text("public"))])),
        ])),
        None
    );
}

fn envelope(kind: &str, name: &str, namespace: Option<&str>) -> Envelope {
    Envelope {
        api_version: "joinedcontext.com/v1".to_string(),
        kind: kind.to_string(),
        metadata: Metadata {
            name: name.to_string(),
            namespace: namespace.map(str::to_string),
            labels: vec![],
            annotations: vec![],
            title: vec![],
            description: vec![],
        },
        spec: object(vec![]),
        phase: None,
    }
}

fn refusal(r: Result<(), ApiError>) -> String {
    match r {
        Err(ApiError::BadRequest(m)) => m,
        other => panic!("expected a 400, got {other:?}"),
    }
}

#[test]
fn an_envelope_is_admitted_only_where_its_route_says() {
    let mut e = envelope("Endpoint", "air", None);
    assert!(admit_envelope(&mut e, "endpoints", "Endpoint", Some("air"), "helsinki").is_ok());
    assert_eq!(e.metadata.namespace.as_deref(), Some("helsinki"));

    let mut blank = envelope("Endpoint", "air", Some(""));
    assert!(admit_envelope(&mut blank, "endpoints", "Endpoint", None, "helsinki").is_ok());
    assert_eq!(blank.metadata.namespace.as_deref(), Some("helsinki"));

    let mut wrong_kind = envelope("DataModel", "air", None);
    assert_eq!(
        refusal(admit_envelope(&mut wrong_kind, "endpoints", "Endpoint", None, "helsinki")),
        "kind 'DataModel' does not match plural 'endpoints' (expected 'Endpoint')"
    );
    assert_eq!(wrong_kind.metadata.namespace, None);

    let mut wrong_name = envelope("Endpoint", "air", None);
    assert_eq!(
        refusal(admit_envelope(&mut wrong_name, "endpoints", "Endpoint", Some("water"), "helsinki")),
        "metadata.name 'air' does not match path 'water'"
    );

    let mut foreign = envelope("Endpoint", "air", Some("espoo"));
    assert_eq!(
        refusal(admit_envelope(&mut foreign, "endpoints", "Endpoint", None, "helsinki")),
        "metadata.namespace 'espoo' does not match project 'helsinki'"
    );
    assert_eq!(foreign.metadata.namespace.as_deref(), Some("espoo"));
}

#[test]
fn a_proposal_says_what_it_does() {
    let (title, body) = proposal_texts(Operation::Update, "Endpoint", "air", "helsinki");
    assert_eq!(title, "update Endpoint air");
    assert_eq!(body, "Proposed update of Endpoint `air` in project `helsinki` via joinedcontext Portal.");
    match pending_change("Endpoint", "air", "chg-0000002a") {
        ApiError::Conflict(m) => {
            assert_eq!(m, "a change for Endpoint 'air' is already open: chg-0000002a; approve or reject it first")
        }
        _ => panic!("expected a 409"),
    }
}

fn kinds() -> Vec<KindInfo> {
    vec![
        KindInfo { plural: "endpoints".to_string(), kind: "Endpoint".to_string() },
        KindInfo { plural: "apps".to_string(), kind: "App".to_string() },
    ]
}

fn proposed(r: Result<portal_api::mutate::ProposePlan, ApiError>) -> String {
    match r {
        Err(ApiError::BadRequest(m)) | Err(ApiError::NotFound(m)) | Err(ApiError::Denied(m)) => m,
        Err(other) => panic!("unexpected {other:?}"),
        Ok(_) => panic!("expected a refusal"),
    }
}

#[test]
fn a_proposal_is_refused_at_its_first_failing_check() {
    let body = object(vec![]);
    let none: Vec<String> = vec![];
    let step = |body: &JsonValue, env: Envelope, plural: &str, served: bool, defined: bool, built: &Vec<String>| {
        propose_step(body, env, &kinds(), "helsinki", plural, None, Operation::Create, served, "joinedcontext.com/v1alpha1", None, built, defined, false)
    };
    assert_eq!(
        proposed(step(&body, envelope("Endpoint", "air", None), "widgets", true, true, &none)),
        "plural 'widgets' not found in project 'helsinki'"
    );
    assert_eq!(
        proposed(step(&body, envelope("Endpoint", "air", None), "endpoints", false, true, &none)),
        "apiVersion 'joinedcontext.com/v1' is not supported (expected 'joinedcontext.com/v1alpha1')"
    );
    assert_eq!(
        proposed(step(&body, envelope("Endpoint", "air", Some("espoo")), "endpoints", true, true, &none)),
        "metadata.namespace 'espoo' does not match project 'helsinki'"
    );
    let with_status = object(vec![("status", object(vec![("phase", text("Ready"))]))]);
    assert_eq!(
        proposed(step(&with_status, envelope("Endpoint", "air", None), "endpoints", true, true, &none)),
        "status is computed by the platform and cannot be specified in the manifest (MF-04)"
    );
    let secret = object(vec![("spec", object(vec![("password", text("x"))]))]);
    assert_eq!(
        proposed(step(&secret, envelope("Endpoint", "air", None), "endpoints", true, true, &none)),
        "literal secret in field 'password' is forbidden; use secretRef instead (MF-24)"
    );
    let mut annotated = envelope("Endpoint", "air", None);
    annotated.metadata.annotations = vec![("joinedcontext.com/image-digest".to_string(), "sha256:ab".to_string())];
    let built = vec!["joinedcontext.com/image-digest".to_string()];
    assert_eq!(
        proposed(step(&body, annotated, "endpoints", true, true, &built)),
        "annotation 'joinedcontext.com/image-digest' is written by the build lane when it publishes an image and cannot be set in a proposal (AP-11, AP-13a)"
    );
    assert!(proposed(step(&body, envelope("Endpoint", "air", None), "endpoints", true, false, &none))
        .starts_with("kind 'Endpoint' is declared but not defined by the platform yet"));
    let plan = step(&body, envelope("Endpoint", "air", None), "endpoints", true, true, &none).unwrap();
    assert_eq!(plan.envelope.metadata.namespace.as_deref(), Some("helsinki"));
    assert!(!plan.build_write);
    assert_eq!(plan.title, "create Endpoint air");
    assert_eq!(plan.body, "Proposed create of Endpoint `air` in project `helsinki` via joinedcontext Portal.");
}

#[test]
fn only_the_build_lane_writes_an_apps_build_status() {
    let build = object(vec![("status", object(vec![("build", object(vec![("digest", text("sha256:ab"))]))]))]);
    assert!(build_lane_write("App", &build, true).is_ok());
    assert!(matches!(build_lane_write("App", &build, false), Err(ApiError::Denied(_))));
    assert!(matches!(build_lane_write("Endpoint", &build, true), Err(ApiError::BadRequest(_))));
    let phase = object(vec![("status", object(vec![("build", object(vec![])), ("phase", text("Ready"))]))]);
    assert!(matches!(build_lane_write("App", &phase, true), Err(ApiError::BadRequest(_))));
    let null = object(vec![("status", object(vec![("build", JsonValue::Null)]))]);
    assert!(matches!(build_lane_write("App", &null, true), Err(ApiError::BadRequest(_))));
}
