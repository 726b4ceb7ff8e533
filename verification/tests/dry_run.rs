use portal_api::dry_run::{is_dry_run, DryRunQuery};
use portal_api::error::ApiError;

#[test]
fn is_dry_run_none_is_false() {
    let q = DryRunQuery {
        workspace: None,
        dry_run: None,
    };
    assert!(!is_dry_run(&q).expect("query should succeed"));
}

#[test]
fn is_dry_run_all_is_true() {
    let q = DryRunQuery {
        workspace: None,
        dry_run: Some("All".to_string()),
    };
    assert!(is_dry_run(&q).expect("query should succeed"));
}

#[test]
fn is_dry_run_other_value_is_rejected_with_bad_request() {
    for candidate in ["true", "all", "1", ""] {
        let q = DryRunQuery {
            workspace: None,
            dry_run: Some(candidate.to_string()),
        };
        let err = is_dry_run(&q).expect_err("should reject unsupported values");
        match err {
            ApiError::BadRequest(msg) => {
                assert!(
                    msg.contains("All"),
                    "error message should name 'All' as accepted value, got: {msg}"
                );
            }
            other => panic!("expected ApiError::BadRequest, got {other:?}"),
        }
    }
}
