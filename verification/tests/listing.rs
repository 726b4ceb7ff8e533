use portal_api::error::ApiError;
use portal_api::resource::KindInfo;
use portal_api::resources::{health, list_limit, list_meta, list_request, readiness, resource_list, ListQuery};

fn catalogue() -> Vec<KindInfo> {
    vec![
        KindInfo { plural: "spaces".into(), kind: "ContextSpace".into() },
        KindInfo { plural: "endpoints".into(), kind: "Endpoint".into() },
    ]
}

fn query(limit: Option<usize>, revision: Option<&str>) -> ListQuery {
    ListQuery {
        label_selector: None,
        field_selector: None,
        limit,
        continue_token: None,
        revision: revision.map(str::to_string),
    }
}

#[test]
fn a_listing_asks_for_the_kind_and_a_page_the_store_serves() {
    assert_eq!(list_request("helsinki", "endpoints", &catalogue(), &query(None, None)).unwrap(), ("Endpoint".to_string(), None));
    assert_eq!(
        list_request("helsinki", "endpoints", &catalogue(), &query(Some(10_000), None)).unwrap(),
        ("Endpoint".to_string(), Some(500))
    );
    assert_eq!(list_limit(Some(500)).unwrap(), Some(500));
    assert_eq!(list_limit(Some(7)).unwrap(), Some(7));
    match list_limit(Some(0)) {
        Err(ApiError::BadRequest(m)) => assert_eq!(m, "limit must be greater than 0"),
        other => panic!("{other:?}"),
    }
    match list_request("helsinki", "widgets", &catalogue(), &query(Some(0), None)) {
        Err(ApiError::NotFound(m)) => assert_eq!(m, "plural 'widgets' not found in project 'helsinki'"),
        other => panic!("{other:?}"),
    }
    match list_request("helsinki", "widgets", &catalogue(), &query(None, Some("abc123"))) {
        Err(ApiError::NotImplemented(m)) => assert_eq!(m, "historical revisions are served from Git"),
        other => panic!("{other:?}"),
    }
}

#[test]
fn the_remaining_count_is_told_only_with_a_next_page() {
    let meta = list_meta(Some("c2".into()), 12);
    assert_eq!(meta.remaining_item_count, Some(12));
    let last = list_meta(None, 12);
    assert_eq!(last.remaining_item_count, None);
    let list = resource_list(last, vec![]);
    assert_eq!(list.api_version, "joinedcontext.com/v1alpha1");
    assert_eq!(list.kind, "List");
}

#[test]
fn health_and_readiness_say_ok_ready_or_loading() {
    let h = health("joinedcontext-portal", "1.2.3");
    assert_eq!((h.name.as_str(), h.version.as_str(), h.status), ("joinedcontext-portal", "1.2.3", "ok"));
    assert_eq!((readiness(None).0, readiness(None).1.status), (200, "ready"));
    assert_eq!((readiness(Some(true)).0, readiness(Some(true)).1.status), (200, "ready"));
    assert_eq!((readiness(Some(false)).0, readiness(Some(false)).1.status), (503, "loading"));
}
