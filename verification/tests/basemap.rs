use portal_api::basemap::{
    cache_key, cached_media_type, client_ip, eviction_order, over_budget, check_upstream, parse_tile, style_document, style_refusal, style_url,
    tile_url, upstream_url, Basemap, Config,
};
use portal_api::json::JsonValue;

fn basemap(template: &str, allow_http: bool) -> Basemap {
    Basemap {
        url_template: template.to_string(),
        key: Some("k3y".to_string()),
        max_zoom: 18,
        allow_http,
        attribution: "© OpenStreetMap".to_string(),
        cache_ttl_secs: 3600,
        cache_max_bytes: 1 << 20,
    }
}

fn config(with_basemap: bool) -> Config {
    Config {
        public_base_url: "https://portal.example.org//".to_string(),
        basemap: if with_basemap { Some(basemap("https://tiles.example.org/{z}/{x}/{y}.{ext}?key={key}", false)) } else { None },
    }
}

#[test]
fn the_style_address_is_given_only_with_a_basemap() {
    assert_eq!(
        style_url(&config(true), "helsinki").as_deref(),
        Some("https://portal.example.org/api/v1/projects/helsinki/basemap/default/style.json")
    );
    assert_eq!(style_url(&config(false), "helsinki"), None);
    assert_eq!(
        tile_url("https://portal.example.org/", "helsinki"),
        "https://portal.example.org/api/v1/projects/helsinki/basemap/default/{z}/{x}/{y}.png"
    );
}

#[test]
fn a_style_is_refused_without_a_basemap_for_another_style_or_an_unknown_project() {
    let projects = vec!["helsinki".to_string(), "espoo".to_string()];
    assert_eq!(
        style_refusal(&config(false), "default", "helsinki", &projects).as_deref(),
        Some("basemap is not configured on this platform")
    );
    assert_eq!(
        style_refusal(&config(true), "satellite", "helsinki", &projects).as_deref(),
        Some("basemap style 'satellite' not found")
    );
    assert_eq!(
        style_refusal(&config(true), "default", "vantaa", &projects).as_deref(),
        Some("project 'vantaa' not found")
    );
    assert_eq!(style_refusal(&config(true), "default", "espoo", &projects), None);
}

#[test]
fn the_style_draws_the_proxied_raster_tiles() {
    let style = style_document("https://portal.example.org", "helsinki", &basemap("https://t/{z}", false));
    let JsonValue::Object(m) = &style else { panic!("an object") };
    assert_eq!(m.iter().map(|(k, _)| k.as_str()).collect::<Vec<_>>(), vec!["layers", "sources", "version"]);
    assert_eq!(m[2].1, JsonValue::Number("8".to_string()));
    let JsonValue::Object(sources) = &m[1].1 else { panic!("sources") };
    let JsonValue::Object(raster) = &sources[0].1 else { panic!("a source") };
    assert_eq!(raster[0].1, JsonValue::Str("© OpenStreetMap".to_string()));
    assert_eq!(raster[1].1, JsonValue::Number("18".to_string()));
    assert_eq!(
        raster[3].1,
        JsonValue::Array(vec![JsonValue::Str(
            "https://portal.example.org/api/v1/projects/helsinki/basemap/default/{z}/{x}/{y}.png".to_string()
        )])
    );
}

#[test]
fn a_tile_request_names_a_tile_of_its_zoom() {
    let t = parse_tile(18, "3", "5", "7.jpg").unwrap();
    assert_eq!((t.z, t.x, t.y, t.ext.as_str()), (3, 5, 7, "jpg"));
    let plain = parse_tile(18, "+0", "0", "0").unwrap();
    assert_eq!((plain.z, plain.ext.as_str()), (0, "png"));
    assert_eq!(parse_tile(18, "a", "0", "0.png").unwrap_err(), "invalid zoom level: a");
    assert_eq!(parse_tile(18, "256", "0", "0.png").unwrap_err(), "invalid zoom level: 256");
    assert_eq!(parse_tile(18, "1", "-1", "0.png").unwrap_err(), "invalid tile x coordinate: -1");
    assert_eq!(parse_tile(18, "1", "0", "y.png").unwrap_err(), "invalid tile y coordinate: y");
    assert_eq!(parse_tile(18, "1", "0", "0.gif").unwrap_err(), "unsupported tile extension: gif");
    assert_eq!(parse_tile(18, "19", "0", "0.png").unwrap_err(), "zoom level 19 exceeds maximum zoom 18");
    assert_eq!(
        parse_tile(18, "2", "4", "0.png").unwrap_err(),
        "coordinates (4, 0) out of range for zoom level 2 (max 4)"
    );
}

#[test]
fn a_cached_tile_is_named_and_typed_by_its_coordinates() {
    let t = parse_tile(18, "3", "5", "7.jpeg").unwrap();
    assert_eq!(cache_key(&t), "default_3_5_7.jpeg");
    assert_eq!(cached_media_type("jpeg"), "image/jpeg");
    assert_eq!(cached_media_type("jpg"), "image/jpeg");
    assert_eq!(cached_media_type("png"), "image/png");
}

#[test]
fn the_upstream_address_fills_the_template_and_must_be_https() {
    let t = parse_tile(18, "3", "5", "7").unwrap();
    let b = basemap("https://tiles.example.org/{z}/{x}/{y}.{ext}?key={key}", false);
    assert_eq!(upstream_url(&b, &t).unwrap(), "https://tiles.example.org/3/5/7.png?key=k3y");
    let plain = basemap("http://tiles.local/{z}/{x}/{y}.{ext}", false);
    assert_eq!(upstream_url(&plain, &t).unwrap_err(), "upstream URL scheme must be https");
    let allowed = basemap("http://tiles.local/{z}/{x}/{y}.{ext}", true);
    assert_eq!(upstream_url(&allowed, &t).unwrap(), "http://tiles.local/3/5/7.png");
}

#[test]
fn only_a_small_image_is_passed_on() {
    assert_eq!(check_upstream("image/PNG", 10).unwrap(), "image/png");
    assert_eq!(check_upstream("image/jpeg; charset=binary", 10).unwrap(), "image/jpeg");
    assert_eq!(check_upstream("Text/HTML", 10).unwrap_err(), "upstream returned non-image content: text/html");
    assert_eq!(check_upstream("image/png", 1024 * 1024 + 1).unwrap_err(), "upstream tile exceeds 1 MiB limit");
    assert!(check_upstream("image/png", 1024 * 1024).is_ok());
}

#[test]
fn a_client_is_its_first_forwarded_address() {
    assert_eq!(client_ip(Some(" 10.0.0.7 , 192.168.1.1")), "10.0.0.7");
    assert_eq!(client_ip(Some("10.0.0.8")), "10.0.0.8");
    assert_eq!(client_ip(Some(" ,10.0.0.9")), "127.0.0.1");
    assert_eq!(client_ip(None), "127.0.0.1");
}

#[test]
fn the_oldest_tiles_go_first() {
    assert_eq!(eviction_order(&vec![30, 10, 20, 10]), vec![1, 3, 2, 0]);
    assert!(eviction_order(&vec![]).is_empty());
    assert!(over_budget(11, 10));
    assert!(!over_budget(10, 10));
}
