use portal_api::pipelines::{family, label, sample_parts, stream_samples, Family};

const BODY: &str = r#"
# HELP input_received Benthos Counter metric
# TYPE input_received counter
input_received{label="mqtt",path="root.input",stream="aq-mqtt-ingest"} 128401
input_received{label="mqtt",path="root.input",stream="other-stream"} 77
output_sent{label="gateway",path="root.output",stream="aq-mqtt-ingest"} 128390
output_error{label="gateway",path="root.output",stream="aq-mqtt-ingest"} 2
processor_error{label="map",path="root.pipeline.processors.0",stream="aq-mqtt-ingest"} 1
buffer_backlog{stream="aq-mqtt-ingest"} 11
output_latency_ns{stream="aq-mqtt-ingest",quantile="0.5"} 1000000
output_latency_ns{stream="aq-mqtt-ingest",quantile="0.99"} 42500000
output_latency_ns_count{stream="aq-mqtt-ingest"} 128390
uptime_seconds 900
"#;

#[test]
fn comments_blank_lines_and_unlabelled_samples_are_ignored() {
    assert!(sample_parts("# HELP x a counter").is_none());
    assert!(sample_parts("   ").is_none());
    let (name, labels, value) = sample_parts("uptime_seconds 900").expect("a sample without labels parses");
    assert_eq!(name, "uptime_seconds");
    assert_eq!(labels, "");
    assert_eq!(value.parse::<f64>().expect("a number"), 900.0);
}

#[test]
fn the_series_of_one_stream_are_picked_out_by_family() {
    let samples = stream_samples(BODY, "aq-mqtt-ingest");
    let seen: Vec<(Family, &str, bool)> =
        samples.iter().map(|s| (s.family, s.value.as_str(), s.p99)).collect();
    assert_eq!(
        seen,
        vec![
            (Family::Received, "128401", false),
            (Family::Sent, "128390", false),
            (Family::Errors, "2", false),
            (Family::Errors, "1", false),
            (Family::BufferDepth, "11", false),
            (Family::LatencyNs, "1000000", false),
            (Family::LatencyNs, "42500000", true),
        ],
        "the neighbour's 77, the _count series and the unlabelled uptime are not ours"
    );
    assert!(stream_samples(BODY, "not-running").is_empty(), "absent is not zero");
}

#[test]
fn prefixed_and_total_suffixed_names_name_the_same_families() {
    let body = "bento_input_received_total{stream=\"aq\"} 5\nbento_output_sent_total{stream=\"aq\"} 4\n";
    let samples = stream_samples(body, "aq");
    assert_eq!(samples.len(), 2);
    assert_eq!((samples[0].family, samples[0].value.as_str()), (Family::Received, "5"));
    assert_eq!((samples[1].family, samples[1].value.as_str()), (Family::Sent, "4"));
    assert_eq!(family("bento_output_latency_ns"), Some(Family::LatencyNs));
    assert_eq!(family("uptime_seconds"), None);
}

#[test]
fn a_label_is_read_trimmed_and_unquoted() {
    assert_eq!(label("label=\"a\", stream=\"aq\"", "stream").as_deref(), Some("aq"));
    assert_eq!(label("label=\"a\"", "stream"), None);
}
