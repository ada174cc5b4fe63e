use metrix::exporters::json_exporter::{collect_metrics_json, snapshot_object};
use metrix::exporters::prometheus::{
    collect_metrics, format_labels, sanitize_metric_name, CONTENT_TYPE,
};
use metrix::exporters::pushgateway::{push_accepted, push_url};
use metrix::labels::Labels;
use metrix::registry::Registry;

fn labels_from(pairs: &[(&str, &str)]) -> Labels {
    let mut labels = Labels::new();
    for (k, v) in pairs {
        labels.insert(k.to_string(), v.to_string());
    }
    labels
}

fn readings(registry: &Registry) -> Vec<String> {
    registry.gauges().iter().map(|g| format!("{}", f64::from_bits(g.get()))).collect()
}

#[test]
fn fresh_counter_renders_with_a_clean_name() {
    let mut r = Registry::new();
    r.register_counter("http.requests-total", Labels::new());
    let text = collect_metrics(&r, &vec![]).unwrap();
    assert_eq!(text, "http_requests_total 0\n");
    let name = text.split(' ').next().unwrap();
    assert!(!name.contains('.'));
    assert!(!name.contains('-'));
}

#[test]
fn sanitizing_replaces_dots_and_hyphens_only() {
    assert_eq!(sanitize_metric_name("http.requests-total"), "http_requests_total");
    assert_eq!(sanitize_metric_name("..--"), "____");
    assert_eq!(sanitize_metric_name("plain_name:1"), "plain_name:1");
    assert_eq!(sanitize_metric_name(""), "");
    assert_eq!(sanitize_metric_name("caf\u{e9}.au-lait"), "caf\u{e9}_au_lait");
}

#[test]
fn label_block_is_empty_without_labels() {
    assert_eq!(format_labels(&Labels::new()), "");
}

#[test]
fn label_block_lists_the_labels_by_key() {
    let labels = labels_from(&[("path", "/"), ("method", "GET"), ("zone", "eu")]);
    assert_eq!(format_labels(&labels), "{method=\"GET\",path=\"/\",zone=\"eu\"}");
    let one = labels_from(&[("k", "v")]);
    assert_eq!(format_labels(&one), "{k=\"v\"}");
}

#[test]
fn label_values_are_not_escaped() {
    let labels = labels_from(&[("q", "say \"hi\"\\")]);
    assert_eq!(format_labels(&labels), "{q=\"say \"hi\"\\\"}");
}

#[test]
fn counters_come_first_and_each_kind_by_name() {
    let mut r = Registry::new();
    let g2 = r.register_gauge("temp.outside", Labels::new());
    let c2 = r.register_counter("requests", labels_from(&[("b", "2"), ("a", "1")]));
    let g1 = r.register_gauge("load", labels_from(&[("host", "h1")]));
    let c1 = r.register_counter("errors", Labels::new());
    r.increment_counter_by(c2, 12);
    r.increment_counter(c1);
    r.set_gauge(g2, (-3.5f64).to_bits());
    r.set_gauge(g1, 0.75f64.to_bits());
    let text = collect_metrics(&r, &readings(&r)).unwrap();
    assert_eq!(
        text,
        "errors 1\nrequests{a=\"1\",b=\"2\"} 12\nload{host=\"h1\"} 0.75\ntemp_outside -3.5\n"
    );
}

#[test]
fn names_are_ordered_as_registered_not_as_rendered() {
    let mut r = Registry::new();
    // '-' sorts before '.', and both before '_'
    r.register_counter("a_b", Labels::new());
    r.register_counter("a.c", Labels::new());
    r.register_counter("a-d", Labels::new());
    let text = collect_metrics(&r, &vec![]).unwrap();
    assert_eq!(text, "a_d 0\na_c 0\na_b 0\n");
}

#[test]
fn counter_values_are_decimal() {
    let mut r = Registry::new();
    let a = r.register_counter("a", Labels::new());
    let b = r.register_counter("b", Labels::new());
    let c = r.register_counter("c", Labels::new());
    r.increment_counter_by(a, 9);
    r.increment_counter_by(b, 10);
    r.increment_counter_by(c, u64::MAX);
    let text = collect_metrics(&r, &vec![]).unwrap();
    assert_eq!(text, "a 9\nb 10\nc 18446744073709551615\n");
}

#[test]
fn empty_registry_renders_nothing() {
    let r = Registry::new();
    assert_eq!(collect_metrics(&r, &vec![]), Some(String::new()));
}

#[test]
fn a_reading_for_each_gauge_is_needed() {
    let mut r = Registry::new();
    r.register_gauge("load", Labels::new());
    assert_eq!(collect_metrics(&r, &vec![]), None);
    assert_eq!(collect_metrics(&r, &vec!["1".to_string(), "2".to_string()]), None);
    assert_eq!(collect_metrics(&r, &vec!["1".to_string()]), Some("load 1\n".to_string()));
}

#[test]
fn encoding_twice_gives_the_same_bytes() {
    let mut r = Registry::new();
    for name in ["delta", "alpha", "charlie", "bravo"] {
        let id = r.register_counter(name, labels_from(&[("y", "2"), ("x", "1")]));
        r.increment_counter_by(id, name.len() as u64);
        r.register_gauge(name, Labels::new());
    }
    let first = collect_metrics(&r, &readings(&r)).unwrap();
    let second = collect_metrics(&r, &readings(&r)).unwrap();
    assert_eq!(first, second);
    assert_eq!(first.lines().count(), 8);
}

#[test]
fn the_order_of_registration_does_not_show() {
    let mut one = Registry::new();
    let mut two = Registry::new();
    let names = ["delta", "alpha", "charlie", "bravo"];
    for name in names {
        let id = one.register_counter(name, labels_from(&[("k", name)]));
        one.increment_counter_by(id, name.len() as u64);
    }
    for name in names.iter().rev() {
        let id = two.register_counter(name, labels_from(&[("k", name)]));
        two.increment_counter_by(id, name.len() as u64);
    }
    let first = collect_metrics(&one, &vec![]).unwrap();
    let second = collect_metrics(&two, &vec![]).unwrap();
    assert_eq!(first, second);
    assert!(first.starts_with("alpha{k=\"alpha\"} 5\nbravo"));
}

#[test]
fn content_type_of_the_exposition() {
    assert_eq!(CONTENT_TYPE, "text/plain; version=0.0.4");
}

#[test]
fn json_snapshot_of_counters_and_gauges() {
    let mut r = Registry::new();
    let c = r.register_counter("http.requests-total", Labels::new());
    r.increment_counter_by(c, 3);
    let g = r.register_gauge("load", Labels::new());
    r.set_gauge(g, 0.5f64.to_bits());
    let values: Vec<serde_json::Value> =
        r.gauges().iter().map(|g| serde_json::Value::from(f64::from_bits(g.get()))).collect();
    let text = collect_metrics_json(&r, values).unwrap();
    assert_eq!(text, "{\"http_requests_total\":3,\"load\":0.5}");
}

#[test]
fn json_snapshot_of_one_counter() {
    let mut r = Registry::new();
    let c = r.register_counter("a.b", Labels::new());
    r.increment_counter_by(c, 3);
    assert_eq!(collect_metrics_json(&r, vec![]), Some("{\"a_b\":3}".to_string()));
    r.increment_counter_by(c, u64::MAX - 3);
    assert_eq!(
        collect_metrics_json(&r, vec![]),
        Some("{\"a_b\":18446744073709551615}".to_string())
    );
}

#[test]
fn json_snapshot_later_member_wins() {
    let mut r = Registry::new();
    let first = r.register_counter("a.b", Labels::new());
    let second = r.register_counter("a-b", Labels::new());
    r.increment_counter_by(first, 1);
    r.increment_counter_by(second, 2);
    assert_eq!(collect_metrics_json(&r, vec![]), Some("{\"a_b\":2}".to_string()));
    r.register_gauge("a_b", Labels::new());
    let text = collect_metrics_json(&r, vec![serde_json::Value::from(7.25f64)]).unwrap();
    assert_eq!(text, "{\"a_b\":7.25}");
}

#[test]
fn json_snapshot_needs_a_reading_for_each_gauge() {
    let mut r = Registry::new();
    r.register_gauge("load", Labels::new());
    assert_eq!(collect_metrics_json(&r, vec![]), None);
    assert_eq!(
        collect_metrics_json(&r, vec![serde_json::Value::Null, serde_json::Value::Null]),
        None
    );
    assert_eq!(
        collect_metrics_json(&r, vec![serde_json::Value::Null]),
        Some("{\"load\":null}".to_string())
    );
}

#[test]
fn json_object_holds_the_sanitized_names_and_the_values() {
    let mut r = Registry::new();
    let c = r.register_counter("http.requests-total", Labels::new());
    r.increment_counter_by(c, 3);
    r.register_counter("idle", Labels::new());
    r.register_gauge("load", Labels::new());
    let object = snapshot_object(&r, vec![serde_json::Value::from(0.5f64)]).unwrap();
    assert_eq!(object.len(), 3);
    assert_eq!(object.get("http_requests_total"), Some(&serde_json::Value::from(3u64)));
    assert_eq!(object.get("idle"), Some(&serde_json::Value::from(0u64)));
    assert_eq!(object.get("load"), Some(&serde_json::Value::from(0.5f64)));
    assert!(object.get("http.requests-total").is_none());
}

#[test]
fn json_object_needs_a_reading_for_each_gauge() {
    let mut r = Registry::new();
    assert_eq!(snapshot_object(&r, vec![]).map(|o| o.len()), Some(0));
    assert!(snapshot_object(&r, vec![serde_json::Value::Null]).is_none());
    r.register_gauge("load", Labels::new());
    assert!(snapshot_object(&r, vec![]).is_none());
    assert!(snapshot_object(&r, vec![serde_json::Value::Null]).is_some());
}

#[test]
fn json_snapshot_of_an_empty_registry() {
    let r = Registry::new();
    assert_eq!(collect_metrics_json(&r, vec![]), Some("{}".to_string()));
}

#[test]
fn push_goes_to_the_job_address() {
    assert_eq!(push_url("http://gateway:9091", "batch"), "http://gateway:9091/metrics/job/batch");
    assert_eq!(push_url("", ""), "/metrics/job/");
}

#[test]
fn push_is_accepted_by_2xx_only() {
    assert!(push_accepted(200));
    assert!(push_accepted(202));
    assert!(push_accepted(299));
    assert!(!push_accepted(199));
    assert!(!push_accepted(300));
    assert!(!push_accepted(404));
    assert!(!push_accepted(500));
}
