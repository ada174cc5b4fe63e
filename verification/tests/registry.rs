use metrix::labels::Labels;
use metrix::macros::{metrics_counter, metrics_counter_by, metrics_gauge, metrics_timer};
use metrix::metrics::async_timer::AsyncTimer;
use metrix::metrics::Metric;
use metrix::middleware::{begin_request, finish_request, record_request};
use metrix::registry::{find, Registry};
use metrix::tracing_integration::{span_entered, span_exited};
use std::time::Duration;

fn one_label(key: &str, value: &str) -> Labels {
    let mut labels = Labels::new();
    labels.insert(key.to_string(), value.to_string());
    labels
}

#[test]
fn new_registry_is_empty() {
    let r = Registry::new();
    assert!(r.counters().is_empty());
    assert!(r.gauges().is_empty());
    assert!(r.histograms().is_empty());
    assert!(r.meters().is_empty());
    assert!(r.timers().is_empty());
}

#[test]
fn same_name_twice_gives_the_same_handle_and_the_first_labels() {
    let mut r = Registry::new();
    let first = r.register_counter("requests", one_label("zone", "a"));
    r.increment_counter(first);
    let second = r.register_counter("requests", one_label("zone", "b"));
    assert_eq!(first, second);
    assert_eq!(r.counters().len(), 1);
    let c = &r.counters()[first];
    assert_eq!(c.get(), 1);
    assert_eq!(c.labels().get("zone").map(|s| s.as_str()), Some("a"));
}

#[test]
fn same_name_twice_for_every_kind() {
    let mut r = Registry::new();
    let g1 = r.register_gauge("g", one_label("k", "1"));
    let g2 = r.register_gauge("g", one_label("k", "2"));
    assert_eq!(g1, g2);
    assert_eq!(r.gauges()[g1].labels().get("k").map(|s| s.as_str()), Some("1"));
    let h1 = r.register_histogram("h", one_label("k", "1"));
    let h2 = r.register_histogram("h", Labels::new());
    assert_eq!(h1, h2);
    assert_eq!(r.histograms()[h1].labels().len(), 1);
    let m1 = r.register_meter("m", Labels::new());
    let m2 = r.register_meter("m", one_label("k", "2"));
    assert_eq!(m1, m2);
    assert!(r.meters()[m1].labels().is_empty());
    let t1 = r.register_timer("t", one_label("k", "1"));
    let t2 = r.register_timer("t", one_label("k", "2"));
    assert_eq!(t1, t2);
    assert_eq!(r.timers()[t1].labels().get("k").map(|s| s.as_str()), Some("1"));
    assert_eq!(r.gauges().len() + r.histograms().len() + r.meters().len() + r.timers().len(), 4);
}

#[test]
fn handles_follow_the_order_of_registration_and_stay() {
    let mut r = Registry::new();
    let z = r.register_counter("zeta", Labels::new());
    let a = r.register_counter("alpha", Labels::new());
    let m = r.register_counter("mu", Labels::new());
    assert_eq!((z, a, m), (0, 1, 2));
    assert_eq!(r.register_counter("zeta", Labels::new()), 0);
    assert_eq!(r.register_counter("mu", Labels::new()), 2);
    assert_eq!(r.counters()[1].name(), "alpha");
    assert_eq!(find(r.counters(), "mu"), Some(2));
    assert_eq!(find(r.counters(), "nu"), None);
}

#[test]
fn kinds_do_not_share_names() {
    let mut r = Registry::new();
    let c = r.register_counter("x", Labels::new());
    let g = r.register_gauge("x", Labels::new());
    let h = r.register_histogram("x", Labels::new());
    assert_eq!((c, g, h), (0, 0, 0));
    r.increment_counter_by(c, 5);
    r.set_gauge(g, 9);
    r.observe_histogram(h, 3);
    assert_eq!(r.counters()[0].get(), 5);
    assert_eq!(r.gauges()[0].get(), 9);
    assert_eq!(r.histograms()[0].get_percentile(50), Some(3));
}

#[test]
fn names_differ_by_case_and_by_length() {
    let mut r = Registry::new();
    let a = r.register_counter("Requests", Labels::new());
    let b = r.register_counter("requests", Labels::new());
    let c = r.register_counter("requests_", Labels::new());
    let d = r.register_counter("", Labels::new());
    assert_eq!((a, b, c, d), (0, 1, 2, 3));
    assert_eq!(r.register_counter("", Labels::new()), 3);
}

#[test]
fn an_unknown_handle_changes_nothing() {
    let mut r = Registry::new();
    let c = r.register_counter("c", Labels::new());
    assert!(r.increment_counter(c));
    assert!(!r.increment_counter(c + 1));
    assert!(!r.increment_counter_by(7, 3));
    assert!(!r.set_gauge(0, 1));
    assert!(!r.observe_histogram(0, 1));
    assert!(!r.mark_meter(0));
    assert!(!r.observe_timer(0, Duration::from_secs(1)));
    assert_eq!(r.counters()[c].get(), 1);
    assert!(r.gauges().is_empty());
}

#[test]
fn operations_reach_the_instrument() {
    let mut r = Registry::new();
    let m = r.register_meter("m", Labels::new());
    assert!(r.mark_meter(m));
    assert!(r.mark_meter(m));
    assert_eq!(r.meters()[m].count(), 2);
    let t = r.register_timer("t", Labels::new());
    assert!(r.observe_timer(t, Duration::from_millis(3)));
    let handle = r.timers()[t].start();
    assert!(r.stop_timer(t, handle));
    let s = r.timers()[t].get_summary().unwrap();
    assert_eq!(s.count, 2);
    assert_eq!(s.max.max(3_000_000), s.max);
}

#[test]
fn a_measurement_is_recorded_in_its_own_timer_only() {
    let mut r = Registry::new();
    let reads = r.register_timer("reads", Labels::new());
    let writes = r.register_timer("writes", Labels::new());
    let handle = r.timers()[reads].start();
    assert!(!r.stop_timer(writes, handle));
    assert!(r.timers()[writes].get_summary().is_none());
    let handle = r.timers()[reads].start();
    assert!(!r.stop_timer(7, handle));
    let handle = r.timers()[reads].start();
    assert!(r.stop_timer(reads, handle));
    assert_eq!(r.timers()[reads].get_summary().unwrap().count, 1);
    assert!(r.timers()[writes].get_summary().is_none());
}

#[test]
fn one_step_counter_and_gauge() {
    let mut r = Registry::new();
    metrics_counter(&mut r, "hits", Labels::new());
    metrics_counter(&mut r, "hits", one_label("ignored", "yes"));
    metrics_counter_by(&mut r, "hits", Labels::new(), 40);
    assert_eq!(r.counters().len(), 1);
    assert_eq!(r.counters()[0].get(), 42);
    assert!(r.counters()[0].labels().is_empty());
    metrics_gauge(&mut r, "load", Labels::new(), 1.5f64.to_bits());
    metrics_gauge(&mut r, "load", Labels::new(), 0.25f64.to_bits());
    assert_eq!(f64::from_bits(r.gauges()[0].get()), 0.25);
}

#[test]
fn one_step_timer_returns_what_the_code_returns() {
    let mut r = Registry::new();
    let answer = metrics_timer(&mut r, "work", Labels::new(), || 6 * 7);
    assert_eq!(answer, 42);
    let _ = metrics_timer(&mut r, "work", Labels::new(), || ());
    assert_eq!(r.timers()[0].get_summary().unwrap().count, 2);
}

#[test]
fn a_handled_request_is_counted_by_method_and_path() {
    let mut r = Registry::new();
    record_request(&mut r, "GET", "/users");
    record_request(&mut r, "POST", "/orders");
    assert_eq!(r.counters().len(), 1);
    let c = &r.counters()[0];
    assert_eq!(c.name(), "http_requests_total");
    assert_eq!(c.get(), 2);
    assert_eq!(c.labels().get("method").map(|s| s.as_str()), Some("GET"));
    assert_eq!(c.labels().get("path").map(|s| s.as_str()), Some("/users"));
}

#[test]
fn a_timed_request_is_counted_at_once_and_timed_at_the_end() {
    let mut r = Registry::new();
    let span = begin_request(&mut r, "/users");
    assert_eq!(r.counters()[0].name(), "http_requests_total");
    assert_eq!(r.counters()[0].get(), 1);
    assert_eq!(r.timers()[0].name(), "http_request_duration_seconds");
    assert!(r.timers()[0].get_summary().is_none());
    assert_eq!(r.timers()[0].labels().get("path").map(|s| s.as_str()), Some("/users"));
    assert!(finish_request(&mut r, span));
    assert_eq!(r.timers()[0].get_summary().unwrap().count, 1);
    assert_eq!(r.counters()[0].get(), 1);
}

#[test]
fn a_span_records_in_the_request_timer_only() {
    let mut r = Registry::new();
    let span = begin_request(&mut r, "/");
    let mut other = Registry::new();
    other.register_timer("unrelated", Labels::new());
    assert!(!finish_request(&mut other, span));
    assert!(other.timers()[0].get_summary().is_none());
}

#[test]
fn a_span_of_another_registry_records_nothing() {
    let mut r = Registry::new();
    r.register_timer("first", Labels::new());
    let span = begin_request(&mut r, "/");
    let mut other = Registry::new();
    assert!(!finish_request(&mut other, span));
    assert!(other.timers().is_empty());
}

#[test]
fn spans_are_counted_by_name() {
    let mut r = Registry::new();
    span_entered(&mut r, "handle");
    span_entered(&mut r, "handle");
    span_exited(&mut r, "handle");
    span_entered(&mut r, "");
    assert_eq!(find(r.counters(), "handle_entered"), Some(0));
    assert_eq!(find(r.counters(), "handle_exited"), Some(1));
    assert_eq!(find(r.counters(), "_entered"), Some(2));
    assert_eq!(r.counters()[0].get(), 2);
    assert_eq!(r.counters()[1].get(), 1);
}

#[test]
fn async_timer_records_in_both_instruments() {
    let mut r = Registry::new();
    let h = r.register_histogram("work_seconds", Labels::new());
    let m = r.register_meter("work", Labels::new());
    let t = AsyncTimer::new(h, m);
    t.record(&mut r, 250);
    t.record(&mut r, 750);
    assert_eq!(r.histograms()[h].get_summary().unwrap().sum, 1000);
    assert_eq!(r.meters()[m].count(), 2);
    let stray = AsyncTimer::new(5, m);
    stray.record(&mut r, 1);
    assert_eq!(r.histograms()[h].get_summary().unwrap().count, 2);
    assert_eq!(r.meters()[m].count(), 3);
}
