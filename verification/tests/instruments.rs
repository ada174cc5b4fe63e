use metrix::labels::Labels;
use metrix::metrics::counter::Counter;
use metrix::metrics::gauge::Gauge;
use metrix::metrics::histogram::{Histogram, HistogramSummary};
use metrix::metrics::meter::{Meter, Rate};
use metrix::metrics::timer::{Timer, TimerSummary};
use metrix::metrics::Metric;
use std::time::Duration;

fn labels_of(pairs: &[(&str, &str)]) -> Labels {
    let mut labels = Labels::new();
    for (k, v) in pairs {
        labels.insert(k.to_string(), v.to_string());
    }
    labels
}

#[test]
fn counter_starts_at_zero() {
    let c = Counter::new("requests", Labels::new());
    assert_eq!(c.get(), 0);
    assert_eq!(c.name(), "requests");
    assert!(c.labels().is_empty());
}

#[test]
fn counter_increment_adds_one() {
    let mut c = Counter::new("requests", Labels::new());
    c.increment();
    c.increment();
    c.increment();
    assert_eq!(c.get(), 3);
}

#[test]
fn counter_counts_every_increment() {
    let mut c = Counter::new("requests", Labels::new());
    for _ in 0..10_000 {
        c.increment();
    }
    assert_eq!(c.get(), 10_000);
}

#[test]
fn counter_increment_by_is_additive() {
    let mut c = Counter::new("bytes", Labels::new());
    let deltas: [u64; 5] = [7, 0, 100, 3, 1_000_000];
    for d in deltas {
        c.increment_by(d);
    }
    assert_eq!(c.get(), 1_000_110);
}

#[test]
fn counter_increments_in_any_order_give_the_same_value() {
    let deltas: [u64; 4] = [u64::MAX, 3, 1 << 63, 12345];
    let mut forward = Counter::new("bytes", Labels::new());
    let mut backward = Counter::new("bytes", Labels::new());
    for d in deltas {
        forward.increment_by(d);
    }
    for d in deltas.iter().rev() {
        backward.increment_by(*d);
    }
    assert_eq!(forward.get(), backward.get());
    assert_eq!(forward.get(), (1u64 << 63) + 12347);
}

#[test]
fn counter_increment_by_zero_changes_nothing() {
    let mut c = Counter::new("bytes", Labels::new());
    c.increment_by(41);
    c.increment_by(0);
    assert_eq!(c.get(), 41);
}

#[test]
fn counter_wraps_at_two_to_the_64() {
    let mut c = Counter::new("bytes", Labels::new());
    c.increment_by(u64::MAX);
    assert_eq!(c.get(), u64::MAX);
    c.increment();
    assert_eq!(c.get(), 0);
    c.increment_by(u64::MAX);
    c.increment_by(5);
    assert_eq!(c.get(), 4);
}

#[test]
fn counter_keeps_its_labels() {
    let c = Counter::new("requests", labels_of(&[("method", "GET"), ("path", "/")]));
    assert_eq!(c.labels().len(), 2);
    assert_eq!(c.labels().get("method").map(|s| s.as_str()), Some("GET"));
    assert_eq!(c.labels().get("path").map(|s| s.as_str()), Some("/"));
    assert!(c.labels().get("other").is_none());
}

#[test]
fn gauge_starts_at_positive_zero() {
    let g = Gauge::new("temperature", Labels::new());
    assert_eq!(g.get(), 0);
    assert_eq!(f64::from_bits(g.get()), 0.0);
    assert_eq!(g.name(), "temperature");
}

#[test]
fn gauge_holds_what_was_set() {
    let mut g = Gauge::new("temperature", Labels::new());
    g.set((-12.5f64).to_bits());
    assert_eq!(f64::from_bits(g.get()), -12.5);
    g.set(3.0f64.to_bits());
    assert_eq!(f64::from_bits(g.get()), 3.0);
}

#[test]
fn histogram_percentile_nearest_rank() {
    let mut h = Histogram::new("latency", Labels::new());
    for v in [1u64, 2, 3, 4, 5] {
        h.observe(v);
    }
    assert_eq!(h.get_percentile(50), Some(3));
    assert_eq!(h.get_percentile(100), Some(5));
    assert_eq!(h.get_percentile(0), Some(1));
}

#[test]
fn histogram_percentile_sorts_a_copy() {
    let mut h = Histogram::new("latency", Labels::new());
    for v in [5u64, 1, 4, 2, 3] {
        h.observe(v);
    }
    assert_eq!(h.get_percentile(20), Some(1));
    assert_eq!(h.get_percentile(21), Some(2));
    assert_eq!(h.get_percentile(40), Some(2));
    assert_eq!(h.get_percentile(60), Some(3));
    assert_eq!(h.get_percentile(80), Some(4));
    assert_eq!(h.get_percentile(81), Some(5));
    assert_eq!(h.get_percentile(99), Some(5));
    // the order of arrival is kept
    h.observe(0);
    assert_eq!(h.get_percentile(0), Some(0));
}

#[test]
fn histogram_percentile_above_100_is_the_largest() {
    let mut h = Histogram::new("latency", Labels::new());
    for v in [8u64, 6, 7] {
        h.observe(v);
    }
    assert_eq!(h.get_percentile(101), Some(8));
    assert_eq!(h.get_percentile(u64::MAX), Some(8));
}

#[test]
fn histogram_percentile_is_exact_at_99_of_100() {
    let mut h = Histogram::new("latency", Labels::new());
    for v in 1..=100u64 {
        h.observe(v);
    }
    assert_eq!(h.get_percentile(99), Some(99));
    assert_eq!(h.get_percentile(1), Some(1));
    assert_eq!(h.get_percentile(50), Some(50));
}

#[test]
fn histogram_quantile_takes_fractions() {
    let mut h = Histogram::new("latency", Labels::new());
    for v in 1..=1000u64 {
        h.observe(v);
    }
    assert_eq!(h.get_quantile(999, 1000), Some(999));
    assert_eq!(h.get_quantile(9991, 10000), Some(1000));
    assert_eq!(h.get_quantile(1, 3), Some(334));
}

#[test]
fn histogram_without_samples_has_no_data() {
    let h = Histogram::new("latency", Labels::new());
    assert_eq!(h.get_percentile(50), None);
    assert_eq!(h.get_percentile(0), None);
    assert!(h.get_summary().is_none());
    assert!(HistogramSummary::from_observations(&[]).is_none());
}

#[test]
fn histogram_summary_known_example() {
    let mut h = Histogram::new("latency", Labels::new());
    for v in [2u64, 4, 4, 4, 5, 5, 7, 9] {
        h.observe(v);
    }
    let s = h.get_summary().unwrap();
    assert_eq!(s.count, 8);
    assert_eq!(s.sum, 40);
    assert_eq!(s.min, 2);
    assert_eq!(s.max, 9);
    assert_eq!(s.mean, 5);
    assert_eq!(s.std_dev, 2);
}

#[test]
fn histogram_summary_of_one_sample() {
    let s = HistogramSummary::from_observations(&[17]).unwrap();
    assert_eq!(
        s,
        HistogramSummary { count: 1, sum: 17, min: 17, max: 17, mean: 17, std_dev: 0 }
    );
}

#[test]
fn histogram_summary_rounds_down() {
    // mean 2.5, variance 1.25, standard deviation 1.118...
    let s = HistogramSummary::from_observations(&[1, 2, 3, 4]).unwrap();
    assert_eq!(s.mean, 2);
    assert_eq!(s.std_dev, 1);
    // mean 1/3, variance 2/9: both round down to zero
    let s = HistogramSummary::from_observations(&[0, 0, 1]).unwrap();
    assert_eq!(s.mean, 0);
    assert_eq!(s.std_dev, 0);
    // variance is about the exact mean, not the rounded one:
    // samples 0 and 3, mean 1.5, variance 2.25, root 1.5
    let s = HistogramSummary::from_observations(&[0, 3]).unwrap();
    assert_eq!(s.mean, 1);
    assert_eq!(s.std_dev, 1);
}

#[test]
fn histogram_summary_at_the_limits() {
    let s = HistogramSummary::from_observations(&[u64::MAX, u64::MAX, u64::MAX]).unwrap();
    assert_eq!(s.sum, 3 * (u64::MAX as u128));
    assert_eq!(s.mean, u64::MAX);
    assert_eq!(s.std_dev, 0);
    assert_eq!(s.min, u64::MAX);
    let s = HistogramSummary::from_observations(&[0, u64::MAX]).unwrap();
    assert_eq!(s.sum, u64::MAX as u128);
    assert_eq!(s.mean, u64::MAX / 2);
    // variance (2^64 - 1)^2 / 4, root (2^64 - 1) / 2 = 2^63 - 0.5
    assert_eq!(s.std_dev, (1u64 << 63) - 1);
    let s = HistogramSummary::from_observations(&[0, 0, u64::MAX, u64::MAX]).unwrap();
    assert_eq!(s.std_dev, (1u64 << 63) - 1);
}

#[test]
fn timer_records_durations_in_nanoseconds() {
    let mut t = Timer::new("request_duration", Labels::new());
    t.observe_duration(Duration::from_nanos(5));
    t.observe_duration(Duration::from_micros(1));
    t.observe_duration(Duration::from_secs(2));
    let s = t.get_summary().unwrap();
    assert_eq!(s.count, 3);
    assert_eq!(s.sum, 2_000_001_005);
    assert_eq!(s.min, 5);
    assert_eq!(s.max, 2_000_000_000);
    assert_eq!(s.mean, 666_667_001);
}

#[test]
fn timer_summary_known_example_in_seconds() {
    let mut t = Timer::new("request_duration", Labels::new());
    for secs in [2u64, 4, 4, 4, 5, 5, 7, 9] {
        t.observe_duration(Duration::from_secs(secs));
    }
    let s = t.get_summary().unwrap();
    assert_eq!(Duration::from_nanos(s.mean), Duration::from_secs(5));
    assert_eq!(Duration::from_nanos(s.std_dev), Duration::from_secs(2));
    assert_eq!(s.sum, 40_000_000_000);
    assert_eq!(s.count, 8);
}

#[test]
fn timer_without_samples_has_no_data() {
    let t = Timer::new("request_duration", Labels::new());
    assert!(t.get_summary().is_none());
    assert!(TimerSummary::from_observations(&[]).is_none());
}

#[test]
fn timer_summary_from_observations() {
    let s = TimerSummary::from_observations(&[10, 20, 30]).unwrap();
    assert_eq!(
        s,
        TimerSummary { count: 3, sum: 60, min: 10, max: 30, mean: 20, std_dev: 8 }
    );
}

#[test]
fn timer_caps_a_duration_beyond_its_range() {
    let mut t = Timer::new("request_duration", Labels::new());
    t.observe_duration(Duration::MAX);
    let s = t.get_summary().unwrap();
    assert_eq!(s.max, u64::MAX);
    assert_eq!(s.sum, u64::MAX as u128);
    t.observe_nanos(7);
    t.observe_nanos(u128::MAX);
    let s = t.get_summary().unwrap();
    assert_eq!(s.count, 3);
    assert_eq!(s.min, 7);
}

#[test]
fn timer_handle_records_one_sample() {
    let mut t = Timer::new("request_duration", Labels::new());
    let handle = t.start();
    assert!(handle.stop(&mut t));
    let s = t.get_summary().unwrap();
    assert_eq!(s.count, 1);
    let handle = t.start();
    std::hint::black_box(0);
    assert!(handle.stop(&mut t));
    assert_eq!(t.get_summary().unwrap().count, 2);
}

#[test]
fn timer_handle_records_in_its_own_timer_only() {
    let mut reads = Timer::new("reads", Labels::new());
    let mut writes = Timer::new("writes", Labels::new());
    let handle = reads.start();
    assert!(!handle.stop(&mut writes));
    assert!(writes.get_summary().is_none());
    assert!(reads.get_summary().is_none());
    let handle = writes.start();
    assert!(handle.stop(&mut writes));
    assert_eq!(writes.get_summary().unwrap().count, 1);
    // a timer of the same name is the same timer to a handle
    let mut again = Timer::new("reads", Labels::new());
    let handle = reads.start();
    assert!(handle.stop(&mut again));
    assert_eq!(again.get_summary().unwrap().count, 1);
}

#[test]
fn meter_rate_is_zero_without_elapsed_time() {
    let mut m = Meter::new("events", Labels::new());
    m.mark();
    m.mark();
    let r = m.rate_over(0);
    assert_eq!(r.events, 0);
    assert_eq!(r.per_second(), 0);
    assert_eq!(r, Rate { events: 0, nanos: 1 });
}

#[test]
fn meter_rate_is_count_over_time() {
    let mut m = Meter::new("events", Labels::new());
    for _ in 0..10 {
        m.mark();
    }
    assert_eq!(m.count(), 10);
    let r = m.rate_over(2_000_000_000);
    assert_eq!(r, Rate { events: 10, nanos: 2_000_000_000 });
    assert_eq!(r.per_second(), 5);
    let in_floating_point = r.events as f64 / (r.nanos as f64 / 1e9);
    assert!((in_floating_point - 5.0).abs() < 1e-9);
    // three events in two seconds: 1.5 a second, one whole
    let mut m = Meter::new("events", Labels::new());
    m.mark();
    m.mark();
    m.mark();
    assert_eq!(m.rate_over(2_000_000_000).per_second(), 1);
    assert_eq!(m.rate_over(500_000_000).per_second(), 6);
}

#[test]
fn meter_rate_by_the_clock() {
    let mut m = Meter::new("events", Labels::new());
    m.mark();
    let r = m.get_rate();
    assert!(r.nanos > 0);
    assert!(r.events == 1 || r == Rate { events: 0, nanos: 1 });
}

#[test]
fn meter_keeps_name_and_labels() {
    let m = Meter::new("events", labels_of(&[("kind", "login")]));
    assert_eq!(m.name(), "events");
    assert_eq!(m.labels().get("kind").map(|s| s.as_str()), Some("login"));
    assert_eq!(m.count(), 0);
}

#[test]
fn meter_marks_do_not_restart_its_clock() {
    let mut m = Meter::new("events", Labels::new());
    let before = m.get_rate();
    for _ in 0..1000 {
        m.mark();
    }
    let after = m.get_rate();
    // the span since creation only grows, whatever was marked meanwhile
    assert!(after.nanos >= before.nanos || before == Rate { events: 0, nanos: 1 });
    assert!(after.events == 1000 || after == Rate { events: 0, nanos: 1 });
}
