//! What a web server records for each request. The server's own adapter
//! supplies the method and the path of the request and calls these before
//! and after it handles the request.

use crate::labels::Labels;
use crate::macros::{counted, metrics_counter};
use crate::metrics::timer::{TimerHandle, TimerView};
use crate::registry::{enrolled, slot, Registry, RegistryView};
use vstd::prelude::*;
use vstd::string::StringExecFns;

verus! {

/// The labels of a request that is counted by method and path.
pub open spec fn method_and_path(method: Seq<char>, path: Seq<char>) -> Map<Seq<char>, Seq<char>> {
    Map::empty().insert("method"@, method).insert("path"@, path)
}

/// The labels of a request that is counted by path alone.
pub open spec fn path_only(path: Seq<char>) -> Map<Seq<char>, Seq<char>> {
    Map::empty().insert("path"@, path)
}

/// Counts one handled request: the counter `http_requests_total` is
/// registered with the request's method and path as labels, if it is not
/// there yet, and incremented by one.
pub fn record_request(registry: &mut Registry, method: &str, path: &str)
    ensures
        final(registry)@ == counted(
            old(registry)@,
            "http_requests_total"@,
            method_and_path(method@, path@),
            1,
        ),
        final(registry).wf(),
{
    let mut labels = Labels::new();
    labels.insert(String::from_str("method"), String::from_str(method));
    labels.insert(String::from_str("path"), String::from_str(path));
    metrics_counter(registry, "http_requests_total", labels);
}

/// A request that is being handled: the timer that will record it and the
/// running measurement.
pub struct RequestSpan {
    timer: usize,
    handle: TimerHandle,
}

impl RequestSpan {
    /// The handle of the timer that will record the request.
    pub closed spec fn timer_id(&self) -> usize {
        self.timer
    }

    /// The name of the timer that the measurement belongs to.
    pub closed spec fn timer_name(&self) -> Seq<char> {
        self.handle.timer_name()
    }
}

/// The registry after a request for `path` has begun: the timer
/// `http_request_duration_seconds` is registered and the counter
/// `http_requests_total` is registered and incremented by one, both with
/// the path as their label where they are new.
pub open spec fn begun(registry: RegistryView, path: Seq<char>) -> RegistryView {
    let with_timer = RegistryView {
        timers: enrolled(
            registry.timers,
            "http_request_duration_seconds"@,
            TimerView {
                name: "http_request_duration_seconds"@,
                labels: path_only(path),
                samples: Seq::empty(),
            },
        ),
        ..registry
    };
    counted(with_timer, "http_requests_total"@, path_only(path), 1)
}

/// Starts timing a request for `path` and counts it.
pub fn begin_request(registry: &mut Registry, path: &str) -> (span: RequestSpan)
    ensures
        final(registry)@ == begun(old(registry)@, path@),
        span.timer_id() == slot(old(registry)@.timers, "http_request_duration_seconds"@),
        span.timer_id() < final(registry)@.timers.len(),
        span.timer_name() == "http_request_duration_seconds"@,
        final(registry)@.timers[span.timer_id() as int].name == span.timer_name(),
        final(registry).wf(),
{
    let mut labels = Labels::new();
    labels.insert(String::from_str("path"), String::from_str(path));
    let timer = registry.register_timer("http_request_duration_seconds", labels.clone());
    let handle = registry.timers()[timer].start();
    metrics_counter(registry, "http_requests_total", labels);
    RequestSpan { timer, handle }
}

/// Stops timing a request and records the time it took. Says whether the
/// registry has the timer of the span, under the span's handle and name; if
/// it has, the timer has one sample more afterwards, whatever the clock
/// reads, and nothing else changes.
pub fn finish_request(registry: &mut Registry, span: RequestSpan) -> (known: bool)
    ensures
        known == (span.timer_id() < old(registry)@.timers.len() && old(
            registry,
        )@.timers[span.timer_id() as int].name == span.timer_name()),
        known ==> final(registry)@ == (RegistryView {
            timers: old(registry)@.timers.update(
                span.timer_id() as int,
                TimerView {
                    samples: old(registry)@.timers[span.timer_id() as int].samples.push(
                        final(registry)@.timers[span.timer_id() as int].samples.last(),
                    ),
                    ..old(registry)@.timers[span.timer_id() as int]
                },
            ),
            ..old(registry)@
        }),
        !known ==> final(registry)@ == old(registry)@,
        final(registry).wf(),
{
    registry.stop_timer(span.timer, span.handle)
}

} // verus!
