//! An in-process metrics core: counters, gauges, histograms, timers and
//! meters under names and labels, exact summary statistics over their
//! samples, a registry with get-or-create semantics, and the text exposition
//! of a registry's contents.
//!
//! Every instrument is a plain value that is changed through exclusive
//! access, and the registry owns its instruments by value. A caller that
//! shares a registry among threads keeps it behind a lock of its own, one
//! lock for the whole registry: operations on different instruments then
//! take turns. Within a kind an instrument is known by its name alone: the
//! labels are those of the first registration of the name.
//!
//! Samples are unsigned 64-bit integers and the statistics over them are
//! exact: an empty sample set has no summary and no percentile, and nothing
//! overflows. A caller with floating-point observations records for each an
//! integer that keeps their order.

pub mod clock;
pub mod exporters;
pub mod labels;
pub mod macros;
pub mod metrics;
pub mod middleware;
pub mod order;
pub mod registry;
pub mod stats;
pub mod text;
pub mod tracing_integration;
