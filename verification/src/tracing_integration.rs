//! What a tracing layer records: for each span name one counter of
//! entries and one of exits.

use crate::labels::Labels;
use crate::macros::{counted, metrics_counter};
use crate::registry::Registry;
use crate::text::push_text;
use vstd::prelude::*;
use vstd::string::StringExecFns;

verus! {

/// Counts one entry into the span `span`, in the counter `<span>_entered`.
pub fn span_entered(registry: &mut Registry, span: &str)
    ensures
        final(registry)@ == counted(old(registry)@, span@ + "_entered"@, Map::empty(), 1),
        final(registry).wf(),
{
    let mut name = String::from_str(span);
    push_text(&mut name, "_entered");
    metrics_counter(registry, name.as_str(), Labels::new());
}

/// Counts one exit from the span `span`, in the counter `<span>_exited`.
pub fn span_exited(registry: &mut Registry, span: &str)
    ensures
        final(registry)@ == counted(old(registry)@, span@ + "_exited"@, Map::empty(), 1),
        final(registry).wf(),
{
    let mut name = String::from_str(span);
    push_text(&mut name, "_exited");
    metrics_counter(registry, name.as_str(), Labels::new());
}

} // verus!
