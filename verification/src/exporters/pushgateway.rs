//! Pushing the exposition to a gateway: where a push goes, and what a
//! response means.

use crate::text::push_text;
use vstd::prelude::*;
use vstd::string::StringExecFns;

verus! {

/// The address that the exposition of the job `job` is posted to:
/// `<base>/metrics/job/<job>`.
pub fn push_url(base: &str, job: &str) -> (url: String)
    ensures
        url@ == base@ + "/metrics/job/"@ + job@,
{
    let mut url = String::from_str(base);
    push_text(&mut url, "/metrics/job/");
    push_text(&mut url, job);
    url
}

/// Whether a response with the status code `status` accepts the push: the
/// codes from 200 to 299 do. A refused push is reported and not repeated
/// before the next cycle.
pub fn push_accepted(status: u16) -> (accepted: bool)
    ensures
        accepted == (200 <= status <= 299),
{
    200 <= status && status <= 299
}

} // verus!
