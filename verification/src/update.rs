//! Updates and the default distribution function.

use vstd::prelude::*;

verus! {

/// One unit of ingested work.
///
/// An update either carries valid data or records a decode failure of the
/// transport layer (`malformed`); malformed updates are dropped by the
/// dispatcher rather than routed to a worker. `chat` is the conversation
/// identifier the default distribution function derives the grouping key
/// from, when one can be derived.
#[derive(Clone, Copy, Debug)]
pub struct Update {
    pub id: u64,
    pub chat: Option<i64>,
    pub malformed: bool,
}

/// The grouping key an update is routed by: its conversation identifier,
/// if one can be derived.
pub open spec fn key_of(u: Update) -> Option<i64> {
    u.chat
}

/// The default distribution policy: group updates by their conversation
/// identifier; updates without one go to the default (unordered) worker.
///
/// The engine is deliberately specialized to this policy. A caller-supplied
/// key function would be an opaque function value, and the per-key ordering
/// contracts could not be stated over what it returns; `key_of` keeps the
/// derived key a spec-level function of the update, which is what every
/// ordering theorem here rests on.
pub fn default_distribution_function(u: &Update) -> (k: Option<i64>)
    ensures
        k == key_of(*u),
{
    u.chat
}

} // verus!
