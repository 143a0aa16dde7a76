//! The pluggable handler sinks: what follows one handler invocation.

use vstd::prelude::*;

verus! {

/// What the handler pipeline reported for one update.
pub enum HandlerOutcome<E> {
    /// The pipeline handled the update.
    Handled,
    /// The pipeline surfaced a business-logic failure for this one update.
    Failed(E),
    /// No handler in the pipeline claimed the update.
    Unhandled,
}

/// Which sink, if any, the embedding must now invoke.
pub enum Followup<E> {
    /// Nothing to do: the update was handled.
    NoAction,
    /// Hand the error to the error handler; processing continues.
    ToErrorHandler(E),
    /// Hand the update to the default handler; processing continues.
    ToDefaultHandler,
}

/// The routing rule for a handler invocation's outcome: success needs no
/// action, a failure goes to the error handler, an unhandled update goes to
/// the default handler. A failure is isolated to its own update — the rule
/// never asks for the run to stop.
pub fn route_outcome<E>(o: HandlerOutcome<E>) -> (r: Followup<E>)
    ensures
        match o {
            HandlerOutcome::Handled => r is NoAction,
            HandlerOutcome::Failed(e) => r matches Followup::ToErrorHandler(e2) && e2 == e,
            HandlerOutcome::Unhandled => r is ToDefaultHandler,
        },
{
    match o {
        HandlerOutcome::Handled => Followup::NoAction,
        HandlerOutcome::Failed(e) => Followup::ToErrorHandler(e),
        HandlerOutcome::Unhandled => Followup::ToDefaultHandler,
    }
}

} // verus!
