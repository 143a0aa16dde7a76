//! The update dispatch engine of an event-processing framework.
//!
//! A listener produces a stream of updates. Each update is mapped by a
//! distribution function to an optional grouping key. Updates that share a
//! key are handled strictly in arrival order by that key's worker; updates
//! without a key run concurrently on a default worker. Every worker owns a
//! bounded FIFO mailbox, so a slow handler exerts backpressure on ingestion
//! instead of dropping events. An idle reaper reclaims workers whose keys
//! have gone quiet, and a shutdown state machine coordinates a graceful stop.
//!
//! The asynchronous edges (the listener transport, task spawning, the handler
//! pipeline itself) live outside this crate. Here the engine is a state
//! machine: the embedding pulls items from its listener and feeds them to
//! [`dispatcher::Dispatcher::process_update`], plays the role of the task
//! scheduler through `worker_begin` / `worker_finish`, and performs the
//! routing decisions the engine hands back.

pub mod dispatcher;
pub mod handler;
pub mod laws;
pub mod pool;
pub mod shutdown;
pub mod update;
pub mod worker;

pub use dispatcher::{
    DispatchOutcome, Dispatcher, DispatcherBuilder, TryDispatchError, DEFAULT_WORKER_QUEUE_SIZE,
};
pub use handler::{route_outcome, Followup, HandlerOutcome};
pub use shutdown::{ShutdownMisuseError, ShutdownState, ShutdownToken};
pub use update::{default_distribution_function, Update};
pub use worker::Worker;
