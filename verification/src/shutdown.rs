//! The shutdown state machine that coordinates a graceful stop.

use vstd::prelude::*;

verus! {

/// The phases of one dispatch run.
#[derive(Clone, Copy, Debug, PartialEq, Eq, Structural)]
pub enum ShutdownState {
    /// No dispatch run has started.
    Idle,
    /// The dispatch loop is consuming the listener.
    Dispatching,
    /// A shutdown was requested; the loop drains what the listener still yields.
    ShuttingDown,
    /// The run is over: the listener is exhausted and every worker has drained.
    Done,
}

/// A shutdown was requested while no dispatch run was in progress.
/// Reported and non-fatal: the request is ignored.
#[derive(Clone, Copy, Debug)]
pub struct ShutdownMisuseError {
    /// The state the machine was in when the request arrived.
    pub state_at_request: ShutdownState,
}

/// The shared shutdown state machine. One dispatcher owns one token; an
/// embedding that wants to trigger shutdown from other tasks shares the
/// dispatcher (and with it this token) behind its own lock.
pub struct ShutdownToken {
    state: ShutdownState,
}

impl ShutdownToken {
    /// The current phase.
    pub closed spec fn spec_state(self) -> ShutdownState {
        self.state
    }

    /// A fresh machine, before any dispatch run.
    pub fn new() -> (t: ShutdownToken)
        ensures
            t.spec_state() == ShutdownState::Idle,
    {
        ShutdownToken { state: ShutdownState::Idle }
    }

    /// Enter the dispatch loop: `Idle -> Dispatching`.
    pub fn start_dispatching(&mut self)
        requires
            old(self).spec_state() == ShutdownState::Idle,
        ensures
            final(self).spec_state() == ShutdownState::Dispatching,
    {
        self.state = ShutdownState::Dispatching;
    }

    /// Request a graceful stop. Succeeds exactly when a run is in progress
    /// (`Dispatching -> ShuttingDown`); any other phase reports a
    /// [`ShutdownMisuseError`] and leaves the machine unchanged.
    pub fn shutdown(&mut self) -> (r: Result<(), ShutdownMisuseError>)
        ensures
            old(self).spec_state() == ShutdownState::Dispatching ==> {
                &&& r is Ok
                &&& final(self).spec_state() == ShutdownState::ShuttingDown
            },
            old(self).spec_state() != ShutdownState::Dispatching ==> {
                &&& *final(self) == *old(self)
                &&& r matches Err(e) && e.state_at_request == old(self).spec_state()
            },
    {
        match self.state {
            ShutdownState::Dispatching => {
                self.state = ShutdownState::ShuttingDown;
                Ok(())
            },
            s => Err(ShutdownMisuseError { state_at_request: s }),
        }
    }

    /// Report the end of the run: the loop has broken and every worker has
    /// been drained and joined.
    pub fn done(&mut self)
        requires
            old(self).spec_state() == ShutdownState::Dispatching
                || old(self).spec_state() == ShutdownState::ShuttingDown,
        ensures
            final(self).spec_state() == ShutdownState::Done,
    {
        self.state = ShutdownState::Done;
    }

    /// Whether a stop has been requested and the run is still draining.
    pub fn is_shutting_down(&self) -> (b: bool)
        ensures
            b == (self.spec_state() == ShutdownState::ShuttingDown),
    {
        match self.state {
            ShutdownState::ShuttingDown => true,
            _ => false,
        }
    }

    /// The current phase, for observation.
    pub fn state(&self) -> (s: ShutdownState)
        ensures
            s == self.spec_state(),
    {
        self.state
    }
}

} // verus!
