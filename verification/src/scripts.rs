//! The retry discipline around cached atomic procedures.
//!
//! Multi-step operations execute as precompiled procedures registered
//! with the store; a restarted store may have dropped one from its
//! cache. The rule, decided here and carried out by whatever drives the
//! store connection: a completed invocation is delivered; an invocation
//! the store no longer recognizes is re-registered and retried, exactly
//! once; every other failure, and a second miss after re-registering,
//! surfaces to the caller — no atomic step is ever silently retried.

use vstd::prelude::*;

verus! {

/// The outcome of one invocation attempt against the store.
#[derive(Clone, Copy, Debug, PartialEq, Eq, Structural)]
pub enum ScriptEvent {
    /// The procedure ran to completion.
    Completed,
    /// The store does not have the procedure cached.
    NotCached,
    /// The invocation failed for any other reason.
    Failed,
}

/// What the driver must do next.
#[derive(Clone, Copy, Debug, PartialEq, Eq, Structural)]
pub enum ScriptAction {
    /// Hand the result to the caller.
    Deliver,
    /// Register the procedure with the store again, then retry the
    /// invocation once.
    Reregister,
    /// Surface the failure to the caller.
    Surface,
}

/// Decides the next step after an invocation attempt, given whether this
/// call has already re-registered the procedure once.
pub fn script_step(event: ScriptEvent, retried: bool) -> (a: ScriptAction)
    ensures
        event == ScriptEvent::Completed ==> a == ScriptAction::Deliver,
        event == ScriptEvent::NotCached && !retried ==> a == ScriptAction::Reregister,
        event == ScriptEvent::NotCached && retried ==> a == ScriptAction::Surface,
        event == ScriptEvent::Failed ==> a == ScriptAction::Surface,
{
    match event {
        ScriptEvent::Completed => ScriptAction::Deliver,
        ScriptEvent::NotCached => {
            if retried {
                ScriptAction::Surface
            } else {
                ScriptAction::Reregister
            }
        },
        ScriptEvent::Failed => ScriptAction::Surface,
    }
}

} // verus!
