//! The life of the serving loop: what ends it, and what restarts it.

use vstd::prelude::*;

verus! {

/// What the supervising loop can see happen while the agent serves.
#[derive(Debug, Clone, Copy, PartialEq, Eq, Structural)]
pub enum ServeEvent {
    /// Serving came to an end by itself, without an error.
    Finished,
    /// Serving came to an end on an error of the listening socket.
    Failed,
    /// The user interrupted the process.
    Interrupt,
    /// The process was asked to terminate.
    Terminate,
    /// The process was asked to read its configuration again.
    Reload,
}

/// What the supervising loop does about an event. Whatever it does, the
/// serving that was under way is dropped first, which releases the listening
/// socket.
#[derive(Debug, Clone, Copy, PartialEq, Eq, Structural)]
pub enum ServeAction {
    /// Leave the loop; the process ends in good order.
    Exit,
    /// Leave the loop and report the error that ended serving.
    ExitWithError,
    /// Read the configuration again and serve anew with what it says.
    Restart,
}

/// What follows an event: a reload replaces the whole run by a new one, and
/// everything else ends the loop for good.
pub open spec fn action_for(event: ServeEvent) -> ServeAction {
    match event {
        ServeEvent::Finished => ServeAction::Exit,
        ServeEvent::Failed => ServeAction::ExitWithError,
        ServeEvent::Interrupt => ServeAction::Exit,
        ServeEvent::Terminate => ServeAction::Exit,
        ServeEvent::Reload => ServeAction::Restart,
    }
}

/// Decides what the supervising loop does about `event`.
pub fn supervise(event: ServeEvent) -> (r: ServeAction)
    ensures
        r == action_for(event),
{
    match event {
        ServeEvent::Finished => ServeAction::Exit,
        ServeEvent::Failed => ServeAction::ExitWithError,
        ServeEvent::Interrupt => ServeAction::Exit,
        ServeEvent::Terminate => ServeAction::Exit,
        ServeEvent::Reload => ServeAction::Restart,
    }
}

} // verus!
