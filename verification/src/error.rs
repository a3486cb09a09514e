//! The ways in which the handling of an event can end without its effect.

use vstd::prelude::*;

verus! {

/// Why an event had no effect.
#[derive(Clone, Copy, Debug, PartialEq, Eq, Structural, Hash)]
pub enum DkgError {
    /// The event is about a generation that the section has left behind.
    StaleGeneration,
    /// The statements of failure do not prove the failure of any session
    /// that the section could be running.
    UnverifiedFailureClaim,
    /// The sender is not a member of the section.
    UnauthorizedSender,
    /// No session with the given identity is registered.
    UnknownSession,
    /// The handshake refused a message.
    HandshakeFailed,
}

} // verus!
