//! The response-waiter state machine.
//!
//! One short-lived waiter accompanies each in-flight request.  Its life is a
//! sequence of bounded-wait decision steps: the shutdown flag is consulted
//! first, then the connection's response queue; storing the response and
//! re-arming the socket for writing is `TcpServer::waiter_poll`.

use vstd::prelude::*;

verus! {

/// Where a waiter stands.
#[derive(Clone, Copy, Debug, PartialEq, Eq, Structural)]
pub enum WaiterState {
    /// Just spawned, not yet waiting.
    Spawned,
    /// Blocked (with a bounded timeout) on the connection's response queue.
    WaitingForResponse,
    /// A response arrived and has been stored as the pending response.
    ResponseReceived,
    /// The shutdown flag was observed; the descriptor is left untouched.
    ShutdownObserved,
    /// Done; the thread exits.
    Terminated,
}

/// One decision step of a waiter: what it becomes after one bounded wait,
/// given whether a response was picked up and whether shutdown is raised.
/// Shutdown is consulted before the queue, so a raised flag always wins.
pub open spec fn waiter_next(w: WaiterState, got_response: bool, shutdown: bool) -> WaiterState {
    match w {
        WaiterState::Spawned => WaiterState::WaitingForResponse,
        WaiterState::WaitingForResponse => if shutdown {
            WaiterState::ShutdownObserved
        } else if got_response {
            WaiterState::ResponseReceived
        } else {
            WaiterState::WaitingForResponse
        },
        WaiterState::ResponseReceived => WaiterState::Terminated,
        WaiterState::ShutdownObserved => WaiterState::Terminated,
        WaiterState::Terminated => WaiterState::Terminated,
    }
}

/// Performs one waiter decision step.
pub fn waiter_step(w: WaiterState, got_response: bool, shutdown: bool) -> (r: WaiterState)
    ensures
        r == waiter_next(w, got_response, shutdown),
{
    match w {
        WaiterState::Spawned => WaiterState::WaitingForResponse,
        WaiterState::WaitingForResponse => {
            if shutdown {
                WaiterState::ShutdownObserved
            } else if got_response {
                WaiterState::ResponseReceived
            } else {
                WaiterState::WaitingForResponse
            }
        },
        WaiterState::ResponseReceived => WaiterState::Terminated,
        WaiterState::ShutdownObserved => WaiterState::Terminated,
        WaiterState::Terminated => WaiterState::Terminated,
    }
}

} // verus!
