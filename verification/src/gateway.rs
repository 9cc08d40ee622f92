//! The per-connection lifecycle: a gateway bridges one physical transport
//! connection to the registry, and this state machine says what it must do
//! on each event. The driver around it performs the actions — registering,
//! refreshing heartbeats, cancelling its two loops, unregistering — and
//! hands the next event back.

use vstd::prelude::*;

verus! {

/// Where a connection stands in its lifecycle.
#[derive(PartialEq, Eq, Structural, Clone, Copy, Debug)]
pub enum GatewayState {
    /// The transport handshake is still in progress.
    Connecting,
    /// The client is registered; the reader and writer loops run.
    Registered,
    /// A terminal read or write was seen; the loops are being cancelled.
    Closing,
    /// The client is unregistered; the lifecycle is over.
    Closed,
}

/// What a gateway observes.
#[derive(PartialEq, Eq, Structural, Clone, Copy, Debug)]
pub enum GatewayEvent {
    /// The transport handshake succeeded.
    HandshakeComplete,
    /// An inbound frame recognized as the heartbeat acknowledgement.
    HeartbeatAck,
    /// Any other inbound frame, recognized or not.
    OtherFrame,
    /// The reader loop saw a transport error or a clean close.
    ReadEnded,
    /// The writer loop failed to write: the peer is gone.
    WriteFailed,
    /// Both loops have stopped after cancellation was awaited.
    LoopsStopped,
}

/// What the driver must do on a transition.
#[derive(PartialEq, Eq, Structural, Clone, Copy, Debug)]
pub enum GatewayAction {
    /// Register the client, create its outbound channel, start both loops.
    Register,
    /// Refresh this client's heartbeat timestamp; nothing is logged.
    RefreshHeartbeat,
    /// Observe the frame and act no further on it.
    Observe,
    /// Cancel the other loop and await both.
    CancelLoops,
    /// Unregister the client; nothing may be enqueued for it afterwards.
    Unregister,
}

/// The transition table. A read or write failure only ever ends this one
/// connection's lifecycle; arbitrary client-sent content has no effect
/// beyond being observed; events that do not belong to the current state
/// change nothing.
pub open spec fn gateway_step_spec(s: GatewayState, e: GatewayEvent) -> (GatewayState,
    GatewayAction) {
    match (s, e) {
        (GatewayState::Connecting, GatewayEvent::HandshakeComplete) => (
            GatewayState::Registered,
            GatewayAction::Register,
        ),
        (GatewayState::Registered, GatewayEvent::HeartbeatAck) => (
            GatewayState::Registered,
            GatewayAction::RefreshHeartbeat,
        ),
        (GatewayState::Registered, GatewayEvent::OtherFrame) => (
            GatewayState::Registered,
            GatewayAction::Observe,
        ),
        (GatewayState::Registered, GatewayEvent::ReadEnded) => (
            GatewayState::Closing,
            GatewayAction::CancelLoops,
        ),
        (GatewayState::Registered, GatewayEvent::WriteFailed) => (
            GatewayState::Closing,
            GatewayAction::CancelLoops,
        ),
        (GatewayState::Closing, GatewayEvent::LoopsStopped) => (
            GatewayState::Closed,
            GatewayAction::Unregister,
        ),
        _ => (s, GatewayAction::Observe),
    }
}

/// Take one step of the connection lifecycle.
pub fn gateway_step(s: GatewayState, e: GatewayEvent) -> (r: (GatewayState, GatewayAction))
    ensures
        r == gateway_step_spec(s, e),
{
    match (s, e) {
        (GatewayState::Connecting, GatewayEvent::HandshakeComplete) => (
            GatewayState::Registered,
            GatewayAction::Register,
        ),
        (GatewayState::Registered, GatewayEvent::HeartbeatAck) => (
            GatewayState::Registered,
            GatewayAction::RefreshHeartbeat,
        ),
        (GatewayState::Registered, GatewayEvent::OtherFrame) => (
            GatewayState::Registered,
            GatewayAction::Observe,
        ),
        (GatewayState::Registered, GatewayEvent::ReadEnded) => (
            GatewayState::Closing,
            GatewayAction::CancelLoops,
        ),
        (GatewayState::Registered, GatewayEvent::WriteFailed) => (
            GatewayState::Closing,
            GatewayAction::CancelLoops,
        ),
        (GatewayState::Closing, GatewayEvent::LoopsStopped) => (
            GatewayState::Closed,
            GatewayAction::Unregister,
        ),
        (state, _) => (state, GatewayAction::Observe),
    }
}

/// How far along its lifecycle a state stands.
pub open spec fn stage_rank(s: GatewayState) -> int {
    match s {
        GatewayState::Connecting => 0,
        GatewayState::Registered => 1,
        GatewayState::Closing => 2,
        GatewayState::Closed => 3,
    }
}

/// The lifecycle only moves forward: no event returns a connection to an
/// earlier stage, `Closed` is terminal, and unregistration is demanded
/// exactly once — on leaving `Closing` after both loops have stopped.
pub proof fn lemma_gateway_monotone(s: GatewayState, e: GatewayEvent)
    ensures
        stage_rank(gateway_step_spec(s, e).0) >= stage_rank(s),
        s == GatewayState::Closed ==> gateway_step_spec(s, e).0 == GatewayState::Closed,
        gateway_step_spec(s, e).1 == GatewayAction::Unregister
            <==> s == GatewayState::Closing && e == GatewayEvent::LoopsStopped,
{
}

} // verus!
