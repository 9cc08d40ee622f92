//! Outcome classification and response bodies, decimal rendering, the
//! wire message shapes, and the gateway lifecycle.

use script_relay::decimal::to_decimal;
use script_relay::gateway::{gateway_step, GatewayAction, GatewayEvent, GatewayState};
use script_relay::outcome::{classify_broadcast, response_for_broadcast, BroadcastOutcome};
use script_relay::types::{
    ping_text, ExecuteMessage, ExecuteResponse, SimpleMessage, StatusResponse,
};

#[test]
fn classification_covers_the_four_boundary_outcomes() {
    assert_eq!(classify_broadcast(0, 0), BroadcastOutcome::NoClients);
    assert_eq!(classify_broadcast(3, 3), BroadcastOutcome::FullDelivery);
    assert_eq!(classify_broadcast(2, 3), BroadcastOutcome::PartialDelivery);
    assert_eq!(classify_broadcast(0, 3), BroadcastOutcome::PartialDelivery);
}

#[test]
fn no_clients_response_is_service_unavailable() {
    let (r, code) = response_for_broadcast(&"x.lua".to_string(), 0, 0);
    assert_eq!(code, 503);
    assert!(!r.success);
    assert_eq!(r.error.as_deref(), Some("No clients connected"));
    assert_eq!(r.message, None);
    assert_eq!(r.clients_reached, Some(0));
    assert_eq!(r.total_clients, Some(0));
}

#[test]
fn full_delivery_response_is_success() {
    let (r, code) = response_for_broadcast(&"x.lua".to_string(), 3, 3);
    assert_eq!(code, 200);
    assert!(r.success);
    assert_eq!(
        r.message.as_deref(),
        Some("Script 'x.lua' sent to all connected clients")
    );
    assert_eq!(r.error, None);
    assert_eq!(r.clients_reached, Some(3));
    assert_eq!(r.total_clients, Some(3));
}

#[test]
fn partial_delivery_response_is_multi_status() {
    let (r, code) = response_for_broadcast(&"x.lua".to_string(), 2, 3);
    assert_eq!(code, 207);
    assert!(!r.success);
    assert_eq!(
        r.error.as_deref(),
        Some("Script 'x.lua' only reached 2/3 clients")
    );
    assert_eq!(r.clients_reached, Some(2));
    assert_eq!(r.total_clients, Some(3));
}

#[test]
fn total_failure_with_clients_present_is_partial_not_unavailable() {
    let (r, code) = response_for_broadcast(&"y.lua".to_string(), 0, 4);
    assert_eq!(code, 207);
    assert!(!r.success);
    assert_eq!(
        r.error.as_deref(),
        Some("Script 'y.lua' only reached 0/4 clients")
    );
}

#[test]
fn decimal_rendering_matches_display() {
    for n in [0usize, 1, 7, 9, 10, 13, 100, 13377, 65535, 1000000] {
        assert_eq!(to_decimal(n), format!("{}", n));
    }
}

#[test]
fn wire_shapes_are_exact() {
    assert_eq!(ping_text(), "{\"type\":\"ping\"}");
    let m = ExecuteMessage::new("print(1)".to_string(), "x.lua".to_string(), "T".to_string());
    assert_eq!(m.msg_type, "execute");
    assert_eq!(m.script, "print(1)");
    assert_eq!(m.filename, "x.lua");
    assert_eq!(m.timestamp, "T");
    let stamped = ExecuteMessage::now("s".to_string(), "f.lua".to_string());
    assert_eq!(stamped.msg_type, "execute");
    assert_eq!(stamped.filename, "f.lua");
}

#[test]
fn only_the_pong_frame_counts_as_heartbeat_ack() {
    let pong = SimpleMessage { msg_type: "pong".to_string() };
    let ping = SimpleMessage { msg_type: "ping".to_string() };
    let other = SimpleMessage { msg_type: "chatter".to_string() };
    assert!(pong.is_heartbeat_ack());
    assert!(!ping.is_heartbeat_ack());
    assert!(!other.is_heartbeat_ack());
}

#[test]
fn status_and_failure_bodies_carry_their_fields() {
    let s = StatusResponse::running(5, "T".to_string());
    assert_eq!(s.status, "running");
    assert_eq!(s.connected_clients, 5);
    assert_eq!(s.timestamp, "T");
    let f = ExecuteResponse::failure("No file path provided".to_string());
    assert!(!f.success);
    assert_eq!(f.error.as_deref(), Some("No file path provided"));
    assert_eq!(f.clients_reached, None);
}

#[test]
fn gateway_lifecycle_walks_forward_only() {
    let (s, a) = gateway_step(GatewayState::Connecting, GatewayEvent::HandshakeComplete);
    assert_eq!((s, a), (GatewayState::Registered, GatewayAction::Register));
    let (s, a) = gateway_step(s, GatewayEvent::HeartbeatAck);
    assert_eq!((s, a), (GatewayState::Registered, GatewayAction::RefreshHeartbeat));
    let (s, a) = gateway_step(s, GatewayEvent::OtherFrame);
    assert_eq!((s, a), (GatewayState::Registered, GatewayAction::Observe));
    let (s, a) = gateway_step(s, GatewayEvent::ReadEnded);
    assert_eq!((s, a), (GatewayState::Closing, GatewayAction::CancelLoops));
    let (s, a) = gateway_step(s, GatewayEvent::LoopsStopped);
    assert_eq!((s, a), (GatewayState::Closed, GatewayAction::Unregister));
    // Closed is terminal, whatever arrives
    let (s, a) = gateway_step(s, GatewayEvent::HandshakeComplete);
    assert_eq!((s, a), (GatewayState::Closed, GatewayAction::Observe));
}

#[test]
fn a_write_failure_also_closes_the_connection() {
    let (s, a) = gateway_step(GatewayState::Registered, GatewayEvent::WriteFailed);
    assert_eq!((s, a), (GatewayState::Closing, GatewayAction::CancelLoops));
    // events out of place change nothing
    let (s2, a2) = gateway_step(GatewayState::Connecting, GatewayEvent::HeartbeatAck);
    assert_eq!((s2, a2), (GatewayState::Connecting, GatewayAction::Observe));
    let _ = (s, a);
}
