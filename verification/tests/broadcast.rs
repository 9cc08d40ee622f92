//! The broadcast engine and the heartbeat probe, run against real tokio
//! channels: full delivery, the empty registry, partial failure with
//! immediate eviction, and the probe's no-eviction asymmetry.

use script_relay::client_manager::ClientManager;
use tokio::sync::mpsc::{unbounded_channel, UnboundedReceiver};

fn fresh_client(m: &mut ClientManager, now: u64) -> (usize, UnboundedReceiver<String>) {
    let (tx, rx) = unbounded_channel::<String>();
    let id = m.register(tx, now);
    (id, rx)
}

#[test]
fn broadcast_reaches_all_healthy_clients() {
    let mut m = ClientManager::new();
    let (_a, mut rx_a) = fresh_client(&mut m, 0);
    let (_b, mut rx_b) = fresh_client(&mut m, 0);
    let (_c, mut rx_c) = fresh_client(&mut m, 0);
    let (delivered, total) = m.broadcast("payload");
    assert_eq!((delivered, total), (3, 3));
    assert_eq!(m.client_count(), 3);
    assert_eq!(rx_a.try_recv().unwrap(), "payload");
    assert_eq!(rx_b.try_recv().unwrap(), "payload");
    assert_eq!(rx_c.try_recv().unwrap(), "payload");
}

#[test]
fn broadcast_with_no_clients_is_zero_zero() {
    let mut m = ClientManager::new();
    assert_eq!(m.client_count(), 0);
    let (delivered, total) = m.broadcast("nobody listens");
    assert_eq!((delivered, total), (0, 0));
    assert_eq!(m.client_count(), 0);
}

#[test]
fn one_closed_channel_fails_alone_and_is_evicted() {
    let mut m = ClientManager::new();
    let (_a, mut rx_a) = fresh_client(&mut m, 0);
    let (_b, rx_b) = fresh_client(&mut m, 0);
    let (_c, mut rx_c) = fresh_client(&mut m, 0);
    drop(rx_b);
    let (delivered, total) = m.broadcast("payload");
    assert_eq!((delivered, total), (2, 3));
    assert_eq!(m.client_count(), 2);
    assert_eq!(rx_a.try_recv().unwrap(), "payload");
    assert_eq!(rx_c.try_recv().unwrap(), "payload");
    // the failed client is gone: a second broadcast sees two clients only
    let (delivered, total) = m.broadcast("again");
    assert_eq!((delivered, total), (2, 2));
}

#[test]
fn per_client_order_is_kept() {
    let mut m = ClientManager::new();
    let (_a, mut rx_a) = fresh_client(&mut m, 0);
    m.broadcast("first");
    m.broadcast("second");
    assert_eq!(rx_a.try_recv().unwrap(), "first");
    assert_eq!(rx_a.try_recv().unwrap(), "second");
}

#[test]
fn scenario_execute_directive_to_three_clients() {
    let mut m = ClientManager::new();
    let (a, mut rx_a) = fresh_client(&mut m, 0);
    let (b, rx_b) = fresh_client(&mut m, 0);
    let (c, mut rx_c) = fresh_client(&mut m, 0);
    assert_eq!((a, b, c), (0, 1, 2));
    let directive =
        "{\"type\":\"execute\",\"script\":\"print(1)\",\"filename\":\"x.lua\",\"timestamp\":\"T\"}";
    let (delivered, total) = m.broadcast(directive);
    assert_eq!((delivered, total), (3, 3));
    assert_eq!(rx_a.try_recv().unwrap(), directive);
    assert_eq!(rx_c.try_recv().unwrap(), directive);
    drop(rx_b);
    let (delivered, total) = m.broadcast(directive);
    assert_eq!((delivered, total), (2, 3));
    assert_eq!(m.client_count(), 2);
}

#[test]
fn ping_reaches_clients_without_evicting_anyone() {
    let mut m = ClientManager::new();
    let (_a, mut rx_a) = fresh_client(&mut m, 0);
    let (_b, rx_b) = fresh_client(&mut m, 0);
    drop(rx_b);
    let reached = m.send_ping();
    assert_eq!(reached, 1);
    // probe failures are not evicted here; that is the timeout scan's job
    assert_eq!(m.client_count(), 2);
    assert_eq!(rx_a.try_recv().unwrap(), "{\"type\":\"ping\"}");
}

#[test]
fn ping_with_no_clients_reaches_none() {
    let m = ClientManager::new();
    assert_eq!(m.send_ping(), 0);
}
