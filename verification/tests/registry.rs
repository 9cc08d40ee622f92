//! Registry bookkeeping: counting, touching, the timeout scan, and batch
//! eviction, run against real tokio channels.

use script_relay::client_manager::ClientManager;
use tokio::sync::mpsc::{unbounded_channel, UnboundedReceiver};

fn fresh_client(m: &mut ClientManager, now: u64) -> (usize, UnboundedReceiver<String>) {
    let (tx, rx) = unbounded_channel::<String>();
    let id = m.register(tx, now);
    (id, rx)
}

#[test]
fn count_tracks_register_unregister() {
    let mut m = ClientManager::new();
    assert_eq!(m.client_count(), 0);
    let (a, _rx_a) = fresh_client(&mut m, 0);
    let (b, _rx_b) = fresh_client(&mut m, 0);
    let (c, _rx_c) = fresh_client(&mut m, 0);
    assert_eq!((a, b, c), (0, 1, 2));
    assert_eq!(m.client_count(), 3);
    m.unregister(b);
    assert_eq!(m.client_count(), 2);
    m.unregister(a);
    m.unregister(c);
    assert_eq!(m.client_count(), 0);
}

#[test]
fn identifiers_are_never_reused() {
    let mut m = ClientManager::new();
    let (a, _rx_a) = fresh_client(&mut m, 0);
    m.unregister(a);
    let (b, _rx_b) = fresh_client(&mut m, 0);
    assert_eq!(a, 0);
    assert_eq!(b, 1);
}

#[test]
fn unregister_twice_is_safe() {
    let mut m = ClientManager::new();
    let (a, _rx_a) = fresh_client(&mut m, 0);
    let (b, mut rx_b) = fresh_client(&mut m, 0);
    m.unregister(a);
    m.unregister(a);
    assert_eq!(m.client_count(), 1);
    let (delivered, total) = m.broadcast("still here");
    assert_eq!((delivered, total), (1, 1));
    assert_eq!(rx_b.try_recv().unwrap(), "still here");
    assert_eq!(b, 1);
}

#[test]
fn touch_of_absent_id_is_a_no_op() {
    let mut m = ClientManager::new();
    let (_a, _rx_a) = fresh_client(&mut m, 100);
    m.update_pong(42, 200);
    assert_eq!(m.client_count(), 1);
    let mut empty = ClientManager::new();
    empty.update_pong(0, 200);
    assert_eq!(empty.client_count(), 0);
}

#[test]
fn timeout_scan_collects_exactly_the_overdue() {
    let mut m = ClientManager::new();
    let (a, _rx_a) = fresh_client(&mut m, 100);
    let (b, _rx_b) = fresh_client(&mut m, 100);
    m.update_pong(b, 150);
    // at time 145: a is 45 seconds old, b was touched in the future of 145
    let overdue = m.check_timeouts(40, 145);
    assert_eq!(overdue, vec![a]);
    // an age exactly at the threshold is not overdue
    let at_threshold = m.check_timeouts(45, 145);
    assert!(at_threshold.is_empty());
    // one second past the threshold is
    let past_threshold = m.check_timeouts(44, 145);
    assert_eq!(past_threshold, vec![a]);
}

#[test]
fn touch_refreshes_the_timestamp() {
    let mut m = ClientManager::new();
    let (a, _rx_a) = fresh_client(&mut m, 100);
    assert_eq!(m.check_timeouts(50, 200), vec![a]);
    m.update_pong(a, 200);
    assert!(m.check_timeouts(50, 200).is_empty());
}

#[test]
fn eviction_removes_from_count_and_stops_delivery() {
    let mut m = ClientManager::new();
    let (a, mut rx_a) = fresh_client(&mut m, 0);
    let (_b, mut rx_b) = fresh_client(&mut m, 0);
    m.disconnect_clients(vec![a]);
    assert_eq!(m.client_count(), 1);
    let (delivered, total) = m.broadcast("after eviction");
    assert_eq!((delivered, total), (1, 1));
    assert_eq!(rx_b.try_recv().unwrap(), "after eviction");
    // the evicted client's channel got nothing, and its sender is gone
    assert!(rx_a.try_recv().is_err());
}

#[test]
fn eviction_batch_is_idempotent_and_spares_others() {
    let mut m = ClientManager::new();
    let (a, _rx_a) = fresh_client(&mut m, 0);
    let (b, _rx_b) = fresh_client(&mut m, 0);
    let (c, _rx_c) = fresh_client(&mut m, 0);
    m.disconnect_clients(vec![a, c, a]);
    assert_eq!(m.client_count(), 1);
    m.disconnect_clients(vec![a, c]);
    assert_eq!(m.client_count(), 1);
    let (delivered, total) = m.broadcast("spared");
    assert_eq!((delivered, total), (1, 1));
    assert_eq!(b, 1);
}

#[test]
fn snapshot_lists_connected_clients_in_order() {
    let mut m = ClientManager::new();
    let (a, mut rx_a) = fresh_client(&mut m, 0);
    let (b, _rx_b) = fresh_client(&mut m, 0);
    let (c, _rx_c) = fresh_client(&mut m, 0);
    m.unregister(b);
    let snapshot = m.snapshot_senders();
    let ids: Vec<usize> = snapshot.iter().map(|p| p.0).collect();
    assert_eq!(ids, vec![a, c]);
    // a snapshot channel is the client's own channel
    snapshot[0].1.send("direct".to_string()).unwrap();
    assert_eq!(rx_a.try_recv().unwrap(), "direct");
    // the snapshot is point-in-time: later changes do not touch it
    m.unregister(c);
    assert_eq!(snapshot.len(), 2);
    assert_eq!(m.client_count(), 1);
}

#[test]
fn default_is_an_empty_registry() {
    let m = ClientManager::default();
    assert_eq!(m.client_count(), 0);
}
