//! Tests of the shared registry: registration, broadcast fan-out, takeover
//! bookkeeping, and the idempotent teardown operations.

use relay::config::Config;
use relay::message::{forward_to_listeners, forward_to_listeners_except, Message};
use relay::shared_data::SharedData;

fn test_config() -> Config {
    Config {
        listen_password: "secret".to_string(),
        listen_port: 26001,
        control_port: 26000,
        listen_tls: false,
        identity_file: None,
        identity_password: None,
    }
}

fn fresh_data() -> SharedData {
    SharedData::new(test_config())
}

fn queue(data: &SharedData, addr: u64) -> Vec<String> {
    data.listen_connections
        .iter()
        .find(|e| e.addr == addr)
        .expect("listener not registered")
        .queue
        .clone()
}

#[test]
fn new_registry_generates_sixteen_character_password() {
    let data = fresh_data();
    assert_eq!(data.control_password.len(), 16);
    assert!(data.control_password.chars().all(|c| c.is_ascii_alphanumeric()));
    assert!(data.listen_connections.is_empty());
    assert!(data.current_control_tx.is_none());
}

#[test]
fn broadcast_reaches_every_listener_registered_at_call_time() {
    let mut data = fresh_data();
    data.register_listener(1);
    data.register_listener(2);
    data.broadcast(&"one".to_string(), None);
    data.register_listener(3);
    data.broadcast(&"two".to_string(), None);
    assert_eq!(queue(&data, 1), vec!["one", "two"]);
    assert_eq!(queue(&data, 2), vec!["one", "two"]);
    assert_eq!(queue(&data, 3), vec!["two"]);
}

#[test]
fn broadcast_respects_exclusion() {
    let mut data = fresh_data();
    data.register_listener(1);
    data.register_listener(2);
    data.broadcast(&"line".to_string(), Some(1));
    assert_eq!(queue(&data, 1), Vec::<String>::new());
    assert_eq!(queue(&data, 2), vec!["line"]);
}

#[test]
fn forward_drops_forged_credential_push() {
    let mut data = fresh_data();
    data.register_listener(1);
    data.register_listener(2);
    forward_to_listeners(&mut data, "control_password forged".to_string());
    assert_eq!(queue(&data, 1), Vec::<String>::new());
    assert_eq!(queue(&data, 2), Vec::<String>::new());
    forward_to_listeners_except(&mut data, 1, "control_password forged".to_string());
    assert_eq!(queue(&data, 2), Vec::<String>::new());
    forward_to_listeners(&mut data, "ordinary".to_string());
    assert_eq!(queue(&data, 1), vec!["ordinary"]);
    assert_eq!(queue(&data, 2), vec!["ordinary"]);
}

#[test]
fn unregister_absent_listener_is_a_no_op() {
    let mut data = fresh_data();
    data.register_listener(1);
    data.broadcast(&"kept".to_string(), None);
    data.unregister_listener(99);
    assert_eq!(data.listen_connections.len(), 1);
    assert_eq!(queue(&data, 1), vec!["kept"]);
    data.unregister_listener(1);
    assert!(data.listen_connections.is_empty());
    data.unregister_listener(1);
    assert!(data.listen_connections.is_empty());
}

#[test]
fn end_control_session_checks_identity() {
    let mut data = fresh_data();
    let (token, evicted) = data.takeover_control_session();
    assert_eq!(evicted, None);
    assert_eq!(data.current_control_tx, Some(token));
    // a stale token does not clear the current session
    data.end_control_session(token + 1);
    assert_eq!(data.current_control_tx, Some(token));
    // the matching token does, and ending again stays a no-op
    data.end_control_session(token);
    assert_eq!(data.current_control_tx, None);
    data.end_control_session(token);
    assert_eq!(data.current_control_tx, None);
}

#[test]
fn takeover_hands_back_the_evicted_token() {
    let mut data = fresh_data();
    let (first, none_evicted) = data.takeover_control_session();
    assert_eq!(none_evicted, None);
    let (second, evicted) = data.takeover_control_session();
    assert_eq!(evicted, Some(first));
    assert_ne!(first, second);
    assert_eq!(data.current_control_tx, Some(second));
}

#[test]
fn message_send_pushes_encoded_credential() {
    let mut tx: Vec<String> = Vec::new();
    Message::ControlPassword("tok").send(&mut tx);
    assert_eq!(tx, vec!["control_password tok"]);
}

#[test]
fn register_twice_resets_the_queue() {
    let mut data = fresh_data();
    data.register_listener(1);
    data.broadcast(&"old".to_string(), None);
    data.register_listener(1);
    assert_eq!(data.listen_connections.len(), 1);
    assert_eq!(queue(&data, 1), Vec::<String>::new());
}
