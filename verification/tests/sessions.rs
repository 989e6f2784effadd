//! End-to-end session scenarios: control authorization with takeover and
//! credential rotation, and listener authentication and streaming.

use relay::config::Config;
use relay::control::{authorize, authorize_with_password, handle_control_line, ControlError};
use relay::listen::{accepts_protocol, ListenerFrame, ListenerReply, ListenerSession};
use relay::shared_data::SharedData;

fn test_config() -> Config {
    Config {
        listen_password: "secret".to_string(),
        listen_port: 26001,
        control_port: 26000,
        listen_tls: false,
        identity_file: None,
        identity_password: None,
    }
}

fn queue(data: &SharedData, addr: u64) -> Vec<String> {
    data.listen_connections
        .iter()
        .find(|e| e.addr == addr)
        .expect("listener not registered")
        .queue
        .clone()
}

#[test]
fn listener_then_controllers_scenario() {
    let mut data = SharedData::new(test_config());

    // A listener connects and presents the static credential.
    let mut listener = ListenerSession::new(10);
    let reply = listener.on_frame(&mut data, ListenerFrame::Text("secret".to_string()));
    assert!(matches!(reply, ListenerReply::NoReply));

    // It immediately receives exactly one credential push, and nothing else.
    let pushed = queue(&data, 10);
    assert_eq!(pushed.len(), 1);
    let x = pushed[0]
        .strip_prefix("control_password ")
        .expect("expected a credential push")
        .to_string();
    assert_eq!(x.len(), 16);

    // A controller connects with the current control credential and sends a
    // command; the listener receives it.
    let first_line = Some(data.control_password.clone());
    let auth1 = authorize(&mut data, first_line).expect("first controller refused");
    handle_control_line(&mut data, "hello".to_string());
    assert_eq!(queue(&data, 10).last().unwrap(), "hello");

    // A second controller connects with the now-rotated credential: the first
    // session's token is handed out for eviction, and the listener receives a
    // fresh credential push.
    let first_line = Some(data.control_password.clone());
    let auth2 = authorize(&mut data, first_line).expect("second controller refused");
    assert_eq!(auth2.evicted, Some(auth1.token));
    assert_eq!(data.current_control_tx, Some(auth2.token));
    let last = queue(&data, 10).last().unwrap().clone();
    let y = last
        .strip_prefix("control_password ")
        .expect("expected a credential push")
        .to_string();
    assert_eq!(y.len(), 16);
    assert_ne!(x, y);
}

#[test]
fn credential_rotates_on_every_authorization() {
    let mut data = SharedData::new(test_config());
    data.register_listener(1);
    let before = data.control_password.clone();
    let auth = authorize(&mut data, Some(before.clone())).expect("controller refused");
    assert_ne!(data.control_password, before);
    assert_eq!(
        queue(&data, 1),
        vec![format!("control_password {}", data.control_password)]
    );
    assert_eq!(auth.evicted, None);
}

#[test]
fn authorize_rejects_wrong_password_and_closed_connection() {
    let mut data = SharedData::new(test_config());
    data.register_listener(1);
    let before = data.control_password.clone();

    let err = authorize(&mut data, Some("not it".to_string())).unwrap_err();
    assert_eq!(err, ControlError::WrongPassword);
    let err = authorize(&mut data, None).unwrap_err();
    assert_eq!(err, ControlError::ConnectionClosed);

    // a refused connection changes nothing
    assert_eq!(data.control_password, before);
    assert_eq!(queue(&data, 1), Vec::<String>::new());
    assert_eq!(data.current_control_tx, None);
}

#[test]
fn authorize_with_password_installs_the_given_credential() {
    let mut data = SharedData::new(test_config());
    data.register_listener(1);
    let before = data.control_password.clone();
    authorize_with_password(&mut data, Some(before), "fresh-credential".to_string())
        .expect("controller refused");
    assert_eq!(data.control_password, "fresh-credential");
    assert_eq!(queue(&data, 1), vec!["control_password fresh-credential"]);
}

#[test]
fn control_only_lines_are_not_rebroadcast() {
    let mut data = SharedData::new(test_config());
    data.register_listener(1);
    handle_control_line(&mut data, "host foo".to_string());
    handle_control_line(&mut data, "control_password forged".to_string());
    assert_eq!(queue(&data, 1), Vec::<String>::new());
    handle_control_line(&mut data, "hostnames".to_string());
    assert_eq!(queue(&data, 1), vec!["hostnames"]);
}

#[test]
fn listener_wrong_password_is_refused() {
    let mut data = SharedData::new(test_config());
    let mut listener = ListenerSession::new(10);
    let reply = listener.on_frame(&mut data, ListenerFrame::Text("wrong".to_string()));
    assert!(matches!(reply, ListenerReply::Close));
    assert!(!listener.authorized);
    assert!(data.listen_connections.is_empty());
}

#[test]
fn listener_text_reaches_other_listeners_but_not_itself() {
    let mut data = SharedData::new(test_config());
    let mut first = ListenerSession::new(1);
    let mut second = ListenerSession::new(2);
    first.on_frame(&mut data, ListenerFrame::Text("secret".to_string()));
    second.on_frame(&mut data, ListenerFrame::Text("secret".to_string()));
    let first_before = queue(&data, 1);

    let reply = first.on_frame(&mut data, ListenerFrame::Text("chat".to_string()));
    assert!(matches!(reply, ListenerReply::NoReply));
    assert_eq!(queue(&data, 2).last().unwrap(), "chat");
    assert_eq!(queue(&data, 1), first_before);
}

#[test]
fn listener_cannot_push_reserved_lines() {
    let mut data = SharedData::new(test_config());
    let mut first = ListenerSession::new(1);
    let mut second = ListenerSession::new(2);
    first.on_frame(&mut data, ListenerFrame::Text("secret".to_string()));
    second.on_frame(&mut data, ListenerFrame::Text("secret".to_string()));
    let second_before = queue(&data, 2);

    first.on_frame(&mut data, ListenerFrame::Text("control_password forged".to_string()));
    first.on_frame(&mut data, ListenerFrame::Text("host foo".to_string()));
    assert_eq!(queue(&data, 2), second_before);
}

#[test]
fn pings_are_answered_and_close_ends_the_session() {
    let mut data = SharedData::new(test_config());
    let mut listener = ListenerSession::new(1);
    let reply = listener.on_frame(&mut data, ListenerFrame::Ping(vec![1, 2]));
    assert!(matches!(reply, ListenerReply::Pong(p) if p == vec![1, 2]));
    let reply = listener.on_frame(&mut data, ListenerFrame::Text("secret".to_string()));
    assert!(matches!(reply, ListenerReply::NoReply));
    let reply = listener.on_frame(&mut data, ListenerFrame::Ping(Vec::new()));
    assert!(matches!(reply, ListenerReply::Pong(p) if p.is_empty()));
    let reply = listener.on_frame(&mut data, ListenerFrame::Binary(vec![9]));
    assert!(matches!(reply, ListenerReply::NoReply));
    let reply = listener.on_frame(&mut data, ListenerFrame::Pong(vec![1]));
    assert!(matches!(reply, ListenerReply::NoReply));
    let reply = listener.on_frame(&mut data, ListenerFrame::Close);
    assert!(matches!(reply, ListenerReply::Close));
    // teardown unregisters exactly once; doing it again stays a no-op
    data.unregister_listener(1);
    assert!(data.listen_connections.is_empty());
    data.unregister_listener(1);
    assert!(data.listen_connections.is_empty());
}

#[test]
fn upgrade_must_name_the_private_subprotocol() {
    assert!(accepts_protocol(&vec!["rust-websocket".to_string()]));
    assert!(accepts_protocol(&vec!["other".to_string(), "rust-websocket".to_string()]));
    assert!(!accepts_protocol(&vec!["other".to_string()]));
    assert!(!accepts_protocol(&Vec::new()));
}
