use opener::codec::decode;
use opener::default_port;
use opener::dispatch::{dispatch, Dispatch};
use opener::nonce::gen_nonce;
use opener::payload::Payload;
use opener::session::{LineOutcome, Session, SessionState};

fn command_line(key: &str, nonce: &str, cmd: &str) -> String {
    let mut p = Payload::new();
    p.insert("cmd".to_string(), cmd.to_string());
    opener::codec::encode(key, nonce, &p)
}

#[test]
fn default_port_is_fixed() {
    assert_eq!(default_port(), 8877);
}

#[test]
fn nonce_is_32_alphanumeric_characters() {
    let n = gen_nonce();
    assert_eq!(n.chars().count(), 32);
    assert!(n.chars().all(|c| c.is_ascii_alphanumeric()));
    let m = gen_nonce();
    assert_ne!(n, m, "two fresh nonces should differ");
}

#[test]
fn dispatch_knows_exactly_open() {
    assert_eq!(dispatch("open"), Dispatch::Activate);
    assert_eq!(dispatch("close"), Dispatch::UnknownCommand);
    assert_eq!(dispatch(""), Dispatch::UnknownCommand);
    assert_eq!(dispatch("Open"), Dispatch::UnknownCommand);
    assert_eq!(dispatch("open "), Dispatch::UnknownCommand);
}

#[test]
fn full_cycle_activates_once_and_acknowledges() {
    let key = "secret123";
    let mut sess = Session::new(key.to_string());
    assert_eq!(sess.state, SessionState::Connected);

    let hello = sess.start().expect("hello owed in Connected");
    assert_eq!(sess.state, SessionState::HelloSent);
    let hello_payload = decode(&hello, key, &sess.nonce).expect("hello decodes");
    assert_eq!(hello_payload.get("version").map(String::as_str), Some("1"));
    assert_eq!(hello_payload.get("api").map(String::as_str), Some("opener"));

    sess.hello_sent();
    assert_eq!(sess.state, SessionState::AwaitingCommand);

    let cmd = command_line(key, &sess.nonce, "open");
    assert_eq!(sess.on_line(&cmd), LineOutcome::Activate);
    assert_eq!(sess.state, SessionState::Verified);

    let ack = sess.ack().expect("ack owed in Verified");
    assert_eq!(sess.state, SessionState::Closed);
    let ack_payload = decode(&ack, key, &sess.nonce).expect("ack decodes");
    assert_eq!(ack_payload.get("status").map(String::as_str), Some("ok"));
}

#[test]
fn second_command_on_same_connection_gets_no_response() {
    let key = "secret123";
    let mut sess = Session::new(key.to_string());
    sess.start().unwrap();
    sess.hello_sent();
    let cmd = command_line(key, &sess.nonce.clone(), "open");
    assert_eq!(sess.on_line(&cmd), LineOutcome::Activate);
    sess.ack().unwrap();
    assert_eq!(sess.state, SessionState::Closed);

    // The session is single-use: the same valid command again is
    // ignored and no acknowledgment can be produced any more.
    assert_eq!(sess.on_line(&cmd), LineOutcome::Ignore);
    assert_eq!(sess.state, SessionState::Closed);
    assert!(sess.ack().is_none());
}

#[test]
fn unknown_command_closes_without_ack_or_activation() {
    let key = "secret123";
    for bad in ["close", ""] {
        let mut sess = Session::new(key.to_string());
        sess.start().unwrap();
        sess.hello_sent();
        let cmd = command_line(key, &sess.nonce.clone(), bad);
        assert_eq!(sess.on_line(&cmd), LineOutcome::CloseSilently);
        assert_eq!(sess.state, SessionState::Closed);
        assert!(sess.ack().is_none());
    }
}

#[test]
fn missing_cmd_field_closes_without_ack() {
    let key = "secret123";
    let mut sess = Session::new(key.to_string());
    sess.start().unwrap();
    sess.hello_sent();
    let mut p = Payload::new();
    p.insert("not-cmd".to_string(), "open".to_string());
    let line = opener::codec::encode(key, &sess.nonce, &p);
    assert_eq!(sess.on_line(&line), LineOutcome::CloseSilently);
    assert_eq!(sess.state, SessionState::Closed);
    assert!(sess.ack().is_none());
}

#[test]
fn replayed_line_from_another_session_closes() {
    let key = "secret123";
    let mut old_sess = Session::new(key.to_string());
    old_sess.start().unwrap();
    let replayed = command_line(key, &old_sess.nonce, "open");

    let mut sess = Session::new(key.to_string());
    sess.start().unwrap();
    sess.hello_sent();
    assert_ne!(sess.nonce, old_sess.nonce);
    assert_eq!(sess.on_line(&replayed), LineOutcome::CloseSilently);
    assert_eq!(sess.state, SessionState::Closed);
    assert!(sess.ack().is_none());
}

#[test]
fn forged_line_with_wrong_key_closes() {
    let mut sess = Session::new("right key".to_string());
    sess.start().unwrap();
    sess.hello_sent();
    let forged = command_line("wrong key", &sess.nonce.clone(), "open");
    assert_eq!(sess.on_line(&forged), LineOutcome::CloseSilently);
    assert_eq!(sess.state, SessionState::Closed);
}

#[test]
fn garbage_line_closes() {
    let mut sess = Session::new("k".to_string());
    sess.start().unwrap();
    sess.hello_sent();
    assert_eq!(sess.on_line("not an envelope\n"), LineOutcome::CloseSilently);
    assert_eq!(sess.state, SessionState::Closed);
}

#[test]
fn io_failure_closes_in_any_state() {
    let mut sess = Session::new("k".to_string());
    sess.on_io_failure();
    assert_eq!(sess.state, SessionState::Closed);

    let mut sess2 = Session::new("k".to_string());
    sess2.start().unwrap();
    sess2.hello_sent();
    sess2.on_io_failure();
    assert_eq!(sess2.state, SessionState::Closed);
    assert_eq!(sess2.on_line("anything"), LineOutcome::Ignore);
    assert!(sess2.ack().is_none());
}

#[test]
fn session_methods_do_nothing_in_wrong_states() {
    let mut sess = Session::new("k".to_string());
    // Not yet verified: no ack owed.
    assert!(sess.ack().is_none());
    // Not yet awaiting: lines are ignored.
    assert_eq!(sess.on_line("x"), LineOutcome::Ignore);
    assert_eq!(sess.state, SessionState::Connected);
    // hello_sent before start changes nothing.
    sess.hello_sent();
    assert_eq!(sess.state, SessionState::Connected);
    // A second start after the first yields nothing.
    sess.start().unwrap();
    assert!(sess.start().is_none());
}
