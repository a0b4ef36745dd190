//! Tests of the whole-step entry points that take a connection's raw framed
//! pieces: header lines and payload bytes in, a translated message out.

use lsp_relay::message::ProtocolError;
use lsp_relay::router::{LocalIdMap, RequestIdMap};
use lsp_relay::session::{handle_incoming, handle_outgoing};

fn line(s: &str) -> Vec<u8> {
    s.as_bytes().to_vec()
}

#[test]
fn handle_incoming_rewrites_and_handle_outgoing_restores() {
    let mut router = RequestIdMap::new();
    let mut local = LocalIdMap::new();

    let fwd = handle_incoming(
        vec![line("Content-Length: 23\r\n"), line("\r\n")],
        br#"{"id":31,"method":"go"}"#.to_vec(),
        &mut router,
        &mut local,
        6,
    )
    .unwrap();
    let surrogate = fwd.get_id().unwrap();

    let back_body = format!(r#"{{"id":{},"result":null}}"#, surrogate).into_bytes();
    let out = handle_outgoing(vec![line("\r\n")], back_body, &mut local)
        .unwrap()
        .unwrap();
    assert_eq!(out.get_id(), Some(31));
}

#[test]
fn handle_incoming_rejects_bad_payload_and_changes_nothing() {
    let mut router = RequestIdMap::new();
    let mut local = LocalIdMap::new();
    let r = handle_incoming(
        vec![line("\r\n")],
        b"][".to_vec(),
        &mut router,
        &mut local,
        1,
    );
    assert_eq!(r.err(), Some(ProtocolError::BodyParse));
    // The counter did not move: the next request still gets the first id.
    assert_eq!(router.counter_value(), 0);
}

#[test]
fn handle_outgoing_drops_unrecorded_surrogate() {
    let mut local = LocalIdMap::new();
    let out = handle_outgoing(vec![line("\r\n")], br#"{"id":9}"#.to_vec(), &mut local).unwrap();
    assert!(out.is_none());
}
