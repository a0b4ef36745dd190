//! Tests of the id router and of whole multiplexing scenarios: distinct
//! surrogate ids, the round trip back to the original id, client isolation,
//! dropped strays, notification pass-through, and the containment of a
//! malformed header block.

use lsp_relay::message::{content_length, Message, ProtocolError};
use lsp_relay::router::{LocalIdMap, RequestIdMap};
use lsp_relay::session::{
    deliver_response, forward_request, route_response, RouteDecision,
};

fn line(s: &str) -> Vec<u8> {
    s.as_bytes().to_vec()
}

fn msg(body: &str) -> Message {
    Message::from_parts(vec![line("\r\n")], body.as_bytes().to_vec()).unwrap()
}

#[test]
fn surrogate_ids_strictly_increase_across_clients() {
    let mut router = RequestIdMap::new();
    let mut issued = Vec::new();
    // Two clients interleaved: every id comes from the one global counter.
    for k in 0..6u64 {
        let client = 1 + (k % 2);
        issued.push(router.new_request_id(client));
    }
    for k in 1..issued.len() {
        assert!(issued[k - 1] < issued[k]);
    }
}

#[test]
fn client_identities_count_up_from_zero() {
    let mut counter: u64 = 0;
    assert_eq!(lsp_relay::router::next_client_id(&mut counter), 0);
    assert_eq!(lsp_relay::router::next_client_id(&mut counter), 1);
    assert_eq!(counter, 2);
}

#[test]
fn resolve_and_remove_spends_the_entry() {
    let mut router = RequestIdMap::new();
    let s = router.new_request_id(42);
    assert_eq!(router.resolve_and_remove(s), Some(42));
    assert_eq!(router.resolve_and_remove(s), None);
}

#[test]
fn remove_client_sweeps_only_its_entries() {
    let mut router = RequestIdMap::new();
    let s1 = router.new_request_id(1);
    let s2 = router.new_request_id(2);
    let s3 = router.new_request_id(1);
    router.remove_client(1);
    assert_eq!(router.resolve_and_remove(s1), None);
    assert_eq!(router.resolve_and_remove(s3), None);
    assert_eq!(router.resolve_and_remove(s2), Some(2));
}

#[test]
fn round_trip_restores_original_id() {
    let mut router = RequestIdMap::new();
    let mut local = LocalIdMap::new();
    let req = msg(r#"{"id":5,"method":"foo"}"#);
    let fwd = forward_request(req, &mut router, &mut local, 9);
    let surrogate = fwd.get_id().unwrap();
    assert_ne!(surrogate, 5);

    // The backend answers under the surrogate id.
    let resp = msg(&format!(r#"{{"id":{},"result":"ok"}}"#, surrogate));
    let d = route_response(&resp, &mut router);
    assert_eq!(d, RouteDecision::ToClient(9));
    let out = deliver_response(resp, &mut local).unwrap();
    assert_eq!(out.get_id(), Some(5));
}

#[test]
fn concurrent_clients_with_equal_ids_stay_isolated() {
    // Client A and client B both choose original id 1; the backend answers
    // in reverse order; each client still gets its own answer under id 1.
    let mut router = RequestIdMap::new();
    let mut local_a = LocalIdMap::new();
    let mut local_b = LocalIdMap::new();
    let a = 1u64;
    let b = 2u64;

    let req_a = msg(r#"{"id":1,"method":"foo"}"#);
    let req_b = msg(r#"{"id":1,"method":"bar"}"#);
    let fwd_a = forward_request(req_a, &mut router, &mut local_a, a);
    let fwd_b = forward_request(req_b, &mut router, &mut local_b, b);
    let sa = fwd_a.get_id().unwrap();
    let sb = fwd_b.get_id().unwrap();
    // The backend sees two distinct ids.
    assert_ne!(sa, sb);

    // Answers come back in reverse order, each tagged with its marker.
    let resp_b = msg(&format!(r#"{{"id":{},"result":"answer-bar"}}"#, sb));
    let resp_a = msg(&format!(r#"{{"id":{},"result":"answer-foo"}}"#, sa));

    let db = route_response(&resp_b, &mut router);
    assert_eq!(db, RouteDecision::ToClient(b));
    let da = route_response(&resp_a, &mut router);
    assert_eq!(da, RouteDecision::ToClient(a));

    let out_b = deliver_response(resp_b, &mut local_b).unwrap();
    assert_eq!(out_b.get_id(), Some(1));
    let text_b = String::from_utf8(out_b.content).unwrap();
    assert!(text_b.contains("answer-bar"));
    assert!(!text_b.contains("answer-foo"));

    let out_a = deliver_response(resp_a, &mut local_a).unwrap();
    assert_eq!(out_a.get_id(), Some(1));
    let text_a = String::from_utf8(out_a.content).unwrap();
    assert!(text_a.contains("answer-foo"));
    assert!(!text_a.contains("answer-bar"));
}

#[test]
fn unknown_surrogate_id_is_dropped() {
    let mut router = RequestIdMap::new();
    let resp = msg(r#"{"id":777,"result":"stray"}"#);
    assert_eq!(route_response(&resp, &mut router), RouteDecision::Discard);

    let mut local = LocalIdMap::new();
    assert!(deliver_response(resp, &mut local).is_none());
}

#[test]
fn second_response_for_same_surrogate_is_dropped() {
    let mut router = RequestIdMap::new();
    let mut local = LocalIdMap::new();
    let req = msg(r#"{"id":4,"method":"foo"}"#);
    let fwd = forward_request(req, &mut router, &mut local, 3);
    let s = fwd.get_id().unwrap();

    let resp = msg(&format!(r#"{{"id":{}}}"#, s));
    assert_eq!(route_response(&resp, &mut router), RouteDecision::ToClient(3));
    let again = msg(&format!(r#"{{"id":{}}}"#, s));
    assert_eq!(route_response(&again, &mut router), RouteDecision::Discard);
}

#[test]
fn notifications_pass_through_byte_identical() {
    let mut router = RequestIdMap::new();
    let mut local = LocalIdMap::new();

    // Client to backend: bytes untouched, nothing recorded.
    let note = msg(r#"{"method":"note","params":[1,2]}"#);
    let original_bytes = note.content.clone();
    let fwd = forward_request(note, &mut router, &mut local, 8);
    assert_eq!(fwd.content, original_bytes);
    assert_eq!(fwd.get_id(), None);

    // Backend to client: handed to every client, bytes untouched.
    let back = msg(r#"{"method":"event"}"#);
    let back_bytes = back.content.clone();
    assert_eq!(route_response(&back, &mut router), RouteDecision::ToAll);
    let out = deliver_response(back, &mut local).unwrap();
    assert_eq!(out.content, back_bytes);

    // No surrogate id was spent on either pass.
    let req = msg(r#"{"id":1}"#);
    let fwd2 = forward_request(req, &mut router, &mut local, 8);
    assert_eq!(fwd2.get_id(), Some(0));
}

#[test]
fn malformed_header_block_is_contained() {
    // One connection presents a header block without Content-Length; it
    // fails, and an untouched session keeps working.
    let bad_headers = vec![line("X-Other: 1\r\n"), line("\r\n")];
    assert_eq!(
        content_length(&bad_headers),
        Err(ProtocolError::MissingContentLength)
    );

    let mut router = RequestIdMap::new();
    let mut local = LocalIdMap::new();
    let req = msg(r#"{"id":2,"method":"still-alive"}"#);
    let fwd = forward_request(req, &mut router, &mut local, 5);
    let s = fwd.get_id().unwrap();
    let resp = msg(&format!(r#"{{"id":{}}}"#, s));
    assert_eq!(route_response(&resp, &mut router), RouteDecision::ToClient(5));
    let out = deliver_response(resp, &mut local).unwrap();
    assert_eq!(out.get_id(), Some(2));
}
