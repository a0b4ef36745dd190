//! Tests of the wire-message codec: content-length scanning, payload id
//! extraction and rewriting, and serialization.

use lsp_relay::message::{content_length, Message, ProtocolError};

fn line(s: &str) -> Vec<u8> {
    s.as_bytes().to_vec()
}

#[test]
fn content_length_basic() {
    let headers = vec![line("Content-Length: 18\r\n"), line("\r\n")];
    assert_eq!(content_length(&headers), Ok(18));
}

#[test]
fn content_length_last_occurrence_wins() {
    let headers = vec![
        line("Content-Length: 7\r\n"),
        line("X-Other: yes\r\n"),
        line("Content-Length: 21\r\n"),
        line("\r\n"),
    ];
    assert_eq!(content_length(&headers), Ok(21));
}

#[test]
fn content_length_missing() {
    let headers = vec![line("X-Other: yes\r\n"), line("\r\n")];
    assert_eq!(content_length(&headers), Err(ProtocolError::MissingContentLength));
}

#[test]
fn content_length_not_numeric() {
    let headers = vec![line("Content-Length: abc\r\n"), line("\r\n")];
    assert_eq!(content_length(&headers), Err(ProtocolError::InvalidContentLength));
}

#[test]
fn content_length_empty_value() {
    let headers = vec![line("Content-Length:\r\n"), line("\r\n")];
    assert_eq!(content_length(&headers), Err(ProtocolError::InvalidContentLength));
}

#[test]
fn content_length_too_large() {
    let headers = vec![
        line("Content-Length: 99999999999999999999999999999999\r\n"),
        line("\r\n"),
    ];
    assert_eq!(content_length(&headers), Err(ProtocolError::InvalidContentLength));
}

#[test]
fn content_length_surrounding_whitespace() {
    let headers = vec![line("Content-Length:   42  \r\n"), line("\r\n")];
    assert_eq!(content_length(&headers), Ok(42));
}

#[test]
fn from_parts_reads_numeric_id() {
    let body = br#"{"id":7,"method":"x"}"#.to_vec();
    let m = Message::from_parts(vec![line("\r\n")], body).unwrap();
    assert_eq!(m.get_id(), Some(7));
}

#[test]
fn from_parts_notification_has_no_id() {
    let body = br#"{"method":"x"}"#.to_vec();
    let m = Message::from_parts(vec![line("\r\n")], body).unwrap();
    assert_eq!(m.get_id(), None);
}

#[test]
fn from_parts_string_id_is_not_numeric() {
    let body = br#"{"id":"seven"}"#.to_vec();
    let m = Message::from_parts(vec![line("\r\n")], body).unwrap();
    assert_eq!(m.get_id(), None);
}

#[test]
fn from_parts_rejects_bad_json() {
    let body = b"{not json".to_vec();
    let r = Message::from_parts(vec![line("\r\n")], body);
    assert_eq!(r.err(), Some(ProtocolError::BodyParse));
}

#[test]
fn encode_recomputes_content_length() {
    // The stale declared length (99) and the blank line are replaced by a
    // count recomputed from the payload as it now is.
    let headers = vec![line("X-A: 1\r\n"), line("Content-Length: 99\r\n"), line("\r\n")];
    let m = Message::from_parts(headers, b"{}".to_vec()).unwrap();
    let bytes = m.encode();
    assert_eq!(bytes, b"X-A: 1\r\nContent-Length: 2\r\n\r\n{}".to_vec());
}

#[test]
fn patch_id_rewrites_payload() {
    let body = br#"{"id":1,"method":"foo"}"#.to_vec();
    let mut m = Message::from_parts(vec![line("\r\n")], body).unwrap();
    m.patch_id(Some(1000));
    assert_eq!(m.get_id(), Some(1000));
    // The rewritten payload really carries the new id.
    let again = Message::from_parts(vec![line("\r\n")], m.content.clone()).unwrap();
    assert_eq!(again.get_id(), Some(1000));
    let text = String::from_utf8(m.content.clone()).unwrap();
    assert!(text.contains("1000"));
    assert!(text.contains("foo"));
}

#[test]
fn patch_id_none_strips_the_member() {
    let body = br#"{"id":3,"method":"foo"}"#.to_vec();
    let mut m = Message::from_parts(vec![line("\r\n")], body).unwrap();
    m.patch_id(None);
    assert_eq!(m.get_id(), None);
    let again = Message::from_parts(vec![line("\r\n")], m.content.clone()).unwrap();
    assert_eq!(again.get_id(), None);
    let text = String::from_utf8(m.content.clone()).unwrap();
    assert!(!text.contains("id"));
}

#[test]
fn encode_declared_length_matches_payload() {
    let body = br#"{"id":12,"method":"longer"}"#.to_vec();
    let m = Message::from_parts(vec![line("\r\n")], body.clone()).unwrap();
    let bytes = m.encode();
    let text = String::from_utf8(bytes).unwrap();
    let expected = format!("Content-Length: {}\r\n\r\n", body.len());
    assert!(text.starts_with(&expected));
    assert!(text.ends_with(&String::from_utf8(body).unwrap()));
}
