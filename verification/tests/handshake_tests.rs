use wstcpproxy::handshake::{build_handshake_response, derive_response_key, upgrade_reply, UpgradeReply};
use wstcpproxy::ErrorKind;

#[test]
fn accept_key_is_always_28_bytes() {
    let inputs: Vec<&[u8]> = vec![
        b"",
        b"x",
        b"dGhlIHNhbXBsZSBub25jZQ==",
        b"some arbitrary header value, not base64 at all",
        b"\x00\x01\x02\xff",
    ];
    for input in inputs {
        let key = derive_response_key(input);
        assert_eq!(key.len(), 28);
    }
}

#[test]
fn accept_key_is_deterministic() {
    let a = derive_response_key(b"dGhlIHNhbXBsZSBub25jZQ==");
    let b = derive_response_key(b"dGhlIHNhbXBsZSBub25jZQ==");
    assert_eq!(a, b);
}

#[test]
fn accept_key_known_vector() {
    let key = derive_response_key(b"dGhlIHNhbXBsZSBub25jZQ==");
    assert_eq!(key, b"s3pPLMBiTxaQ9kYGzzhZRbK+xOo=".to_vec());
}

#[test]
fn accept_key_depends_on_input() {
    let a = derive_response_key(b"dGhlIHNhbXBsZSBub25jZQ==");
    let b = derive_response_key(b"dGhlIHNhbXBsZSBub25jZR==");
    assert_ne!(a, b);
}

#[test]
fn response_layout_is_exact() {
    let response = build_handshake_response(b"AAAABBBBCCCCDDDDEEEEFFFFGGG=");
    let expected: Vec<u8> = b"HTTP/1.1 101 Switching Protocols\r\n\
Upgrade: websocket\r\n\
Connection: Upgrade\r\n\
Sec-WebSocket-Accept: AAAABBBBCCCCDDDDEEEEFFFFGGG=\r\n\r\n"
        .to_vec();
    assert_eq!(response, expected);
}

#[test]
fn end_to_end_known_request() {
    let request: &[u8] =
        b"GET / HTTP/1.1\r\nHost: x\r\nSec-WebSocket-Key: dGhlIHNhbXBsZSBub25jZQ==\r\n\r\n";
    match upgrade_reply(request, 8192) {
        UpgradeReply::Respond { consumed, response } => {
            assert_eq!(consumed, request.len());
            let expected: Vec<u8> = b"HTTP/1.1 101 Switching Protocols\r\n\
Upgrade: websocket\r\n\
Connection: Upgrade\r\n\
Sec-WebSocket-Accept: s3pPLMBiTxaQ9kYGzzhZRbK+xOo=\r\n\r\n"
                .to_vec();
            assert_eq!(response, expected);
        }
        _ => panic!("expected a completed handshake"),
    }
}

#[test]
fn upgrade_reply_needs_more_on_prefix() {
    let request: &[u8] = b"GET / HTTP/1.1\r\nSec-WebSocket-Key: abc\r\n";
    assert!(matches!(upgrade_reply(request, 8192), UpgradeReply::NeedMore));
}

#[test]
fn upgrade_reply_rejects_past_ceiling() {
    let buffer = vec![b'A'; 100];
    match upgrade_reply(&buffer, 99) {
        UpgradeReply::Reject(kind) => assert_eq!(kind, ErrorKind::ResourceExceeded),
        _ => panic!("expected a rejection"),
    }
}
