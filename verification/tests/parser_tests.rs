use wstcpproxy::parser::{
    extract_websocket_key, ExtractOutcome, HttpParser, HttpStreamParser, ParseOutcome,
};
use wstcpproxy::scan::{header_key_char, header_value_char};
use wstcpproxy::ErrorKind;

const HEAD: &[u8] =
    b"GET /tunnel HTTP/1.1\r\nHost: example\r\nSec-WebSocket-Key: dGhlIHNhbXBsZSBub25jZQ==\r\nUpgrade: websocket\r\n\r\n";

#[test]
fn complete_head_yields_key_and_consumed() {
    match HttpStreamParser::parse_websocket_key(HEAD) {
        ParseOutcome::Complete { consumed, key } => {
            assert_eq!(consumed, HEAD.len());
            assert_eq!(key, b"dGhlIHNhbXBsZSBub25jZQ==".to_vec());
        }
        _ => panic!("expected a complete parse"),
    }
}

#[test]
fn every_strict_prefix_is_incomplete() {
    for n in 0..HEAD.len() {
        assert!(
            matches!(
                HttpStreamParser::parse_websocket_key(&HEAD[..n]),
                ParseOutcome::Incomplete
            ),
            "prefix of {} bytes should be incomplete",
            n
        );
    }
}

#[test]
fn chunked_feeding_succeeds_regardless_of_chunking() {
    for chunk in [1usize, 2, 3, 7, 19] {
        let mut buffer: Vec<u8> = Vec::new();
        let mut done = false;
        for piece in HEAD.chunks(chunk) {
            assert!(!done);
            buffer.extend_from_slice(piece);
            match HttpStreamParser::parse_websocket_key(&buffer) {
                ParseOutcome::Incomplete => {}
                ParseOutcome::Complete { consumed, key } => {
                    assert_eq!(consumed, HEAD.len());
                    assert_eq!(key, b"dGhlIHNhbXBsZSBub25jZQ==".to_vec());
                    done = true;
                }
                _ => panic!("no error may appear while feeding a valid head"),
            }
        }
        assert!(done);
    }
}

#[test]
fn trailing_bytes_are_not_consumed() {
    let mut bytes = HEAD.to_vec();
    bytes.extend_from_slice(b"leftover frame bytes");
    match HttpStreamParser::parse_websocket_key(&bytes) {
        ParseOutcome::Complete { consumed, key } => {
            assert_eq!(consumed, HEAD.len());
            assert_eq!(key, b"dGhlIHNhbXBsZSBub25jZQ==".to_vec());
        }
        _ => panic!("expected a complete parse"),
    }
}

#[test]
fn missing_start_line_is_malformed() {
    assert!(matches!(
        HttpStreamParser::parse_websocket_key(b"Host: x\r\nUpgrade: websocket\r\n\r\n"),
        ParseOutcome::Malformed
    ));
    assert!(matches!(
        HttpStreamParser::parse_websocket_key(b" GET / HTTP/1.1\r\n\r\n"),
        ParseOutcome::Malformed
    ));
    assert!(matches!(
        HttpStreamParser::parse_websocket_key(b"GET / FTP/1.1\r\n\r\n"),
        ParseOutcome::Malformed
    ));
    assert!(matches!(
        HttpStreamParser::parse_websocket_key(b"GET / HTTP/x.1\r\n\r\n"),
        ParseOutcome::Malformed
    ));
}

#[test]
fn header_line_without_colon_is_malformed() {
    assert!(matches!(
        HttpStreamParser::parse_websocket_key(b"GET / HTTP/1.1\r\nHost example\r\n\r\n"),
        ParseOutcome::Malformed
    ));
}

#[test]
fn bare_lf_line_ending_is_malformed() {
    assert!(matches!(
        HttpStreamParser::parse_websocket_key(b"GET / HTTP/1.1\nHost: x\n\n"),
        ParseOutcome::Malformed
    ));
}

#[test]
fn structurally_valid_head_without_key_is_missing_key() {
    assert!(matches!(
        HttpStreamParser::parse_websocket_key(b"GET / HTTP/1.1\r\nHost: x\r\n\r\n"),
        ParseOutcome::MissingKey
    ));
}

#[test]
fn key_header_name_matches_case_insensitively() {
    for head in [
        b"GET / HTTP/1.1\r\nSEC-WEBSOCKET-KEY: v1\r\n\r\n".as_slice(),
        b"GET / HTTP/1.1\r\nsec-websocket-key: v1\r\n\r\n".as_slice(),
        b"GET / HTTP/1.1\r\nSec-WebSocket-Key: v1\r\n\r\n".as_slice(),
    ] {
        match HttpStreamParser::parse_websocket_key(head) {
            ParseOutcome::Complete { key, .. } => assert_eq!(key, b"v1".to_vec()),
            _ => panic!("expected the key to be found"),
        }
    }
}

#[test]
fn first_matching_header_wins() {
    let head: &[u8] =
        b"GET / HTTP/1.1\r\nSec-WebSocket-Key: first\r\nSec-WebSocket-Key: second\r\n\r\n";
    match HttpStreamParser::parse_websocket_key(head) {
        ParseOutcome::Complete { key, .. } => assert_eq!(key, b"first".to_vec()),
        _ => panic!("expected a complete parse"),
    }
}

#[test]
fn value_keeps_trailing_spaces_and_drops_leading_ones() {
    let head: &[u8] = b"GET / HTTP/1.1\r\nSec-WebSocket-Key:   abc  \r\n\r\n";
    match HttpStreamParser::parse_websocket_key(head) {
        ParseOutcome::Complete { key, .. } => assert_eq!(key, b"abc  ".to_vec()),
        _ => panic!("expected a complete parse"),
    }
}

#[test]
fn extractor_rejects_past_ceiling_before_parsing() {
    let buffer = vec![b'x'; 20];
    match extract_websocket_key(&buffer, 19) {
        ExtractOutcome::Reject(kind) => assert_eq!(kind, ErrorKind::ResourceExceeded),
        _ => panic!("expected a rejection"),
    }
    // At the ceiling the parse itself answers.
    assert!(matches!(
        extract_websocket_key(&buffer, 20),
        ExtractOutcome::NeedMore
    ));
}

#[test]
fn extractor_maps_parse_errors_to_protocol_malformed() {
    match extract_websocket_key(b"GET / HTTP/1.1\r\nHost example\r\n\r\n", 8192) {
        ExtractOutcome::Reject(kind) => assert_eq!(kind, ErrorKind::ProtocolMalformed),
        _ => panic!("expected a rejection"),
    }
    match extract_websocket_key(b"GET / HTTP/1.1\r\nHost: x\r\n\r\n", 8192) {
        ExtractOutcome::Reject(kind) => assert_eq!(kind, ErrorKind::ProtocolMalformed),
        _ => panic!("expected a rejection"),
    }
}

#[test]
fn extractor_finds_key() {
    match extract_websocket_key(HEAD, 8192) {
        ExtractOutcome::Ready { consumed, key } => {
            assert_eq!(consumed, HEAD.len());
            assert_eq!(key, b"dGhlIHNhbXBsZSBub25jZQ==".to_vec());
        }
        _ => panic!("expected the key"),
    }
}

#[test]
fn header_name_byte_class() {
    assert!(header_key_char(b'a'));
    assert!(header_key_char(b'Z'));
    assert!(header_key_char(b'5'));
    assert!(header_key_char(b'-'));
    assert!(header_key_char(b'~'));
    assert!(!header_key_char(b':'));
    assert!(!header_key_char(b' '));
    assert!(!header_key_char(b'\r'));
    assert!(!header_key_char(b'('));
}

#[test]
fn header_value_byte_class() {
    assert!(header_value_char(b'a'));
    assert!(header_value_char(b' '));
    assert!(header_value_char(b'\t'));
    assert!(header_value_char(0xff));
    assert!(!header_value_char(b'\r'));
    assert!(!header_value_char(b'\n'));
}
