use wstcpproxy::pump::{pump_step, FrameIn, OutboundRead, ProxySession, PumpAction, PumpEvent};
use wstcpproxy::ErrorKind;

#[test]
fn binary_payload_is_forwarded_verbatim() {
    match pump_step(PumpEvent::Inbound(FrameIn::Binary(b"ping".to_vec()))) {
        PumpAction::Forward(bytes) => assert_eq!(bytes, b"ping".to_vec()),
        _ => panic!("expected the payload to be forwarded"),
    }
}

#[test]
fn outbound_bytes_become_one_binary_frame() {
    match pump_step(PumpEvent::Outbound(OutboundRead::Data(b"pong".to_vec()))) {
        PumpAction::Emit(bytes) => assert_eq!(bytes, b"pong".to_vec()),
        _ => panic!("expected the bytes to be framed"),
    }
}

#[test]
fn close_frame_ends_cleanly() {
    match pump_step(PumpEvent::Inbound(FrameIn::Close)) {
        PumpAction::Stop(kind) => {
            assert_eq!(kind, ErrorKind::TransportClosed);
            assert_ne!(kind, ErrorKind::IoFailure);
        }
        _ => panic!("expected the session to end"),
    }
}

#[test]
fn zero_length_read_ends_cleanly() {
    match pump_step(PumpEvent::Outbound(OutboundRead::Closed)) {
        PumpAction::Stop(kind) => {
            assert_eq!(kind, ErrorKind::TransportClosed);
            assert_ne!(kind, ErrorKind::IoFailure);
        }
        _ => panic!("expected the session to end"),
    }
}

#[test]
fn would_block_is_absorbed() {
    assert!(matches!(
        pump_step(PumpEvent::Outbound(OutboundRead::WouldBlock)),
        PumpAction::Idle
    ));
}

#[test]
fn non_binary_frames_are_ignored() {
    assert!(matches!(
        pump_step(PumpEvent::Inbound(FrameIn::Other)),
        PumpAction::Idle
    ));
}

#[test]
fn hard_errors_are_fatal() {
    for event in [
        PumpEvent::InboundFailed,
        PumpEvent::Outbound(OutboundRead::Failed),
        PumpEvent::WriteFailed,
    ] {
        match pump_step(event) {
            PumpAction::Stop(kind) => assert_eq!(kind, ErrorKind::IoFailure),
            _ => panic!("expected the session to end"),
        }
    }
}

#[test]
fn session_runs_until_first_terminal_event() {
    let mut session = ProxySession::begin();
    match session.step(PumpEvent::Inbound(FrameIn::Binary(b"ping".to_vec()))) {
        PumpAction::Forward(bytes) => assert_eq!(bytes, b"ping".to_vec()),
        _ => panic!("expected the payload to be forwarded"),
    }
    match session.step(PumpEvent::Outbound(OutboundRead::Data(b"pong".to_vec()))) {
        PumpAction::Emit(bytes) => assert_eq!(bytes, b"pong".to_vec()),
        _ => panic!("expected the bytes to be framed"),
    }
    match session.step(PumpEvent::Inbound(FrameIn::Close)) {
        PumpAction::Stop(kind) => assert_eq!(kind, ErrorKind::TransportClosed),
        _ => panic!("expected the session to end"),
    }
}
