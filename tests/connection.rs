use reverse_tcp::bridge::{
    egress_action, ConnectionEvent, ConnectionState, EgressAction, InboundResponse, Ingress,
    C2_PROFILE_NAME,
};
use reverse_tcp::codec::{encode_frame, StreamEnd};

fn response(success: bool, error: &str, message: &[u8]) -> InboundResponse {
    InboundResponse { success, error: error.to_string(), message: message.to_vec() }
}

fn written(action: EgressAction) -> Option<Vec<u8>> {
    match action {
        EgressAction::Write(bytes) => Some(bytes),
        _ => None,
    }
}

#[test]
fn hello_world_exchange() {
    let mut state = ConnectionState::Opening.on_event(ConnectionEvent::StreamOpened);
    assert_eq!(state, ConnectionState::Streaming);
    assert!(state.reads_client());

    let mut ingress = Ingress::new("10.0.0.7".to_string());
    let msgs = ingress.receive(&[0x00, 0x00, 0x00, 0x05, b'h', b'e', b'l', b'l', b'o']);
    assert_eq!(msgs.len(), 1);
    assert_eq!(msgs[0].payload, b"hello".to_vec());
    assert_eq!(msgs[0].remote_ip, "10.0.0.7");
    assert_eq!(msgs[0].c2_profile_name, "reverse_tcp");
    assert_eq!(C2_PROFILE_NAME, "reverse_tcp");

    let out = written(egress_action(&response(true, "", b"world"))).unwrap();
    assert_eq!(out, vec![0x00, 0x00, 0x00, 0x05, b'w', b'o', b'r', b'l', b'd']);

    state = state.on_event(ConnectionEvent::DirectionFinished);
    assert_eq!(state, ConnectionState::Closed);
}

#[test]
fn truncated_payload_closes_connection() {
    let state = ConnectionState::Opening.on_event(ConnectionEvent::StreamOpened);
    let mut ingress = Ingress::new("peer".to_string());
    let msgs = ingress.receive(&[0, 0, 0, 10, 1, 2, 3]);
    assert!(msgs.is_empty());
    let end = ingress.end_of_stream();
    assert_eq!(end, StreamEnd::TruncatedPayload);
    assert!(end.is_truncated());
    let state = state.on_event(ConnectionEvent::DirectionFinished);
    assert_eq!(state, ConnectionState::Closed);
    assert!(!state.reads_client());
}

#[test]
fn open_failure_closes_without_reading() {
    assert!(!ConnectionState::Opening.reads_client());
    let state = ConnectionState::Opening.on_event(ConnectionEvent::StreamOpenFailed);
    assert_eq!(state, ConnectionState::Closed);
    assert!(!state.reads_client());
    assert_eq!(state.on_event(ConnectionEvent::StreamOpened), ConnectionState::Closed);
}

#[test]
fn back_to_back_frames_keep_order() {
    let mut stream = encode_frame(b"one").unwrap();
    stream.extend(encode_frame(b"two").unwrap());
    let mut ingress = Ingress::new("peer".to_string());
    let msgs = ingress.receive(&stream);
    assert_eq!(msgs.len(), 2);
    assert_eq!(msgs[0].payload, b"one".to_vec());
    assert_eq!(msgs[1].payload, b"two".to_vec());
    assert_eq!(ingress.end_of_stream(), StreamEnd::Clean);
}

#[test]
fn failed_response_is_skipped_then_success_forwarded() {
    assert!(matches!(egress_action(&response(false, "agent unknown", b"ignored")), EgressAction::Skip));
    let out = written(egress_action(&response(true, "", b"ok"))).unwrap();
    assert_eq!(out, vec![0, 0, 0, 2, b'o', b'k']);
}

#[test]
fn empty_success_response_writes_empty_frame() {
    let out = written(egress_action(&response(true, "", b""))).unwrap();
    assert_eq!(out, vec![0, 0, 0, 0]);
}

#[test]
fn ingress_handles_frames_split_over_reads() {
    let mut ingress = Ingress::new("peer".to_string());
    assert!(ingress.receive(&[0, 0]).is_empty());
    assert!(ingress.receive(&[0, 1]).is_empty());
    let msgs = ingress.receive(&[b'z', 0, 0]);
    assert_eq!(msgs.len(), 1);
    assert_eq!(msgs[0].payload, b"z".to_vec());
    assert_eq!(ingress.end_of_stream(), StreamEnd::TruncatedPrefix);
}
