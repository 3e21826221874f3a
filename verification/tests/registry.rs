use cribcall_quic::client::ClientPhase;
use cribcall_quic::entry::{conn_close, conn_send, parse_send, start_client, start_server};
use cribcall_quic::event::WorkerCommand;
use cribcall_quic::registry::SessionRegistry;
use cribcall_quic::status::CcQuicStatus;

fn send(n: u8) -> WorkerCommand {
    WorkerCommand::Send { conn_id: vec![n], payload: vec![n, n] }
}

#[test]
fn handles_count_up_from_one() {
    let mut registry = SessionRegistry::new();
    assert!(!registry.contains(1));
    assert_eq!(registry.allocate(), Some(1));
    assert_eq!(registry.allocate(), Some(2));
    assert_eq!(registry.allocate(), Some(3));
    assert!(registry.contains(1));
    assert!(registry.contains(3));
    assert!(!registry.contains(0));
    assert!(!registry.contains(4));
}

#[test]
fn removed_handles_are_not_given_out_again() {
    let mut registry = SessionRegistry::new();
    assert_eq!(registry.allocate(), Some(1));
    assert!(registry.remove(1));
    assert_eq!(registry.allocate(), Some(2));
    assert!(!registry.contains(1));
}

#[test]
fn removing_twice_reports_not_found() {
    let mut registry = SessionRegistry::new();
    let handle = registry.allocate().unwrap();
    assert!(registry.remove(handle));
    assert!(!registry.remove(handle));
    assert!(!registry.remove(handle));
    assert!(!registry.remove(77));
}

#[test]
fn dispatch_to_a_removed_handle_reports_not_found() {
    let mut registry = SessionRegistry::new();
    let handle = registry.allocate().unwrap();
    assert!(registry.dispatch(handle, send(1)));
    assert!(registry.remove(handle));
    assert!(!registry.dispatch(handle, send(2)));
    assert!(registry.drain(handle).is_empty());
    assert!(!registry.contains(handle));
    assert!(!registry.dispatch(99, send(3)));
}

#[test]
fn commands_are_drained_once_in_arrival_order() {
    let mut registry = SessionRegistry::new();
    let a = registry.allocate().unwrap();
    let b = registry.allocate().unwrap();
    assert!(registry.drain(a).is_empty());
    assert!(registry.dispatch(a, send(1)));
    assert!(registry.dispatch(b, send(9)));
    assert!(registry.dispatch(a, WorkerCommand::Close { conn_id: None }));
    assert!(registry.dispatch(a, send(2)));
    assert_eq!(
        registry.drain(a),
        vec![send(1), WorkerCommand::Close { conn_id: None }, send(2)]
    );
    assert!(registry.drain(a).is_empty());
    assert!(registry.contains(a));
    assert_eq!(registry.drain(b), vec![send(9)]);
    assert!(registry.dispatch(a, send(3)));
    assert_eq!(registry.drain(a), vec![send(3)]);
}

#[test]
fn send_request_is_read_from_hexadecimal_text() {
    assert_eq!(
        parse_send(b" ABcd01\n", &[1, 2, 3]),
        Ok(WorkerCommand::Send { conn_id: vec![0xab, 0xcd, 0x01], payload: vec![1, 2, 3] })
    );
}

#[test]
fn send_request_without_payload_or_id_is_a_null_pointer() {
    assert_eq!(parse_send(b"abcd", &[]), Err(CcQuicStatus::NullPointer));
    assert_eq!(parse_send(b"", &[1]), Err(CcQuicStatus::NullPointer));
    assert_eq!(parse_send(b"", &[]), Err(CcQuicStatus::NullPointer));
}

#[test]
fn send_request_with_a_bad_id_is_an_internal_failure() {
    assert_eq!(parse_send(&[0xff, 0xfe], &[1]), Err(CcQuicStatus::Internal));
    assert_eq!(parse_send(b"abc", &[1]), Err(CcQuicStatus::Internal));
    assert_eq!(parse_send(b"zz", &[1]), Err(CcQuicStatus::Internal));
    assert_eq!(parse_send(b"ab cd", &[1]), Err(CcQuicStatus::Internal));
}

#[test]
fn send_request_with_a_blank_id_names_the_empty_id() {
    assert_eq!(
        parse_send(b"  ", &[1]),
        Ok(WorkerCommand::Send { conn_id: vec![], payload: vec![1] })
    );
}

#[test]
fn conn_send_queues_the_command_for_the_session() {
    let mut registry = SessionRegistry::new();
    let handle = registry.allocate().unwrap();
    assert_eq!(conn_send(&mut registry, handle, b"0a0b", &[5, 6]), CcQuicStatus::Success);
    assert_eq!(
        registry.drain(handle),
        vec![WorkerCommand::Send { conn_id: vec![10, 11], payload: vec![5, 6] }]
    );
}

#[test]
fn conn_send_fails_for_unknown_handles_and_bad_requests() {
    let mut registry = SessionRegistry::new();
    let handle = registry.allocate().unwrap();
    assert_eq!(conn_send(&mut registry, 42, b"0a0b", &[5]), CcQuicStatus::Internal);
    assert_eq!(conn_send(&mut registry, handle, b"0a0b", &[]), CcQuicStatus::NullPointer);
    assert_eq!(conn_send(&mut registry, handle, b"", &[5]), CcQuicStatus::NullPointer);
    assert_eq!(conn_send(&mut registry, handle, b"0g", &[5]), CcQuicStatus::Internal);
    assert_eq!(conn_send(&mut registry, handle, &[0xc3], &[5]), CcQuicStatus::Internal);
    assert!(registry.drain(handle).is_empty());
    assert!(registry.remove(handle));
    assert_eq!(conn_send(&mut registry, handle, b"0a0b", &[5]), CcQuicStatus::Internal);
}

#[test]
fn conn_close_queues_a_close_of_all_connections() {
    let mut registry = SessionRegistry::new();
    let handle = registry.allocate().unwrap();
    assert_eq!(conn_close(&mut registry, handle), CcQuicStatus::Success);
    assert_eq!(registry.drain(handle), vec![WorkerCommand::Close { conn_id: None }]);
}

#[test]
fn conn_close_reports_an_unregistered_handle() {
    let mut registry = SessionRegistry::new();
    let kept = registry.allocate().unwrap();
    let gone = registry.allocate().unwrap();
    assert!(registry.remove(gone));
    assert_eq!(conn_close(&mut registry, gone), CcQuicStatus::Internal);
    assert_eq!(conn_close(&mut registry, 1234), CcQuicStatus::Internal);
    assert_ne!(CcQuicStatus::Internal.code(), 0);
    assert!(!registry.contains(gone));
    assert!(!registry.contains(1234));
    assert!(registry.contains(kept));
    assert!(registry.drain(kept).is_empty());
    assert!(registry.drain(gone).is_empty());
}

#[test]
fn started_sessions_get_fresh_handles() {
    let mut registry = SessionRegistry::new();
    let client = start_client(&mut registry, vec![1, 2], "ABCD").ok().unwrap();
    assert_eq!(client.handle(), 1);
    assert_eq!(client.connection_id(), &[1u8, 2][..]);
    assert_eq!(client.phase(), ClientPhase::Handshaking);
    let server = start_server(&mut registry, "ab, CD").ok().unwrap();
    assert_eq!(server.handle(), 2);
    assert_eq!(server.connection_count(), 0);
    assert!(registry.contains(1));
    assert!(registry.contains(2));
    assert!(registry.remove(1));
    assert!(!registry.remove(1));
}

#[test]
fn started_client_pins_the_lowercase_fingerprint() {
    let mut registry = SessionRegistry::new();
    let mut client = start_client(&mut registry, vec![1, 2], "ABCD").ok().unwrap();
    let reaction = client.on_established("abcd");
    assert_eq!(reaction.events.len(), 1);
    assert_eq!(client.phase(), ClientPhase::Announced);
}

#[test]
fn started_server_trusts_the_listed_fingerprints() {
    let mut registry = SessionRegistry::new();
    let mut server = start_server(&mut registry, "ab, CD").ok().unwrap();
    assert!(server.register(vec![1]));
    assert!(server.register(vec![2]));
    assert_eq!(server.on_established(&[1], "cd").events.len(), 1);
    assert_eq!(server.on_established(&[2], "ef").events.len(), 2);
}
