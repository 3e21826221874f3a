use base64::Engine;
use cribcall_quic::client::{ClientPhase, ClientSession, FailureKind};
use cribcall_quic::event::{
    payload_fits, EngineAction, QuicEvent, Reaction, WorkerCommand, CLOSE_CODE_APP,
    CLOSE_CODE_FINGERPRINT_MISMATCH, CONTROL_STREAM_ID,
};

const FP: &str = "ba7816bf8f01cfea414140de5dae2223b00361a396177a9cb410ff61f20015ad";

fn own_id() -> Vec<u8> {
    vec![0xab, 0xcd, 0x01]
}

fn nothing() -> Reaction {
    Reaction { events: vec![], actions: vec![] }
}

fn announced() -> ClientSession {
    let mut session = ClientSession::new(7, own_id(), "");
    let reaction = session.on_established(FP);
    assert_eq!(reaction.events.len(), 1);
    session
}

#[test]
fn new_client_is_handshaking() {
    let session = ClientSession::new(7, own_id(), FP);
    assert_eq!(session.handle(), 7);
    assert_eq!(session.connection_id(), &own_id()[..]);
    assert_eq!(session.phase(), ClientPhase::Handshaking);
    assert!(!session.is_finished());
}

#[test]
fn trusted_peer_is_announced_once() {
    let mut session = ClientSession::new(7, own_id(), &FP.to_uppercase());
    let first = session.on_established(FP);
    assert_eq!(
        first,
        Reaction {
            events: vec![QuicEvent::Connected {
                handle: 7,
                connection_id: "abcd01".to_string(),
                peer_fingerprint: FP.to_string(),
            }],
            actions: vec![],
        }
    );
    assert_eq!(session.phase(), ClientPhase::Announced);
    assert_eq!(session.on_established(FP), nothing());
    assert_eq!(session.on_established("other"), nothing());
    assert_eq!(session.phase(), ClientPhase::Announced);
}

#[test]
fn unpinned_client_accepts_any_peer() {
    let mut session = ClientSession::new(1, own_id(), "");
    let reaction = session.on_established("");
    assert_eq!(
        reaction.events,
        vec![QuicEvent::Connected {
            handle: 1,
            connection_id: "abcd01".to_string(),
            peer_fingerprint: String::new(),
        }]
    );
}

#[test]
fn mismatching_peer_gets_error_then_closed_and_never_connected() {
    let mut session = ClientSession::new(7, own_id(), FP);
    let rejected = session.on_established("00ff");
    assert_eq!(
        rejected,
        Reaction {
            events: vec![QuicEvent::Error {
                handle: 7,
                connection_id: Some("abcd01".to_string()),
                message: "server fingerprint mismatch".to_string(),
            }],
            actions: vec![EngineAction::Close {
                conn_id: own_id(),
                app: false,
                code: 0x102,
                reason: "fingerprint mismatch".to_string(),
            }],
        }
    );
    assert_eq!(CLOSE_CODE_FINGERPRINT_MISMATCH, 0x102);
    assert_eq!(session.phase(), ClientPhase::Rejected);
    assert!(!session.is_finished());
    assert_eq!(session.on_established(FP), nothing());
    assert_eq!(session.on_stream_data(b"late"), nothing());
    let closed = session.on_closed(Some("peer said otherwise".to_string()));
    assert_eq!(
        closed,
        Reaction {
            events: vec![QuicEvent::Closed {
                handle: 7,
                connection_id: "abcd01".to_string(),
                reason: Some("fingerprint mismatch (close code 0x102)".to_string()),
            }],
            actions: vec![],
        }
    );
    assert!(session.is_finished());
    assert_eq!(session.on_established(FP), nothing());
}

#[test]
fn send_for_own_connection_reaches_the_engine_unmodified() {
    let mut session = announced();
    let payload: Vec<u8> = vec![0, 1, 2, 253, 254, 255];
    let reaction = session.on_command(WorkerCommand::Send {
        conn_id: own_id(),
        payload: payload.clone(),
    });
    assert_eq!(
        reaction,
        Reaction {
            events: vec![],
            actions: vec![EngineAction::StreamSend {
                conn_id: own_id(),
                stream_id: 0,
                payload,
                fin: false,
            }],
        }
    );
    assert_eq!(CONTROL_STREAM_ID, 0);
}

#[test]
fn send_for_unknown_connection_is_a_no_op() {
    let mut session = announced();
    let reaction =
        session.on_command(WorkerCommand::Send { conn_id: vec![9, 9], payload: vec![1] });
    assert_eq!(reaction, nothing());
    assert_eq!(session.phase(), ClientPhase::Announced);
}

#[test]
fn send_before_the_connection_is_announced_is_dropped() {
    let mut session = ClientSession::new(7, own_id(), "");
    let reaction =
        session.on_command(WorkerCommand::Send { conn_id: own_id(), payload: vec![1] });
    assert_eq!(reaction, nothing());
    assert_eq!(session.phase(), ClientPhase::Handshaking);
}

#[test]
fn close_without_id_or_with_own_id_asks_the_engine_to_close() {
    let expected = Reaction {
        events: vec![],
        actions: vec![EngineAction::Close {
            conn_id: own_id(),
            app: false,
            code: 0x100,
            reason: "app close".to_string(),
        }],
    };
    assert_eq!(CLOSE_CODE_APP, 0x100);
    let mut session = announced();
    assert_eq!(session.on_command(WorkerCommand::Close { conn_id: None }), expected);
    assert_eq!(session.on_command(WorkerCommand::Close { conn_id: Some(own_id()) }), expected);
    let mut early = ClientSession::new(7, own_id(), "");
    assert_eq!(early.on_command(WorkerCommand::Close { conn_id: None }), expected);
}

#[test]
fn close_for_another_connection_is_ignored() {
    let mut session = announced();
    let reaction = session.on_command(WorkerCommand::Close { conn_id: Some(vec![1]) });
    assert_eq!(reaction, nothing());
}

#[test]
fn stream_data_becomes_one_message_per_read() {
    let mut session = announced();
    let first = session.on_stream_data(b"Man");
    assert_eq!(
        first.events,
        vec![QuicEvent::Message {
            handle: 7,
            connection_id: "abcd01".to_string(),
            data_base64: "TWFu".to_string(),
        }]
    );
    let second = session.on_stream_data(b"Ma");
    assert_eq!(
        second.events,
        vec![QuicEvent::Message {
            handle: 7,
            connection_id: "abcd01".to_string(),
            data_base64: "TWE=".to_string(),
        }]
    );
    let third = session.on_stream_data(b"M");
    assert_eq!(
        third.events,
        vec![QuicEvent::Message {
            handle: 7,
            connection_id: "abcd01".to_string(),
            data_base64: "TQ==".to_string(),
        }]
    );
    let empty = session.on_stream_data(b"");
    assert_eq!(
        empty.events,
        vec![QuicEvent::Message {
            handle: 7,
            connection_id: "abcd01".to_string(),
            data_base64: String::new(),
        }]
    );
    let symbols = session.on_stream_data(&[0xfb, 0xff, 0xbf]);
    assert_eq!(
        symbols.events,
        vec![QuicEvent::Message {
            handle: 7,
            connection_id: "abcd01".to_string(),
            data_base64: "+/+/".to_string(),
        }]
    );
}

#[test]
fn message_payload_decodes_to_the_bytes_that_were_read() {
    let mut session = announced();
    let mut payload: Vec<u8> = Vec::new();
    for round in 0..3 {
        for b in 0..=255u8 {
            payload.push(b.wrapping_mul(7).wrapping_add(round));
        }
    }
    payload.push(42);
    assert!(payload_fits(payload.len()));
    let reaction = session.on_stream_data(&payload);
    assert_eq!(reaction.events.len(), 1);
    assert!(reaction.actions.is_empty());
    match &reaction.events[0] {
        QuicEvent::Message { handle, connection_id, data_base64 } => {
            assert_eq!(*handle, 7);
            assert_eq!(connection_id, "abcd01");
            let decoded = base64::engine::general_purpose::STANDARD.decode(data_base64).unwrap();
            assert_eq!(decoded, payload);
        }
        other => panic!("unexpected event {:?}", other),
    }
}

#[test]
fn payload_fits_up_to_the_machine_limit() {
    assert!(payload_fits(0));
    assert!(payload_fits(65_535));
    assert!(payload_fits(usize::MAX / 4 * 3));
    assert!(!payload_fits(usize::MAX / 4 * 3 + 1));
    assert!(!payload_fits(usize::MAX));
}

#[test]
fn stream_data_before_the_connection_is_announced_is_dropped() {
    let mut session = ClientSession::new(7, own_id(), "");
    assert_eq!(session.on_stream_data(b"early"), nothing());
}

#[test]
fn closed_is_emitted_once_and_ends_the_loop() {
    let mut session = announced();
    let closed = session.on_closed(Some("bye".to_string()));
    assert_eq!(
        closed,
        Reaction {
            events: vec![QuicEvent::Closed {
                handle: 7,
                connection_id: "abcd01".to_string(),
                reason: Some("bye".to_string()),
            }],
            actions: vec![],
        }
    );
    assert!(session.is_finished());
    assert_eq!(session.phase(), ClientPhase::Finished);
    assert_eq!(session.on_closed(None), nothing());
    assert_eq!(session.on_stream_data(b"x"), nothing());
    assert_eq!(session.on_established(FP), nothing());
    assert_eq!(session.on_failure(FailureKind::EngineSend, "late"), nothing());
    assert_eq!(session.on_command(WorkerCommand::Close { conn_id: None }), nothing());
    assert_eq!(
        session.on_command(WorkerCommand::Send { conn_id: own_id(), payload: vec![1] }),
        nothing()
    );
}

#[test]
fn closed_during_the_handshake_carries_the_peer_reason() {
    let mut session = ClientSession::new(7, own_id(), FP);
    let closed = session.on_closed(None);
    assert_eq!(
        closed.events,
        vec![QuicEvent::Closed { handle: 7, connection_id: "abcd01".to_string(), reason: None }]
    );
    assert!(session.is_finished());
}

#[test]
fn failures_are_reported_and_end_the_loop() {
    let mut a = ClientSession::new(7, own_id(), "");
    assert_eq!(
        a.on_failure(FailureKind::SocketAddress, "no address").events,
        vec![QuicEvent::Error {
            handle: 7,
            connection_id: None,
            message: "socket addr error: no address".to_string(),
        }]
    );
    assert!(a.is_finished());
    let mut b = ClientSession::new(7, own_id(), "");
    assert_eq!(
        b.on_failure(FailureKind::Connect, "refused").events,
        vec![QuicEvent::Error {
            handle: 7,
            connection_id: Some("abcd01".to_string()),
            message: "connect error: refused".to_string(),
        }]
    );
    assert!(b.is_finished());
    let mut c = announced();
    assert_eq!(
        c.on_failure(FailureKind::EngineSend, "TlsFail").events,
        vec![QuicEvent::Error {
            handle: 7,
            connection_id: Some("abcd01".to_string()),
            message: "quic send error: TlsFail".to_string(),
        }]
    );
    assert!(c.is_finished());
    let mut d = announced();
    assert_eq!(
        d.on_failure(FailureKind::SocketReceive, "reset").events,
        vec![QuicEvent::Error {
            handle: 7,
            connection_id: Some("abcd01".to_string()),
            message: "udp recv error: reset".to_string(),
        }]
    );
    assert!(d.is_finished());
    assert_eq!(d.on_closed(None), nothing());
}

#[test]
fn connected_precedes_messages_and_closed_in_a_whole_run() {
    let mut session = ClientSession::new(3, own_id(), FP);
    let mut trace: Vec<QuicEvent> = Vec::new();
    trace.extend(session.on_stream_data(b"too early").events);
    trace.extend(session.on_established(FP).events);
    trace.extend(session.on_stream_data(b"one").events);
    trace.extend(session.on_established(FP).events);
    trace.extend(session.on_stream_data(b"two").events);
    trace.extend(session.on_closed(None).events);
    trace.extend(session.on_stream_data(b"three").events);
    trace.extend(session.on_closed(None).events);
    assert_eq!(trace.len(), 4);
    assert!(matches!(trace[0], QuicEvent::Connected { .. }));
    assert!(matches!(trace[1], QuicEvent::Message { .. }));
    assert!(matches!(trace[2], QuicEvent::Message { .. }));
    assert!(matches!(trace[3], QuicEvent::Closed { .. }));
}

#[test]
fn with_pin_takes_the_pin_as_it_is() {
    let mut session = ClientSession::with_pin(7, own_id(), "AB".to_string());
    let reaction = session.on_established("ab");
    assert_eq!(reaction.events.len(), 1);
    assert!(matches!(reaction.events[0], QuicEvent::Error { .. }));
    assert_eq!(session.phase(), ClientPhase::Rejected);
}
