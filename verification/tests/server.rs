use cribcall_quic::client::FailureKind;
use cribcall_quic::connid::{fresh_connection_id, MAX_CONN_ID_LEN};
use cribcall_quic::event::{
    EngineAction, QuicEvent, Reaction, WorkerCommand, CLOSE_CODE_SERVER,
    CLOSE_CODE_UNTRUSTED_CLIENT,
};
use cribcall_quic::conns::ConnPhase;
use cribcall_quic::server::{Route, ServerSession};
use cribcall_quic::trust::{parse_allowlist, TrustAllowlist};

const FP: &str = "ba7816bf8f01cfea414140de5dae2223b00361a396177a9cb410ff61f20015ad";

fn nothing() -> Reaction {
    Reaction { events: vec![], actions: vec![] }
}

fn id(n: u8) -> Vec<u8> {
    vec![n, 0x10, 0xff]
}

fn server_with(ids: &[u8]) -> ServerSession {
    let mut session = ServerSession::new(9, TrustAllowlist::new());
    for n in ids {
        assert!(session.register(id(*n)));
        let reaction = session.on_established(&id(*n), FP);
        assert_eq!(reaction.events.len(), 1);
    }
    session
}

fn close_of(n: u8) -> EngineAction {
    EngineAction::Close {
        conn_id: id(n),
        app: false,
        code: 0x101,
        reason: "server close".to_string(),
    }
}

#[test]
fn new_server_tracks_nothing() {
    let session = ServerSession::new(9, TrustAllowlist::new());
    assert_eq!(session.handle(), 9);
    assert_eq!(session.connection_count(), 0);
    assert!(!session.is_stopped());
    assert!(session.connection_ids().is_empty());
    assert_eq!(session.phase(&id(1)), None);
}

#[test]
fn registered_connection_starts_in_the_handshake() {
    let mut session = ServerSession::new(9, TrustAllowlist::new());
    assert!(session.register(id(1)));
    assert!(session.register(id(2)));
    assert!(!session.register(id(1)));
    assert_eq!(session.connection_count(), 2);
    assert_eq!(session.connection_ids(), vec![id(1), id(2)]);
    assert_eq!(session.phase(&id(1)), Some(ConnPhase::Handshaking));
    assert_eq!(session.phase(&id(3)), None);
}

#[test]
fn empty_allowlist_accepts_any_fingerprint() {
    let mut session = ServerSession::new(9, TrustAllowlist::new());
    session.register(id(1));
    let reaction = session.on_established(&id(1), "");
    assert_eq!(
        reaction,
        Reaction {
            events: vec![QuicEvent::Connected {
                handle: 9,
                connection_id: "0110ff".to_string(),
                peer_fingerprint: String::new(),
            }],
            actions: vec![],
        }
    );
    assert_eq!(session.phase(&id(1)), Some(ConnPhase::Announced));
    assert_eq!(session.on_established(&id(1), ""), nothing());
}

#[test]
fn listed_peer_is_announced() {
    let mut session = ServerSession::new(9, parse_allowlist(&FP.to_uppercase()));
    session.register(id(1));
    let reaction = session.on_established(&id(1), FP);
    assert_eq!(
        reaction.events,
        vec![QuicEvent::Connected {
            handle: 9,
            connection_id: "0110ff".to_string(),
            peer_fingerprint: FP.to_string(),
        }]
    );
}

#[test]
fn unlisted_peer_gets_error_then_closed_and_is_retired() {
    let mut session = ServerSession::new(9, parse_allowlist(FP));
    session.register(id(1));
    let reaction = session.on_established(&id(1), "00ff");
    assert_eq!(
        reaction,
        Reaction {
            events: vec![
                QuicEvent::Error {
                    handle: 9,
                    connection_id: Some("0110ff".to_string()),
                    message: "untrusted client".to_string(),
                },
                QuicEvent::Closed {
                    handle: 9,
                    connection_id: "0110ff".to_string(),
                    reason: Some("untrusted client (close code 0x103)".to_string()),
                },
            ],
            actions: vec![EngineAction::Close {
                conn_id: id(1),
                app: false,
                code: 0x103,
                reason: "untrusted client".to_string(),
            }],
        }
    );
    assert_eq!(CLOSE_CODE_UNTRUSTED_CLIENT, 0x103);
    assert_eq!(session.phase(&id(1)), Some(ConnPhase::Retired));
    assert_eq!(session.on_established(&id(1), FP), nothing());
    assert_eq!(session.on_stream_data(&id(1), b"x"), nothing());
    assert_eq!(session.on_closed(&id(1), None), nothing());
    assert_eq!(session.on_send_failed(&id(1), "late"), nothing());
    assert_eq!(session.sweep(), vec![id(1)]);
    assert_eq!(session.connection_count(), 0);
    assert_eq!(session.on_established(&id(1), FP), nothing());
}

#[test]
fn peer_without_certificate_is_rejected_by_a_non_empty_allowlist() {
    let mut session = ServerSession::new(9, parse_allowlist(FP));
    session.register(id(1));
    let reaction = session.on_established(&id(1), "");
    assert_eq!(reaction.events.len(), 2);
    assert!(matches!(reaction.events[0], QuicEvent::Error { .. }));
    assert!(matches!(reaction.events[1], QuicEvent::Closed { .. }));
}

#[test]
fn send_for_unknown_connection_is_a_no_op_on_the_server() {
    let mut session = server_with(&[1, 2]);
    let reaction =
        session.on_command(WorkerCommand::Send { conn_id: id(7), payload: vec![1, 2, 3] });
    assert_eq!(reaction, nothing());
    assert_eq!(session.connection_ids(), vec![id(1), id(2)]);
    assert_eq!(session.phase(&id(1)), Some(ConnPhase::Announced));
    assert_eq!(session.phase(&id(2)), Some(ConnPhase::Announced));
}

#[test]
fn send_reaches_the_named_connection_unmodified() {
    let mut session = server_with(&[1, 2]);
    let reaction =
        session.on_command(WorkerCommand::Send { conn_id: id(2), payload: vec![0, 255, 7] });
    assert_eq!(
        reaction,
        Reaction {
            events: vec![],
            actions: vec![EngineAction::StreamSend {
                conn_id: id(2),
                stream_id: 0,
                payload: vec![0, 255, 7],
                fin: false,
            }],
        }
    );
}

#[test]
fn send_to_a_connection_in_the_handshake_is_dropped() {
    let mut session = ServerSession::new(9, TrustAllowlist::new());
    session.register(id(1));
    let reaction = session.on_command(WorkerCommand::Send { conn_id: id(1), payload: vec![1] });
    assert_eq!(reaction, nothing());
}

#[test]
fn close_all_on_three_connections_gives_three_closed_and_an_empty_map() {
    let mut session = server_with(&[1, 2, 3]);
    let reaction = session.on_command(WorkerCommand::Close { conn_id: None });
    assert!(reaction.events.is_empty());
    assert_eq!(reaction.actions, vec![close_of(1), close_of(2), close_of(3)]);
    assert_eq!(CLOSE_CODE_SERVER, 0x101);
    let mut closed: Vec<QuicEvent> = Vec::new();
    for conn in session.connection_ids() {
        closed.extend(session.on_closed(&conn, None).events);
    }
    assert_eq!(closed.len(), 3);
    for (n, event) in closed.iter().enumerate() {
        assert_eq!(
            *event,
            QuicEvent::Closed {
                handle: 9,
                connection_id: format!("0{}10ff", n + 1),
                reason: None,
            }
        );
    }
    let removed = session.sweep();
    assert_eq!(removed, vec![id(1), id(2), id(3)]);
    assert_eq!(session.connection_count(), 0);
    assert!(session.connection_ids().is_empty());
    for conn in [id(1), id(2), id(3)] {
        assert_eq!(session.on_closed(&conn, None), nothing());
    }
}

#[test]
fn close_of_one_connection_names_only_that_one() {
    let mut session = server_with(&[1, 2, 3]);
    let reaction = session.on_command(WorkerCommand::Close { conn_id: Some(id(2)) });
    assert_eq!(reaction, Reaction { events: vec![], actions: vec![close_of(2)] });
    let unknown = session.on_command(WorkerCommand::Close { conn_id: Some(id(8)) });
    assert_eq!(unknown, nothing());
}

#[test]
fn close_all_passes_over_retired_connections() {
    let mut session = server_with(&[1, 2, 3]);
    assert_eq!(session.on_closed(&id(2), None).events.len(), 1);
    let reaction = session.on_command(WorkerCommand::Close { conn_id: None });
    assert_eq!(reaction.actions, vec![close_of(1), close_of(3)]);
    let one = session.on_command(WorkerCommand::Close { conn_id: Some(id(2)) });
    assert_eq!(one, nothing());
}

#[test]
fn stream_data_is_reported_for_announced_connections_only() {
    let mut session = server_with(&[1]);
    session.register(id(2));
    assert_eq!(
        session.on_stream_data(&id(1), b"Man"),
        Reaction {
            events: vec![QuicEvent::Message {
                handle: 9,
                connection_id: "0110ff".to_string(),
                data_base64: "TWFu".to_string(),
            }],
            actions: vec![],
        }
    );
    assert_eq!(session.on_stream_data(&id(2), b"Man"), nothing());
    assert_eq!(session.on_stream_data(&id(3), b"Man"), nothing());
}

#[test]
fn closed_carries_the_peer_reason_and_retires() {
    let mut session = server_with(&[1]);
    let reaction = session.on_closed(&id(1), Some("peer left".to_string()));
    assert_eq!(
        reaction.events,
        vec![QuicEvent::Closed {
            handle: 9,
            connection_id: "0110ff".to_string(),
            reason: Some("peer left".to_string()),
        }]
    );
    assert_eq!(session.phase(&id(1)), Some(ConnPhase::Retired));
    assert_eq!(session.on_closed(&id(1), None), nothing());
    assert_eq!(session.on_stream_data(&id(1), b"x"), nothing());
}

#[test]
fn failed_send_is_reported_and_retires_the_connection() {
    let mut session = server_with(&[1, 2]);
    let reaction = session.on_send_failed(&id(1), "TlsFail");
    assert_eq!(
        reaction,
        Reaction {
            events: vec![QuicEvent::Error {
                handle: 9,
                connection_id: Some("0110ff".to_string()),
                message: "server send error: TlsFail".to_string(),
            }],
            actions: vec![],
        }
    );
    assert_eq!(session.on_send_failed(&id(1), "again"), nothing());
    assert_eq!(session.on_closed(&id(1), None), nothing());
    assert_eq!(session.sweep(), vec![id(1)]);
    assert_eq!(session.connection_ids(), vec![id(2)]);
    assert_eq!(session.phase(&id(2)), Some(ConnPhase::Announced));
}

#[test]
fn sweep_keeps_live_connections_in_order() {
    let mut session = server_with(&[1, 2, 3, 4]);
    session.on_closed(&id(1), None);
    session.on_closed(&id(3), None);
    assert_eq!(session.connection_count(), 4);
    assert_eq!(session.sweep(), vec![id(1), id(3)]);
    assert_eq!(session.connection_ids(), vec![id(2), id(4)]);
    assert_eq!(session.sweep(), Vec::<Vec<u8>>::new());
    assert_eq!(session.connection_ids(), vec![id(2), id(4)]);
}

#[test]
fn socket_failure_stops_the_server() {
    let mut session = server_with(&[1]);
    let reaction = session.on_failure(FailureKind::SocketReceive, "reset");
    assert_eq!(
        reaction.events,
        vec![QuicEvent::Error {
            handle: 9,
            connection_id: None,
            message: "udp recv error: reset".to_string(),
        }]
    );
    assert!(session.is_stopped());
    assert_eq!(session.on_failure(FailureKind::SocketAddress, "x"), nothing());
    assert_eq!(session.on_closed(&id(1), None), nothing());
    assert_eq!(session.on_stream_data(&id(1), b"x"), nothing());
    assert_eq!(session.on_command(WorkerCommand::Close { conn_id: None }), nothing());
    assert!(!session.register(id(5)));
    assert_eq!(session.sweep(), Vec::<Vec<u8>>::new());
    assert_eq!(session.route_with(&id(1), None), Route::Drop);
    assert_eq!(session.route(&id(1)), Route::Drop);
}

#[test]
fn socket_address_failure_is_reported_without_a_connection() {
    let mut session = ServerSession::new(4, TrustAllowlist::new());
    let reaction = session.on_failure(FailureKind::SocketAddress, "unbound");
    assert_eq!(
        reaction.events,
        vec![QuicEvent::Error {
            handle: 4,
            connection_id: None,
            message: "socket addr error: unbound".to_string(),
        }]
    );
}

#[test]
fn datagram_for_a_tracked_connection_is_fed_to_it() {
    let session = server_with(&[1]);
    assert_eq!(session.route_with(&id(1), Some(id(5))), Route::Feed { conn_id: id(1) });
    assert_eq!(session.route(&id(1)), Route::Feed { conn_id: id(1) });
}

#[test]
fn datagram_for_an_unknown_id_opens_a_connection_under_a_fresh_id() {
    let session = server_with(&[1]);
    assert_eq!(session.route_with(&id(2), Some(id(5))), Route::Accept { local_id: id(5) });
    assert_eq!(session.route_with(&id(2), Some(id(1))), Route::Drop);
    assert_eq!(session.route_with(&id(2), Some(id(2))), Route::Drop);
    assert_eq!(session.route_with(&id(2), None), Route::Drop);
    match session.route(&id(2)) {
        Route::Accept { local_id } => {
            assert_eq!(local_id.len(), 20);
            assert_ne!(local_id, id(2));
        }
        other => panic!("unexpected route {:?}", other),
    }
}

#[test]
fn connection_is_never_opened_under_the_id_that_the_peer_chose() {
    let session = server_with(&[1]);
    let chosen: Vec<u8> = vec![7; 20];
    assert_eq!(session.route_with(&chosen, Some(chosen.clone())), Route::Drop);
    assert_eq!(
        session.route_with(&chosen, Some(vec![8; 20])),
        Route::Accept { local_id: vec![8; 20] }
    );
    match session.route(&chosen) {
        Route::Accept { local_id } => assert_ne!(local_id, chosen),
        other => panic!("unexpected route {:?}", other),
    }
}

#[test]
fn datagram_for_a_retired_connection_is_dropped() {
    let mut session = server_with(&[1]);
    session.on_closed(&id(1), None);
    assert_eq!(session.route_with(&id(1), Some(id(5))), Route::Drop);
}

#[test]
fn fresh_connection_ids_have_full_length() {
    let a = fresh_connection_id().unwrap();
    let b = fresh_connection_id().unwrap();
    assert_eq!(MAX_CONN_ID_LEN, 20);
    assert_eq!(a.len(), 20);
    assert_eq!(b.len(), 20);
    assert_ne!(a, b);
}

#[test]
fn events_of_each_connection_come_in_order_in_a_whole_run() {
    let mut session = ServerSession::new(9, parse_allowlist(FP));
    let mut trace: Vec<QuicEvent> = Vec::new();
    session.register(id(1));
    session.register(id(2));
    trace.extend(session.on_stream_data(&id(1), b"early").events);
    trace.extend(session.on_established(&id(1), FP).events);
    trace.extend(session.on_established(&id(2), "00").events);
    trace.extend(session.on_stream_data(&id(1), b"a").events);
    trace.extend(session.on_stream_data(&id(2), b"b").events);
    trace.extend(session.on_established(&id(1), FP).events);
    trace.extend(session.on_closed(&id(2), None).events);
    session.sweep();
    trace.extend(session.on_closed(&id(1), None).events);
    trace.extend(session.on_stream_data(&id(1), b"late").events);
    session.sweep();
    trace.extend(session.on_closed(&id(1), None).events);
    let first = "0110ff".to_string();
    let second = "0210ff".to_string();
    assert_eq!(
        trace,
        vec![
            QuicEvent::Connected {
                handle: 9,
                connection_id: first.clone(),
                peer_fingerprint: FP.to_string(),
            },
            QuicEvent::Error {
                handle: 9,
                connection_id: Some(second.clone()),
                message: "untrusted client".to_string(),
            },
            QuicEvent::Closed {
                handle: 9,
                connection_id: second,
                reason: Some("untrusted client (close code 0x103)".to_string()),
            },
            QuicEvent::Message {
                handle: 9,
                connection_id: first.clone(),
                data_base64: "YQ==".to_string(),
            },
            QuicEvent::Closed { handle: 9, connection_id: first, reason: None },
        ]
    );
}
