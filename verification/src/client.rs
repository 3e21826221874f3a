//! The connecting side of a session: one connection, from handshake to
//! close.
//!
//! The caller runs the loop. It feeds the session the pending commands,
//! then what the engine and the socket reported, in the order of one turn
//! of the loop: a failure to send or receive, the establishment of the
//! connection, the data read from its streams, its closure. Each call
//! answers with the events to hand to the sink and the calls to make on the
//! engine.

use crate::bytes::{copy_bytes, same_bytes};
use crate::event::{
    base64_encode, base64_fits, base64_text, ActionView, CommandView, EngineAction, EventView,
    QuicEvent, Reaction, ReactionView, WorkerCommand, CLOSE_CODE_APP,
    CLOSE_CODE_FINGERPRINT_MISMATCH, CONTROL_STREAM_ID,
};
use crate::hexcode::{hex_string, hex_text};
use crate::text::{lowercase_of, to_lowercase};
use crate::trust::{client_trusts, pinned_fingerprint_matches};
use vstd::prelude::*;
use vstd::string::*;

verus! {

/// Where the one connection of a connecting side stands.
#[derive(Copy, Clone, Debug, PartialEq, Eq, Structural)]
pub enum ClientPhase {
    /// Not established yet.
    Handshaking,
    /// Established, the peer trusted and `Connected` emitted.
    Announced,
    /// Established, the peer not trusted; the close is under way.
    Rejected,
    /// The loop is over: nothing more is emitted.
    Finished,
}

/// What can go wrong around the engine, fatally for the loop.
#[derive(Copy, Clone, Debug, PartialEq, Eq, Structural)]
pub enum FailureKind {
    /// The socket did not tell its local address.
    SocketAddress,
    /// The engine refused to open the connection.
    Connect,
    /// The engine failed to produce a datagram.
    EngineSend,
    /// The socket failed to receive.
    SocketReceive,
}

/// The words that an `Error` event of the given kind starts with.
pub open spec fn failure_prefix(kind: FailureKind) -> Seq<char> {
    match kind {
        FailureKind::SocketAddress => "socket addr error: "@,
        FailureKind::Connect => "connect error: "@,
        FailureKind::EngineSend => "quic send error: "@,
        FailureKind::SocketReceive => "udp recv error: "@,
    }
}

/// The message of the `Error` event of a failure.
pub(crate) fn failure_message(kind: FailureKind, detail: &str) -> (message: String)
    ensures
        message@ == failure_prefix(kind) + detail@,
{
    let prefix = match kind {
        FailureKind::SocketAddress => "socket addr error: ",
        FailureKind::Connect => "connect error: ",
        FailureKind::EngineSend => "quic send error: ",
        FailureKind::SocketReceive => "udp recv error: ",
    };
    String::from_str(prefix).concat(detail)
}

/// The words of the `Error` event of a rejected peer.
pub open spec fn mismatch_message() -> Seq<char> {
    "server fingerprint mismatch"@
}

/// The reason given to the engine for the close of a rejected peer.
pub open spec fn mismatch_reason() -> Seq<char> {
    "fingerprint mismatch"@
}

/// The reason that the `Closed` event of a rejected peer carries: the
/// rejection with its close code.
pub open spec fn mismatch_closed_reason() -> Seq<char> {
    "fingerprint mismatch (close code 0x102)"@
}

/// The reason given for a close that the application asked for.
pub open spec fn app_close_reason() -> Seq<char> {
    "app close"@
}

/// A connecting side as a value.
pub struct ClientView {
    pub handle: u64,
    pub conn_id: Seq<u8>,
    /// The pinned fingerprint in lowercase; empty where none is pinned.
    pub pin: Seq<char>,
    pub phase: ClientPhase,
}

/// One thing that happened to a connecting side.
pub enum ClientInput {
    /// A command arrived.
    Command(CommandView),
    /// The socket or the engine failed; `detail` is what it said.
    Failure { kind: FailureKind, detail: Seq<char> },
    /// The engine reports the connection established, with a peer of the
    /// given fingerprint.
    Established { peer_fingerprint: Seq<char> },
    /// One read of a stream gave these bytes.
    StreamData { chunk: Seq<u8> },
    /// The engine reports the connection closed.
    Closed { peer_error: Option<Seq<char>> },
}

impl ClientView {
    /// The connection id as the events carry it.
    pub open spec fn id_text(self) -> Seq<char> {
        hex_text(self.conn_id)
    }

    /// The same side in another phase.
    pub open spec fn in_phase(self, phase: ClientPhase) -> ClientView {
        ClientView { phase, ..self }
    }

    /// The `Error` event of a failure.
    pub open spec fn failure_event(self, kind: FailureKind, detail: Seq<char>) -> EventView {
        EventView::Error {
            handle: self.handle,
            connection_id: if kind == FailureKind::SocketAddress {
                None
            } else {
                Some(self.id_text())
            },
            message: failure_prefix(kind) + detail,
        }
    }

    /// The close asked of the engine, with the given code and reason.
    pub open spec fn close_action(self, code: u64, reason: Seq<char>) -> ActionView {
        ActionView::Close { conn_id: self.conn_id, app: false, code, reason }
    }
}

/// What a connecting side becomes and answers when something happens.
pub open spec fn client_step(s: ClientView, input: ClientInput) -> (ClientView, ReactionView) {
    match input {
        ClientInput::Command(CommandView::Send { conn_id, payload }) => {
            if s.phase == ClientPhase::Announced && conn_id == s.conn_id {
                (
                    s,
                    ReactionView {
                        events: seq![],
                        actions: seq![
                            ActionView::StreamSend {
                                conn_id: s.conn_id,
                                stream_id: CONTROL_STREAM_ID,
                                payload,
                                fin: false,
                            },
                        ],
                    },
                )
            } else {
                (s, ReactionView::nothing())
            }
        },
        ClientInput::Command(CommandView::Close { conn_id }) => {
            if s.phase != ClientPhase::Finished && (conn_id is None || conn_id == Some(s.conn_id)) {
                (
                    s,
                    ReactionView {
                        events: seq![],
                        actions: seq![s.close_action(CLOSE_CODE_APP, app_close_reason())],
                    },
                )
            } else {
                (s, ReactionView::nothing())
            }
        },
        ClientInput::Failure { kind, detail } => {
            if s.phase != ClientPhase::Finished {
                (
                    s.in_phase(ClientPhase::Finished),
                    ReactionView { events: seq![s.failure_event(kind, detail)], actions: seq![] },
                )
            } else {
                (s, ReactionView::nothing())
            }
        },
        ClientInput::Established { peer_fingerprint } => {
            if s.phase != ClientPhase::Handshaking {
                (s, ReactionView::nothing())
            } else if client_trusts(s.pin, peer_fingerprint) {
                (
                    s.in_phase(ClientPhase::Announced),
                    ReactionView {
                        events: seq![
                            EventView::Connected {
                                handle: s.handle,
                                connection_id: s.id_text(),
                                peer_fingerprint,
                            },
                        ],
                        actions: seq![],
                    },
                )
            } else {
                (
                    s.in_phase(ClientPhase::Rejected),
                    ReactionView {
                        events: seq![
                            EventView::Error {
                                handle: s.handle,
                                connection_id: Some(s.id_text()),
                                message: mismatch_message(),
                            },
                        ],
                        actions: seq![
                            s.close_action(CLOSE_CODE_FINGERPRINT_MISMATCH, mismatch_reason()),
                        ],
                    },
                )
            }
        },
        ClientInput::StreamData { chunk } => {
            if s.phase == ClientPhase::Announced {
                (
                    s,
                    ReactionView {
                        events: seq![
                            EventView::Message {
                                handle: s.handle,
                                connection_id: s.id_text(),
                                data_base64: base64_text(chunk),
                            },
                        ],
                        actions: seq![],
                    },
                )
            } else {
                (s, ReactionView::nothing())
            }
        },
        ClientInput::Closed { peer_error } => {
            if s.phase != ClientPhase::Finished {
                (
                    s.in_phase(ClientPhase::Finished),
                    ReactionView {
                        events: seq![
                            EventView::Closed {
                                handle: s.handle,
                                connection_id: s.id_text(),
                                reason: if s.phase == ClientPhase::Rejected {
                                    Some(mismatch_closed_reason())
                                } else {
                                    peer_error
                                },
                            },
                        ],
                        actions: seq![],
                    },
                )
            } else {
                (s, ReactionView::nothing())
            }
        },
    }
}

/// The connecting side of a session.
pub struct ClientSession {
    handle: u64,
    conn_id: Vec<u8>,
    pin: String,
    phase: ClientPhase,
}

impl View for ClientSession {
    type V = ClientView;

    closed spec fn view(&self) -> ClientView {
        ClientView {
            handle: self.handle,
            conn_id: self.conn_id@,
            pin: self.pin@,
            phase: self.phase,
        }
    }
}

impl ClientSession {
    /// A connecting side that has not shaken hands yet. The expected
    /// fingerprint is kept in lowercase; an empty one pins nothing.
    pub fn new(handle: u64, conn_id: Vec<u8>, expected_fingerprint: &str) -> (session:
        ClientSession)
        ensures
            session@ == (ClientView {
                handle,
                conn_id: conn_id@,
                pin: lowercase_of(expected_fingerprint@),
                phase: ClientPhase::Handshaking,
            }),
    {
        ClientSession::with_pin(handle, conn_id, to_lowercase(expected_fingerprint))
    }

    /// A connecting side that has not shaken hands yet, with a pin that is
    /// in lowercase already.
    pub fn with_pin(handle: u64, conn_id: Vec<u8>, pin: String) -> (session: ClientSession)
        ensures
            session@ == (ClientView {
                handle,
                conn_id: conn_id@,
                pin: pin@,
                phase: ClientPhase::Handshaking,
            }),
    {
        ClientSession { handle, conn_id, pin, phase: ClientPhase::Handshaking }
    }

    /// The handle of the session.
    pub fn handle(&self) -> (handle: u64)
        ensures
            handle == self@.handle,
    {
        self.handle
    }

    /// The id of the connection.
    pub fn connection_id(&self) -> (id: &[u8])
        ensures
            id@ == self@.conn_id,
    {
        self.conn_id.as_slice()
    }

    /// Where the connection stands.
    pub fn phase(&self) -> (phase: ClientPhase)
        ensures
            phase == self@.phase,
    {
        self.phase
    }

    /// Whether the loop is over.
    pub fn is_finished(&self) -> (finished: bool)
        ensures
            finished == (self@.phase == ClientPhase::Finished),
    {
        match self.phase {
            ClientPhase::Finished => true,
            _ => false,
        }
    }

    fn id_string(&self) -> (text: String)
        ensures
            text@ == self@.id_text(),
    {
        hex_string(self.conn_id.as_slice())
    }

    fn close_with(&self, code: u64, reason: &str) -> (action: EngineAction)
        ensures
            action@ == self@.close_action(code, reason@),
    {
        EngineAction::Close {
            conn_id: copy_bytes(self.conn_id.as_slice()),
            app: false,
            code,
            reason: String::from_str(reason),
        }
    }

    /// Applies a command. `Send` is passed on to the engine while the
    /// connection is announced and the id is its own; `Close` is passed on
    /// until the loop is over, for its own id or for none.
    pub fn on_command(&mut self, command: WorkerCommand) -> (reaction: Reaction)
        ensures
            final(self)@ == client_step(old(self)@, ClientInput::Command(command@)).0,
            reaction@ == client_step(old(self)@, ClientInput::Command(command@)).1,
    {
        let mut reaction = Reaction::nothing();
        match command {
            WorkerCommand::Send { conn_id, payload } => {
                let announced = match self.phase {
                    ClientPhase::Announced => true,
                    _ => false,
                };
                if announced && same_bytes(conn_id.as_slice(), self.conn_id.as_slice()) {
                    reaction.ask(
                        EngineAction::StreamSend {
                            conn_id,
                            stream_id: CONTROL_STREAM_ID,
                            payload,
                            fin: false,
                        },
                    );
                }
            },
            WorkerCommand::Close { conn_id } => {
                let own = match &conn_id {
                    Some(id) => same_bytes(id.as_slice(), self.conn_id.as_slice()),
                    None => true,
                };
                if !self.is_finished() && own {
                    reaction.ask(self.close_with(CLOSE_CODE_APP, "app close"));
                }
            },
        }
        assert(reaction@.events =~= client_step(
            old(self)@,
            ClientInput::Command(command@),
        ).1.events);
        assert(reaction@.actions =~= client_step(
            old(self)@,
            ClientInput::Command(command@),
        ).1.actions);
        reaction
    }

    /// Takes note of a failure of the socket or the engine: it is reported
    /// and ends the loop.
    pub fn on_failure(&mut self, kind: FailureKind, detail: &str) -> (reaction: Reaction)
        ensures
            final(self)@ == client_step(
                old(self)@,
                ClientInput::Failure { kind, detail: detail@ },
            ).0,
            reaction@ == client_step(old(self)@, ClientInput::Failure { kind, detail: detail@ }).1,
    {
        let ghost input = ClientInput::Failure { kind, detail: detail@ };
        let mut reaction = Reaction::nothing();
        if !self.is_finished() {
            let connection_id = match kind {
                FailureKind::SocketAddress => None,
                _ => Some(self.id_string()),
            };
            let message = failure_message(kind, detail);
            reaction.report(QuicEvent::Error { handle: self.handle, connection_id, message });
            self.phase = ClientPhase::Finished;
        }
        assert(reaction@.events =~= client_step(old(self)@, input).1.events);
        assert(reaction@.actions =~= client_step(old(self)@, input).1.actions);
        reaction
    }

    /// Takes note that the connection is established, with a peer of the
    /// given fingerprint. The first time, the peer is held against the pin:
    /// a trusted peer is announced, another is reported and its connection
    /// closed. Later calls change nothing.
    pub fn on_established(&mut self, peer_fingerprint: &str) -> (reaction: Reaction)
        ensures
            final(self)@ == client_step(
                old(self)@,
                ClientInput::Established { peer_fingerprint: peer_fingerprint@ },
            ).0,
            reaction@ == client_step(
                old(self)@,
                ClientInput::Established { peer_fingerprint: peer_fingerprint@ },
            ).1,
    {
        let ghost input = ClientInput::Established { peer_fingerprint: peer_fingerprint@ };
        let mut reaction = Reaction::nothing();
        let handshaking = match self.phase {
            ClientPhase::Handshaking => true,
            _ => false,
        };
        if handshaking {
            if pinned_fingerprint_matches(self.pin.as_str(), peer_fingerprint) {
                reaction.report(
                    QuicEvent::Connected {
                        handle: self.handle,
                        connection_id: self.id_string(),
                        peer_fingerprint: String::from_str(peer_fingerprint),
                    },
                );
                self.phase = ClientPhase::Announced;
            } else {
                reaction.report(
                    QuicEvent::Error {
                        handle: self.handle,
                        connection_id: Some(self.id_string()),
                        message: String::from_str("server fingerprint mismatch"),
                    },
                );
                reaction.ask(
                    self.close_with(CLOSE_CODE_FINGERPRINT_MISMATCH, "fingerprint mismatch"),
                );
                self.phase = ClientPhase::Rejected;
            }
        }
        assert(reaction@.events =~= client_step(old(self)@, input).1.events);
        assert(reaction@.actions =~= client_step(old(self)@, input).1.actions);
        reaction
    }

    /// Takes note of one read of a stream. While the connection is
    /// announced the bytes are reported as one `Message`; otherwise they
    /// are dropped.
    pub fn on_stream_data(&mut self, chunk: &[u8]) -> (reaction: Reaction)
        requires
            base64_fits(chunk@.len()),
        ensures
            final(self)@ == client_step(old(self)@, ClientInput::StreamData { chunk: chunk@ }).0,
            reaction@ == client_step(old(self)@, ClientInput::StreamData { chunk: chunk@ }).1,
    {
        let ghost input = ClientInput::StreamData { chunk: chunk@ };
        let mut reaction = Reaction::nothing();
        let announced = match self.phase {
            ClientPhase::Announced => true,
            _ => false,
        };
        if announced {
            reaction.report(
                QuicEvent::Message {
                    handle: self.handle,
                    connection_id: self.id_string(),
                    data_base64: base64_encode(chunk),
                },
            );
        }
        assert(reaction@.events =~= client_step(old(self)@, input).1.events);
        assert(reaction@.actions =~= client_step(old(self)@, input).1.actions);
        reaction
    }

    /// Takes note that the connection is closed: `Closed` is reported once
    /// and the loop is over. A rejected peer is given the rejection as the
    /// reason, whatever the peer said.
    pub fn on_closed(&mut self, peer_error: Option<String>) -> (reaction: Reaction)
        ensures
            final(self)@ == client_step(
                old(self)@,
                ClientInput::Closed { peer_error: crate::event::text_view(peer_error) },
            ).0,
            reaction@ == client_step(
                old(self)@,
                ClientInput::Closed { peer_error: crate::event::text_view(peer_error) },
            ).1,
    {
        let ghost input = ClientInput::Closed { peer_error: crate::event::text_view(peer_error) };
        let mut reaction = Reaction::nothing();
        if !self.is_finished() {
            let reason = match self.phase {
                ClientPhase::Rejected => Some(
                    String::from_str("fingerprint mismatch (close code 0x102)"),
                ),
                _ => peer_error,
            };
            reaction.report(
                QuicEvent::Closed {
                    handle: self.handle,
                    connection_id: self.id_string(),
                    reason,
                },
            );
            self.phase = ClientPhase::Finished;
        }
        assert(reaction@.events =~= client_step(old(self)@, input).1.events);
        assert(reaction@.actions =~= client_step(old(self)@, input).1.actions);
        reaction
    }
}

} // verus!
