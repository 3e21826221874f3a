//! What crosses the boundary of a session: the commands that reach it, the
//! events that leave it and the calls that it asks of the transport engine.

use base64::Engine;
use vstd::prelude::*;

verus! {

/// The stream that carries the application's data.
pub const CONTROL_STREAM_ID: u64 = 0;

/// Close code of a close that the application asked of a connecting side.
pub const CLOSE_CODE_APP: u64 = 0x100;

/// Close code of a close that the application asked of an accepting side.
pub const CLOSE_CODE_SERVER: u64 = 0x101;

/// Close code of a connecting side that met another fingerprint than the
/// pinned one.
pub const CLOSE_CODE_FINGERPRINT_MISMATCH: u64 = 0x102;

/// Close code of an accepting side that met a peer outside its allowlist.
pub const CLOSE_CODE_UNTRUSTED_CLIENT: u64 = 0x103;

/// An intent of the application, handed to the session that owns the
/// connection.
#[derive(Debug, PartialEq, Eq)]
#[allow(inconsistent_fields)]
pub enum WorkerCommand {
    /// Send the payload on the connection with the given id.
    Send { conn_id: Vec<u8>, payload: Vec<u8> },
    /// Close the connection with the given id, or every connection of the
    /// session where no id is given.
    Close { conn_id: Option<Vec<u8>> },
}

/// A command as a value.
#[allow(inconsistent_fields)]
pub enum CommandView {
    Send { conn_id: Seq<u8>, payload: Seq<u8> },
    Close { conn_id: Option<Seq<u8>> },
}

/// The bytes that an optional byte string holds.
pub open spec fn bytes_view(bytes: Option<Vec<u8>>) -> Option<Seq<u8>> {
    match bytes {
        Some(b) => Some(b@),
        None => None,
    }
}

/// The characters that an optional text holds.
pub open spec fn text_view(text: Option<String>) -> Option<Seq<char>> {
    match text {
        Some(t) => Some(t@),
        None => None,
    }
}

impl View for WorkerCommand {
    type V = CommandView;

    open spec fn view(&self) -> CommandView {
        match *self {
            WorkerCommand::Send { conn_id, payload } => CommandView::Send {
                conn_id: conn_id@,
                payload: payload@,
            },
            WorkerCommand::Close { conn_id } => CommandView::Close { conn_id: bytes_view(conn_id) },
        }
    }
}

/// What a session reports to the host.
#[derive(Debug, PartialEq, Eq)]
#[allow(inconsistent_fields)]
pub enum QuicEvent {
    /// The connection is established and its peer is trusted.
    Connected { handle: u64, connection_id: String, peer_fingerprint: String },
    /// Application data arrived, carried in base64.
    Message { handle: u64, connection_id: String, data_base64: String },
    /// The connection is gone.
    Closed { handle: u64, connection_id: String, reason: Option<String> },
    /// Something failed, on a connection or on the session as a whole.
    Error { handle: u64, connection_id: Option<String>, message: String },
}

/// An event as a value.
#[allow(inconsistent_fields)]
pub enum EventView {
    Connected { handle: u64, connection_id: Seq<char>, peer_fingerprint: Seq<char> },
    Message { handle: u64, connection_id: Seq<char>, data_base64: Seq<char> },
    Closed { handle: u64, connection_id: Seq<char>, reason: Option<Seq<char>> },
    Error { handle: u64, connection_id: Option<Seq<char>>, message: Seq<char> },
}

impl View for QuicEvent {
    type V = EventView;

    open spec fn view(&self) -> EventView {
        match *self {
            QuicEvent::Connected { handle, connection_id, peer_fingerprint } => {
                EventView::Connected {
                    handle,
                    connection_id: connection_id@,
                    peer_fingerprint: peer_fingerprint@,
                }
            },
            QuicEvent::Message { handle, connection_id, data_base64 } => EventView::Message {
                handle,
                connection_id: connection_id@,
                data_base64: data_base64@,
            },
            QuicEvent::Closed { handle, connection_id, reason } => EventView::Closed {
                handle,
                connection_id: connection_id@,
                reason: text_view(reason),
            },
            QuicEvent::Error { handle, connection_id, message } => EventView::Error {
                handle,
                connection_id: text_view(connection_id),
                message: message@,
            },
        }
    }
}

impl EventView {
    /// The connection that the event speaks of, by the text of its id.
    pub open spec fn about(self) -> Option<Seq<char>> {
        match self {
            EventView::Connected { connection_id, .. } => Some(connection_id),
            EventView::Message { connection_id, .. } => Some(connection_id),
            EventView::Closed { connection_id, .. } => Some(connection_id),
            EventView::Error { connection_id, .. } => connection_id,
        }
    }

    /// The session that the event comes from.
    pub open spec fn session(self) -> u64 {
        match self {
            EventView::Connected { handle, .. } => handle,
            EventView::Message { handle, .. } => handle,
            EventView::Closed { handle, .. } => handle,
            EventView::Error { handle, .. } => handle,
        }
    }
}

/// A call that a session asks of the transport engine.
#[derive(Debug, PartialEq, Eq)]
pub enum EngineAction {
    /// Write the payload to a stream of the connection.
    StreamSend { conn_id: Vec<u8>, stream_id: u64, payload: Vec<u8>, fin: bool },
    /// Close the connection with the given code and reason.
    Close { conn_id: Vec<u8>, app: bool, code: u64, reason: String },
}

/// An engine call as a value.
pub enum ActionView {
    StreamSend { conn_id: Seq<u8>, stream_id: u64, payload: Seq<u8>, fin: bool },
    Close { conn_id: Seq<u8>, app: bool, code: u64, reason: Seq<char> },
}

impl View for EngineAction {
    type V = ActionView;

    open spec fn view(&self) -> ActionView {
        match *self {
            EngineAction::StreamSend { conn_id, stream_id, payload, fin } => {
                ActionView::StreamSend { conn_id: conn_id@, stream_id, payload: payload@, fin }
            },
            EngineAction::Close { conn_id, app, code, reason } => ActionView::Close {
                conn_id: conn_id@,
                app,
                code,
                reason: reason@,
            },
        }
    }
}

/// What a session answers to one thing that happened: the calls to make on
/// the engine and the events to hand to the sink, each in order. The calls
/// are made first, the events handed on after them.
#[derive(Debug, PartialEq, Eq)]
pub struct Reaction {
    pub events: Vec<QuicEvent>,
    pub actions: Vec<EngineAction>,
}

/// A reaction as a value.
pub struct ReactionView {
    pub events: Seq<EventView>,
    pub actions: Seq<ActionView>,
}

impl View for Reaction {
    type V = ReactionView;

    open spec fn view(&self) -> ReactionView {
        ReactionView {
            events: self.events@.map_values(|e: QuicEvent| e@),
            actions: self.actions@.map_values(|a: EngineAction| a@),
        }
    }
}

impl ReactionView {
    /// The reaction that asks and reports nothing.
    pub open spec fn nothing() -> ReactionView {
        ReactionView { events: Seq::empty(), actions: Seq::empty() }
    }
}

impl Reaction {
    /// The reaction that asks and reports nothing.
    pub fn nothing() -> (r: Reaction)
        ensures
            r@ == ReactionView::nothing(),
    {
        let r = Reaction { events: Vec::new(), actions: Vec::new() };
        assert(r@.events =~= Seq::empty());
        assert(r@.actions =~= Seq::empty());
        r
    }

    /// Adds an event after those that the reaction holds.
    pub fn report(&mut self, event: QuicEvent)
        ensures
            final(self)@.events == old(self)@.events.push(event@),
            final(self)@.actions == old(self)@.actions,
    {
        self.events.push(event);
        assert(self@.events =~= old(self)@.events.push(event@));
    }

    /// Adds an engine call after those that the reaction holds.
    pub fn ask(&mut self, action: EngineAction)
        ensures
            final(self)@.actions == old(self)@.actions.push(action@),
            final(self)@.events == old(self)@.events,
    {
        self.actions.push(action);
        assert(self@.actions =~= old(self)@.actions.push(action@));
    }
}

/// The character that stands for a value below 64 in base64.
pub open spec fn base64_symbol(v: int) -> char {
    if v < 26 {
        (v + 65) as char
    } else if v < 52 {
        (v + 71) as char
    } else if v < 62 {
        (v - 4) as char
    } else if v == 62 {
        '+'
    } else {
        '/'
    }
}

/// The base64 text of a byte string: standard alphabet, padded with `=`.
pub open spec fn base64_text(data: Seq<u8>) -> Seq<char>
    decreases data.len(),
{
    if data.len() == 0 {
        Seq::empty()
    } else if data.len() == 1 {
        seq![
            base64_symbol(data[0] as int / 4),
            base64_symbol(data[0] as int % 4 * 16),
            '=',
            '=',
        ]
    } else if data.len() == 2 {
        seq![
            base64_symbol(data[0] as int / 4),
            base64_symbol(data[0] as int % 4 * 16 + data[1] as int / 16),
            base64_symbol(data[1] as int % 16 * 4),
            '=',
        ]
    } else {
        seq![
            base64_symbol(data[0] as int / 4),
            base64_symbol(data[0] as int % 4 * 16 + data[1] as int / 16),
            base64_symbol(data[1] as int % 16 * 4 + data[2] as int / 64),
            base64_symbol(data[2] as int % 64),
        ] + base64_text(data.skip(3))
    }
}

/// Whether the base64 text of `len` bytes has a length that the machine
/// can hold.
pub open spec fn base64_fits(len: nat) -> bool {
    (len + 2) / 3 * 4 <= usize::MAX
}

/// Calls `encode` of `base64::engine::general_purpose::STANDARD`. Believed
/// of it: the result is the padded base64 text of the data in the standard
/// alphabet. The call fails where the text would be longer than the machine
/// can count, which the precondition rules out.
#[verifier::external_body]
pub(crate) fn base64_encode(data: &[u8]) -> (text: String)
    requires
        base64_fits(data@.len()),
    ensures
        text@ == base64_text(data@),
{
    base64::engine::general_purpose::STANDARD.encode(data)
}

/// Whether a payload of the given length can be put in a `Message` event.
pub fn payload_fits(len: usize) -> (fits: bool)
    ensures
        fits == base64_fits(len as nat),
{
    let groups: usize = if len % 3 == 0 {
        len / 3
    } else {
        len / 3 + 1
    };
    assert(groups == (len + 2) / 3);
    groups <= usize::MAX / 4
}

/// The value below 64 that a character of the base64 alphabet stands for;
/// zero for any other character.
pub open spec fn base64_value(c: char) -> int {
    let v = c as int;
    if 65 <= v <= 90 {
        v - 65
    } else if 97 <= v <= 122 {
        v - 71
    } else if 48 <= v <= 57 {
        v + 4
    } else if c == '+' {
        62
    } else if c == '/' {
        63
    } else {
        0
    }
}

/// The bytes that a padded base64 text stands for.
pub open spec fn base64_bytes(text: Seq<char>) -> Seq<u8>
    decreases text.len(),
{
    if text.len() < 4 {
        Seq::empty()
    } else {
        let a = base64_value(text[0]);
        let b = base64_value(text[1]);
        let c = base64_value(text[2]);
        let d = base64_value(text[3]);
        let first = (a * 4 + b / 16) as u8;
        let second = (b % 16 * 16 + c / 4) as u8;
        let third = (c % 4 * 64 + d) as u8;
        if text[2] == '=' {
            seq![first]
        } else if text[3] == '=' {
            seq![first, second]
        } else {
            seq![first, second, third] + base64_bytes(text.skip(4))
        }
    }
}

/// The base64 text of a byte string reads back as the byte string.
pub proof fn lemma_base64_round_trip(data: Seq<u8>)
    ensures
        base64_bytes(base64_text(data)) == data,
    decreases data.len(),
{
    assert forall|v: int| 0 <= v < 64 implies base64_value(#[trigger] base64_symbol(v)) == v
        && base64_symbol(v) != '=' by {}
    let text = base64_text(data);
    if data.len() == 0 {
        assert(base64_bytes(text) =~= data);
    } else if data.len() == 1 {
        let x = data[0] as int;
        assert(base64_value(text[0]) == x / 4);
        assert(base64_value(text[1]) == x % 4 * 16);
        assert(base64_bytes(text) =~= data);
    } else if data.len() == 2 {
        let x = data[0] as int;
        let y = data[1] as int;
        assert(base64_value(text[0]) == x / 4);
        assert(base64_value(text[1]) == x % 4 * 16 + y / 16);
        assert(base64_value(text[2]) == y % 16 * 4);
        assert(text[2] != '=');
        assert(base64_bytes(text) =~= data);
    } else {
        let x = data[0] as int;
        let y = data[1] as int;
        let z = data[2] as int;
        let rest = base64_text(data.skip(3));
        assert(text.len() >= 4);
        assert(base64_value(text[0]) == x / 4);
        assert(base64_value(text[1]) == x % 4 * 16 + y / 16);
        assert(base64_value(text[2]) == y % 16 * 4 + z / 64);
        assert(base64_value(text[3]) == z % 64);
        assert(text[2] != '=' && text[3] != '=');
        assert(text.skip(4) =~= rest);
        lemma_base64_round_trip(data.skip(3));
        assert(base64_bytes(text) =~= seq![data[0], data[1], data[2]] + data.skip(3));
        assert(seq![data[0], data[1], data[2]] + data.skip(3) =~= data);
    }
}

} // verus!
