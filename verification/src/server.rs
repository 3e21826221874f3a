//! The accepting side of a session: any number of connections behind one
//! socket, told apart by the ids that the session gave them.
//!
//! The caller runs the loop and owns the engine's connections, keyed by
//! the same ids. Each turn it feeds the session the pending commands, asks
//! it where an incoming datagram belongs, then goes through the tracked
//! connections and reports what the engine said of each. Connections that
//! are done are retired at once and leave the session with the sweep that
//! ends the turn.

use crate::bytes::{copy_bytes, same_bytes};
use crate::client::{failure_message, failure_prefix, FailureKind};
use crate::connid::{fresh_connection_id, MAX_CONN_ID_LEN};
use crate::conns::{
    distinct_ids, is_live, kept, lemma_kept_distinct, lemma_slot_is_unique, phase_of,
    retired_ids, slot_of, tracks, with_phase, ConnPhase, ConnView,
};
use crate::event::{
    base64_encode, base64_fits, base64_text, bytes_view, text_view, ActionView, CommandView,
    EngineAction, EventView, QuicEvent, Reaction, ReactionView, WorkerCommand,
    CLOSE_CODE_SERVER, CLOSE_CODE_UNTRUSTED_CLIENT, CONTROL_STREAM_ID,
};
use crate::hexcode::{hex_string, hex_text};
use crate::trust::{server_trusts, TrustAllowlist};
use vstd::prelude::*;
use vstd::string::*;

verus! {

/// The reason given for a close that the application asked for.
pub open spec fn server_close_reason() -> Seq<char> {
    "server close"@
}

/// The words said of a peer that is not on the allowlist, in its `Error`
/// event and as the reason of its close.
pub open spec fn untrusted_reason() -> Seq<char> {
    "untrusted client"@
}

/// The reason that the `Closed` event of such a peer carries: the
/// rejection with its close code.
pub open spec fn untrusted_closed_reason() -> Seq<char> {
    "untrusted client (close code 0x103)"@
}

/// The words that the `Error` event of a failed send starts with.
pub open spec fn send_failure_prefix() -> Seq<char> {
    "server send error: "@
}

/// The close asked of the engine for one connection.
pub open spec fn close_action(id: Seq<u8>, code: u64, reason: Seq<char>) -> ActionView {
    ActionView::Close { conn_id: id, app: false, code, reason }
}

/// The closes asked of the engine when the application closes the whole
/// session: one for each connection that is not retired, in their order.
pub open spec fn close_all(conns: Seq<ConnView>) -> Seq<ActionView>
    decreases conns.len(),
{
    if conns.len() == 0 {
        Seq::empty()
    } else if conns.last().phase == ConnPhase::Retired {
        close_all(conns.drop_last())
    } else {
        close_all(conns.drop_last()).push(
            close_action(conns.last().id, CLOSE_CODE_SERVER, server_close_reason()),
        )
    }
}

/// An accepting side as a value.
pub struct ServerView {
    pub handle: u64,
    pub allowlist: Set<Seq<char>>,
    pub conns: Seq<ConnView>,
    /// Whether the loop is over.
    pub stopped: bool,
}

/// One thing that happened to an accepting side.
pub enum ServerInput {
    /// A command arrived.
    Command(CommandView),
    /// The socket failed; `detail` is what it said.
    Failure { kind: FailureKind, detail: Seq<char> },
    /// The engine accepted a connection under the given id.
    Accepted { conn_id: Seq<u8> },
    /// The engine failed to produce a datagram for the connection.
    SendFailed { conn_id: Seq<u8>, detail: Seq<char> },
    /// The engine reports the connection established, with a peer of the
    /// given fingerprint.
    Established { conn_id: Seq<u8>, peer_fingerprint: Seq<char> },
    /// One read of a stream of the connection gave these bytes.
    StreamData { conn_id: Seq<u8>, chunk: Seq<u8> },
    /// The engine reports the connection closed.
    Closed { conn_id: Seq<u8>, peer_error: Option<Seq<char>> },
    /// The turn of the loop is over.
    Sweep,
}

impl ServerView {
    /// The same side with other connections.
    pub open spec fn with_conns(self, conns: Seq<ConnView>) -> ServerView {
        ServerView { conns, ..self }
    }

    /// The same side with one connection put in another phase.
    pub open spec fn moved(self, id: Seq<u8>, phase: ConnPhase) -> ServerView {
        self.with_conns(with_phase(self.conns, id, phase))
    }

    /// What holds of every accepting side: its connections have distinct
    /// ids.
    pub open spec fn well_formed(self) -> bool {
        distinct_ids(self.conns)
    }
}

/// Events alone, as a reaction.
pub open spec fn only_events(events: Seq<EventView>) -> ReactionView {
    ReactionView { events, actions: Seq::empty() }
}

/// Engine calls alone, as a reaction.
pub open spec fn only_actions(actions: Seq<ActionView>) -> ReactionView {
    ReactionView { events: Seq::empty(), actions }
}

/// What an accepting side becomes and answers when something happens.
pub open spec fn server_step(s: ServerView, input: ServerInput) -> (ServerView, ReactionView) {
    if s.stopped {
        (s, ReactionView::nothing())
    } else {
        match input {
            ServerInput::Command(CommandView::Send { conn_id, payload }) => {
                if phase_of(s.conns, conn_id) == Some(ConnPhase::Announced) {
                    (
                        s,
                        only_actions(
                            seq![
                                ActionView::StreamSend {
                                    conn_id,
                                    stream_id: CONTROL_STREAM_ID,
                                    payload,
                                    fin: false,
                                },
                            ],
                        ),
                    )
                } else {
                    (s, ReactionView::nothing())
                }
            },
            ServerInput::Command(CommandView::Close { conn_id: Some(id) }) => {
                if is_live(s.conns, id) {
                    (
                        s,
                        only_actions(
                            seq![close_action(id, CLOSE_CODE_SERVER, server_close_reason())],
                        ),
                    )
                } else {
                    (s, ReactionView::nothing())
                }
            },
            ServerInput::Command(CommandView::Close { conn_id: None }) => {
                (s, only_actions(close_all(s.conns)))
            },
            ServerInput::Failure { kind, detail } => {
                (
                    ServerView { stopped: true, ..s },
                    only_events(
                        seq![
                            EventView::Error {
                                handle: s.handle,
                                connection_id: None,
                                message: failure_prefix(kind) + detail,
                            },
                        ],
                    ),
                )
            },
            ServerInput::Accepted { conn_id } => {
                if tracks(s.conns, conn_id) {
                    (s, ReactionView::nothing())
                } else {
                    (
                        s.with_conns(
                            s.conns.push(ConnView { id: conn_id, phase: ConnPhase::Handshaking }),
                        ),
                        ReactionView::nothing(),
                    )
                }
            },
            ServerInput::SendFailed { conn_id, detail } => {
                if is_live(s.conns, conn_id) {
                    (
                        s.moved(conn_id, ConnPhase::Retired),
                        only_events(
                            seq![
                                EventView::Error {
                                    handle: s.handle,
                                    connection_id: Some(hex_text(conn_id)),
                                    message: send_failure_prefix() + detail,
                                },
                            ],
                        ),
                    )
                } else {
                    (s, ReactionView::nothing())
                }
            },
            ServerInput::Established { conn_id, peer_fingerprint } => {
                if phase_of(s.conns, conn_id) != Some(ConnPhase::Handshaking) {
                    (s, ReactionView::nothing())
                } else if server_trusts(s.allowlist, peer_fingerprint) {
                    (
                        s.moved(conn_id, ConnPhase::Announced),
                        only_events(
                            seq![
                                EventView::Connected {
                                    handle: s.handle,
                                    connection_id: hex_text(conn_id),
                                    peer_fingerprint,
                                },
                            ],
                        ),
                    )
                } else {
                    (
                        s.moved(conn_id, ConnPhase::Retired),
                        ReactionView {
                            events: seq![
                                EventView::Error {
                                    handle: s.handle,
                                    connection_id: Some(hex_text(conn_id)),
                                    message: untrusted_reason(),
                                },
                                EventView::Closed {
                                    handle: s.handle,
                                    connection_id: hex_text(conn_id),
                                    reason: Some(untrusted_closed_reason()),
                                },
                            ],
                            actions: seq![
                                close_action(
                                    conn_id,
                                    CLOSE_CODE_UNTRUSTED_CLIENT,
                                    untrusted_reason(),
                                ),
                            ],
                        },
                    )
                }
            },
            ServerInput::StreamData { conn_id, chunk } => {
                if phase_of(s.conns, conn_id) == Some(ConnPhase::Announced) {
                    (
                        s,
                        only_events(
                            seq![
                                EventView::Message {
                                    handle: s.handle,
                                    connection_id: hex_text(conn_id),
                                    data_base64: base64_text(chunk),
                                },
                            ],
                        ),
                    )
                } else {
                    (s, ReactionView::nothing())
                }
            },
            ServerInput::Closed { conn_id, peer_error } => {
                if is_live(s.conns, conn_id) {
                    (
                        s.moved(conn_id, ConnPhase::Retired),
                        only_events(
                            seq![
                                EventView::Closed {
                                    handle: s.handle,
                                    connection_id: hex_text(conn_id),
                                    reason: peer_error,
                                },
                            ],
                        ),
                    )
                } else {
                    (s, ReactionView::nothing())
                }
            },
            ServerInput::Sweep => (s.with_conns(kept(s.conns)), ReactionView::nothing()),
        }
    }
}

/// Where an incoming datagram belongs.
#[derive(Debug, PartialEq, Eq)]
pub enum Route {
    /// It is for the tracked connection with this id: feed it to the
    /// engine.
    Feed { conn_id: Vec<u8> },
    /// It opens a connection: let the engine accept it under this id.
    Accept { local_id: Vec<u8> },
    /// It is for nobody.
    Drop,
}

/// A route as a value.
pub enum RouteView {
    Feed { conn_id: Seq<u8> },
    Accept { local_id: Seq<u8> },
    Drop,
}

impl View for Route {
    type V = RouteView;

    open spec fn view(&self) -> RouteView {
        match *self {
            Route::Feed { conn_id } => RouteView::Feed { conn_id: conn_id@ },
            Route::Accept { local_id } => RouteView::Accept { local_id: local_id@ },
            Route::Drop => RouteView::Drop,
        }
    }
}

/// Where a datagram for `dcid` belongs. One for a live connection is fed
/// to it. One for an id that is not tracked opens a connection under the
/// candidate id, never under the id that the peer chose: it is dropped
/// where there is no candidate, where the candidate is taken, and where
/// the candidate is the peer's own choice. Everything else is dropped.
pub open spec fn route_of(s: ServerView, dcid: Seq<u8>, candidate: Option<Seq<u8>>) -> RouteView {
    if s.stopped {
        RouteView::Drop
    } else if tracks(s.conns, dcid) {
        if is_live(s.conns, dcid) {
            RouteView::Feed { conn_id: dcid }
        } else {
            RouteView::Drop
        }
    } else {
        match candidate {
            Some(id) => if tracks(s.conns, id) || id == dcid {
                RouteView::Drop
            } else {
                RouteView::Accept { local_id: id }
            },
            None => RouteView::Drop,
        }
    }
}

/// The byte strings that a list of byte strings holds.
pub open spec fn ids_view(ids: Seq<Vec<u8>>) -> Seq<Seq<u8>> {
    ids.map_values(|id: Vec<u8>| id@)
}

/// The accepting side of a session. The connections are kept in the order
/// in which they were accepted, each id once, so that a turn of the loop
/// and a close of the whole session go through them in a fixed order.
pub struct ServerSession {
    handle: u64,
    allowlist: TrustAllowlist,
    ids: Vec<Vec<u8>>,
    phases: Vec<ConnPhase>,
    stopped: bool,
}

impl View for ServerSession {
    type V = ServerView;

    closed spec fn view(&self) -> ServerView {
        ServerView {
            handle: self.handle,
            allowlist: self.allowlist@,
            conns: Seq::new(
                self.ids@.len(),
                |i: int| ConnView { id: self.ids@[i]@, phase: self.phases@[i] },
            ),
            stopped: self.stopped,
        }
    }
}

fn close_for(id: &[u8], code: u64, reason: &str) -> (action: EngineAction)
    ensures
        action@ == close_action(id@, code, reason@),
{
    EngineAction::Close {
        conn_id: copy_bytes(id),
        app: false,
        code,
        reason: String::from_str(reason),
    }
}

impl ServerSession {
    /// What holds of every accepting side that this module hands out.
    pub closed spec fn wf(&self) -> bool {
        self.ids@.len() == self.phases@.len() && self@.well_formed()
    }

    /// A well-formed side has connections with distinct ids.
    pub proof fn lemma_wf_view(&self)
        requires
            self.wf(),
        ensures
            self@.well_formed(),
    {
    }

    /// An accepting side without connections.
    pub fn new(handle: u64, allowlist: TrustAllowlist) -> (session: ServerSession)
        ensures
            session.wf(),
            session@ == (ServerView {
                handle,
                allowlist: allowlist@,
                conns: Seq::empty(),
                stopped: false,
            }),
    {
        let session = ServerSession {
            handle,
            allowlist,
            ids: Vec::new(),
            phases: Vec::new(),
            stopped: false,
        };
        assert(session@.conns =~= Seq::empty());
        session
    }

    /// The handle of the session.
    pub fn handle(&self) -> (handle: u64)
        ensures
            handle == self@.handle,
    {
        self.handle
    }

    /// Whether the loop is over.
    pub fn is_stopped(&self) -> (stopped: bool)
        ensures
            stopped == self@.stopped,
    {
        self.stopped
    }

    /// The number of tracked connections.
    pub fn connection_count(&self) -> (count: usize)
        requires
            self.wf(),
        ensures
            count == self@.conns.len(),
    {
        self.ids.len()
    }

    fn find(&self, id: &[u8]) -> (slot: Option<usize>)
        requires
            self.wf(),
        ensures
            match slot {
                Some(i) => i < self.ids@.len() && self.ids@[i as int]@ == id@ && tracks(
                    self@.conns,
                    id@,
                ) && slot_of(self@.conns, id@) == i && phase_of(self@.conns, id@) == Some(
                    self.phases@[i as int],
                ),
                None => !tracks(self@.conns, id@),
            },
    {
        let mut i: usize = 0;
        while i < self.ids.len()
            invariant
                self.wf(),
                i <= self.ids@.len(),
                forall|k: int| 0 <= k < i ==> (#[trigger] self@.conns[k]).id != id@,
            decreases self.ids@.len() - i,
        {
            if same_bytes(self.ids[i].as_slice(), id) {
                proof {
                    assert(self@.conns[i as int].id == id@);
                    lemma_slot_is_unique(self@.conns, i as int);
                }
                return Some(i);
            }
            i = i + 1;
        }
        None
    }

    /// The phase of the connection with the given id, if it is tracked.
    pub fn phase(&self, id: &[u8]) -> (phase: Option<ConnPhase>)
        requires
            self.wf(),
        ensures
            phase == phase_of(self@.conns, id@),
    {
        match self.find(id) {
            Some(i) => Some(self.phases[i]),
            None => None,
        }
    }

    /// The ids of the tracked connections, in their order: the snapshot
    /// that one turn of the loop goes through.
    pub fn connection_ids(&self) -> (ids: Vec<Vec<u8>>)
        requires
            self.wf(),
        ensures
            ids@.len() == self@.conns.len(),
            forall|i: int| 0 <= i < ids@.len() ==> (#[trigger] ids@[i])@ == self@.conns[i].id,
    {
        let mut ids: Vec<Vec<u8>> = Vec::new();
        let mut i: usize = 0;
        while i < self.ids.len()
            invariant
                self.wf(),
                i <= self.ids@.len(),
                ids@.len() == i,
                forall|k: int| 0 <= k < i ==> (#[trigger] ids@[k])@ == self@.conns[k].id,
            decreases self.ids@.len() - i,
        {
            ids.push(copy_bytes(self.ids[i].as_slice()));
            i = i + 1;
        }
        ids
    }

    fn set_phase(&mut self, slot: usize, phase: ConnPhase)
        requires
            old(self).wf(),
            slot < old(self).ids@.len(),
        ensures
            final(self).wf(),
            final(self)@ == old(self)@.moved(old(self).ids@[slot as int]@, phase),
            final(self).ids == old(self).ids,
    {
        proof {
            lemma_slot_is_unique(self@.conns, slot as int);
        }
        self.phases.set(slot, phase);
        assert(self@.conns =~= with_phase(old(self)@.conns, old(self).ids@[slot as int]@, phase));
        assert(distinct_ids(self@.conns)) by {
            assert forall|i: int, j: int| 0 <= i < j < self@.conns.len() implies (
            #[trigger] self@.conns[i]).id != (#[trigger] self@.conns[j]).id by {
                assert(old(self)@.conns[i].id != old(self)@.conns[j].id);
            }
        }
    }

    fn is_phase(phase: ConnPhase, wanted: ConnPhase) -> (same: bool)
        ensures
            same == (phase == wanted),
    {
        phase == wanted
    }

    /// Applies a command. `Send` is passed on to the engine for an
    /// announced connection and dropped for any other id; `Close` is passed
    /// on for the connection that it names, or for every connection that
    /// is not retired where it names none.
    pub fn on_command(&mut self, command: WorkerCommand) -> (reaction: Reaction)
        requires
            old(self).wf(),
        ensures
            final(self).wf(),
            final(self)@ == server_step(old(self)@, ServerInput::Command(command@)).0,
            reaction@ == server_step(old(self)@, ServerInput::Command(command@)).1,
    {
        let ghost input = ServerInput::Command(command@);
        let mut reaction = Reaction::nothing();
        if !self.stopped {
            match command {
                WorkerCommand::Send { conn_id, payload } => {
                    match self.find(conn_id.as_slice()) {
                        Some(i) => {
                            if Self::is_phase(self.phases[i], ConnPhase::Announced) {
                                reaction.ask(
                                    EngineAction::StreamSend {
                                        conn_id,
                                        stream_id: CONTROL_STREAM_ID,
                                        payload,
                                        fin: false,
                                    },
                                );
                            }
                        },
                        None => {},
                    }
                },
                WorkerCommand::Close { conn_id: Some(id) } => {
                    match self.find(id.as_slice()) {
                        Some(i) => {
                            if !Self::is_phase(self.phases[i], ConnPhase::Retired) {
                                reaction.ask(
                                    close_for(id.as_slice(), CLOSE_CODE_SERVER, "server close"),
                                );
                            }
                        },
                        None => {},
                    }
                },
                WorkerCommand::Close { conn_id: None } => {
                    let mut i: usize = 0;
                    while i < self.ids.len()
                        invariant
                            self.wf(),
                            i <= self.ids@.len(),
                            reaction@.events == Seq::<EventView>::empty(),
                            reaction@.actions == close_all(self@.conns.subrange(0, i as int)),
                        decreases self.ids@.len() - i,
                    {
                        proof {
                            let upto = self@.conns.subrange(0, i + 1);
                            assert(upto.drop_last() =~= self@.conns.subrange(0, i as int));
                            assert(upto.last() == self@.conns[i as int]);
                        }
                        if !Self::is_phase(self.phases[i], ConnPhase::Retired) {
                            reaction.ask(
                                close_for(
                                    self.ids[i].as_slice(),
                                    CLOSE_CODE_SERVER,
                                    "server close",
                                ),
                            );
                        }
                        i = i + 1;
                    }
                    assert(self@.conns.subrange(0, i as int) =~= self@.conns);
                },
            }
        }
        assert(reaction@.events =~= server_step(old(self)@, input).1.events);
        assert(reaction@.actions =~= server_step(old(self)@, input).1.actions);
        reaction
    }

    /// Takes note of a failure of the socket: it is reported and ends the
    /// loop.
    pub fn on_failure(&mut self, kind: FailureKind, detail: &str) -> (reaction: Reaction)
        requires
            old(self).wf(),
        ensures
            final(self).wf(),
            final(self)@ == server_step(
                old(self)@,
                ServerInput::Failure { kind, detail: detail@ },
            ).0,
            reaction@ == server_step(old(self)@, ServerInput::Failure { kind, detail: detail@ }).1,
    {
        let ghost input = ServerInput::Failure { kind, detail: detail@ };
        let mut reaction = Reaction::nothing();
        if !self.stopped {
            reaction.report(
                QuicEvent::Error {
                    handle: self.handle,
                    connection_id: None,
                    message: failure_message(kind, detail),
                },
            );
            self.stopped = true;
        }
        assert(reaction@.events =~= server_step(old(self)@, input).1.events);
        assert(reaction@.actions =~= server_step(old(self)@, input).1.actions);
        reaction
    }

    /// Tracks a connection that the engine accepted under the given id.
    /// An id that is tracked already is not taken again.
    pub fn register(&mut self, conn_id: Vec<u8>) -> (registered: bool)
        requires
            old(self).wf(),
        ensures
            final(self).wf(),
            final(self)@ == server_step(old(self)@, ServerInput::Accepted { conn_id: conn_id@ }).0,
            registered == (!old(self)@.stopped && !tracks(old(self)@.conns, conn_id@)),
    {
        if self.stopped {
            return false;
        }
        match self.find(conn_id.as_slice()) {
            Some(_) => false,
            None => {
                self.ids.push(conn_id);
                self.phases.push(ConnPhase::Handshaking);
                proof {
                    let added = ConnView { id: conn_id@, phase: ConnPhase::Handshaking };
                    assert(self@.conns =~= old(self)@.conns.push(added));
                    assert forall|i: int, j: int| 0 <= i < j < self@.conns.len() implies (
                    #[trigger] self@.conns[i]).id != (#[trigger] self@.conns[j]).id by {
                        assert(self@.conns[i] == old(self)@.conns[i]);
                        if j < old(self)@.conns.len() {
                            assert(self@.conns[j] == old(self)@.conns[j]);
                        }
                    }
                }
                true
            },
        }
    }

    /// Takes note that the engine failed to produce a datagram for a
    /// connection: the failure is reported and the connection retired.
    pub fn on_send_failed(&mut self, conn_id: &[u8], detail: &str) -> (reaction: Reaction)
        requires
            old(self).wf(),
        ensures
            final(self).wf(),
            final(self)@ == server_step(
                old(self)@,
                ServerInput::SendFailed { conn_id: conn_id@, detail: detail@ },
            ).0,
            reaction@ == server_step(
                old(self)@,
                ServerInput::SendFailed { conn_id: conn_id@, detail: detail@ },
            ).1,
    {
        let ghost input = ServerInput::SendFailed { conn_id: conn_id@, detail: detail@ };
        let mut reaction = Reaction::nothing();
        if !self.stopped {
            match self.find(conn_id) {
                Some(i) => {
                    if !Self::is_phase(self.phases[i], ConnPhase::Retired) {
                        self.set_phase(i, ConnPhase::Retired);
                        reaction.report(
                            QuicEvent::Error {
                                handle: self.handle,
                                connection_id: Some(hex_string(conn_id)),
                                message: String::from_str("server send error: ").concat(detail),
                            },
                        );
                    }
                },
                None => {},
            }
        }
        assert(reaction@.events =~= server_step(old(self)@, input).1.events);
        assert(reaction@.actions =~= server_step(old(self)@, input).1.actions);
        reaction
    }

    /// Takes note that a connection is established, with a peer of the
    /// given fingerprint. The first time, the peer is held against the
    /// allowlist: a trusted peer is announced; another is reported, its
    /// connection closed and retired. Later calls change nothing.
    pub fn on_established(&mut self, conn_id: &[u8], peer_fingerprint: &str) -> (reaction: Reaction)
        requires
            old(self).wf(),
        ensures
            final(self).wf(),
            final(self)@ == server_step(
                old(self)@,
                ServerInput::Established {
                    conn_id: conn_id@,
                    peer_fingerprint: peer_fingerprint@,
                },
            ).0,
            reaction@ == server_step(
                old(self)@,
                ServerInput::Established {
                    conn_id: conn_id@,
                    peer_fingerprint: peer_fingerprint@,
                },
            ).1,
    {
        let ghost input = ServerInput::Established {
            conn_id: conn_id@,
            peer_fingerprint: peer_fingerprint@,
        };
        let mut reaction = Reaction::nothing();
        if !self.stopped {
            match self.find(conn_id) {
                Some(i) => {
                    if Self::is_phase(self.phases[i], ConnPhase::Handshaking) {
                        if self.allowlist.trusts(peer_fingerprint) {
                            self.set_phase(i, ConnPhase::Announced);
                            reaction.report(
                                QuicEvent::Connected {
                                    handle: self.handle,
                                    connection_id: hex_string(conn_id),
                                    peer_fingerprint: String::from_str(peer_fingerprint),
                                },
                            );
                        } else {
                            self.set_phase(i, ConnPhase::Retired);
                            reaction.report(
                                QuicEvent::Error {
                                    handle: self.handle,
                                    connection_id: Some(hex_string(conn_id)),
                                    message: String::from_str("untrusted client"),
                                },
                            );
                            reaction.report(
                                QuicEvent::Closed {
                                    handle: self.handle,
                                    connection_id: hex_string(conn_id),
                                    reason: Some(
                                        String::from_str("untrusted client (close code 0x103)"),
                                    ),
                                },
                            );
                            reaction.ask(
                                close_for(conn_id, CLOSE_CODE_UNTRUSTED_CLIENT, "untrusted client"),
                            );
                        }
                    }
                },
                None => {},
            }
        }
        assert(reaction@.events =~= server_step(old(self)@, input).1.events);
        assert(reaction@.actions =~= server_step(old(self)@, input).1.actions);
        reaction
    }

    /// Takes note of one read of a stream of a connection. For an
    /// announced connection the bytes are reported as one `Message`;
    /// otherwise they are dropped.
    pub fn on_stream_data(&mut self, conn_id: &[u8], chunk: &[u8]) -> (reaction: Reaction)
        requires
            old(self).wf(),
            base64_fits(chunk@.len()),
        ensures
            final(self).wf(),
            final(self)@ == server_step(
                old(self)@,
                ServerInput::StreamData { conn_id: conn_id@, chunk: chunk@ },
            ).0,
            reaction@ == server_step(
                old(self)@,
                ServerInput::StreamData { conn_id: conn_id@, chunk: chunk@ },
            ).1,
    {
        let ghost input = ServerInput::StreamData { conn_id: conn_id@, chunk: chunk@ };
        let mut reaction = Reaction::nothing();
        if !self.stopped {
            match self.find(conn_id) {
                Some(i) => {
                    if Self::is_phase(self.phases[i], ConnPhase::Announced) {
                        reaction.report(
                            QuicEvent::Message {
                                handle: self.handle,
                                connection_id: hex_string(conn_id),
                                data_base64: base64_encode(chunk),
                            },
                        );
                    }
                },
                None => {},
            }
        }
        assert(reaction@.events =~= server_step(old(self)@, input).1.events);
        assert(reaction@.actions =~= server_step(old(self)@, input).1.actions);
        reaction
    }

    /// Takes note that a connection is closed: `Closed` is reported with
    /// what the peer gave as its reason, and the connection is retired.
    pub fn on_closed(&mut self, conn_id: &[u8], peer_error: Option<String>) -> (reaction: Reaction)
        requires
            old(self).wf(),
        ensures
            final(self).wf(),
            final(self)@ == server_step(
                old(self)@,
                ServerInput::Closed { conn_id: conn_id@, peer_error: text_view(peer_error) },
            ).0,
            reaction@ == server_step(
                old(self)@,
                ServerInput::Closed { conn_id: conn_id@, peer_error: text_view(peer_error) },
            ).1,
    {
        let ghost input = ServerInput::Closed {
            conn_id: conn_id@,
            peer_error: text_view(peer_error),
        };
        let mut reaction = Reaction::nothing();
        if !self.stopped {
            match self.find(conn_id) {
                Some(i) => {
                    if !Self::is_phase(self.phases[i], ConnPhase::Retired) {
                        self.set_phase(i, ConnPhase::Retired);
                        reaction.report(
                            QuicEvent::Closed {
                                handle: self.handle,
                                connection_id: hex_string(conn_id),
                                reason: peer_error,
                            },
                        );
                    }
                },
                None => {},
            }
        }
        assert(reaction@.events =~= server_step(old(self)@, input).1.events);
        assert(reaction@.actions =~= server_step(old(self)@, input).1.actions);
        reaction
    }

    /// Ends a turn of the loop: the retired connections leave the session.
    /// Their ids come back, for the caller to drop what it holds for them.
    pub fn sweep(&mut self) -> (removed: Vec<Vec<u8>>)
        requires
            old(self).wf(),
        ensures
            final(self).wf(),
            final(self)@ == server_step(old(self)@, ServerInput::Sweep).0,
            ids_view(removed@) == if old(self)@.stopped {
                Seq::<Seq<u8>>::empty()
            } else {
                retired_ids(old(self)@.conns)
            },
    {
        let mut removed: Vec<Vec<u8>> = Vec::new();
        if self.stopped {
            assert(ids_view(removed@) =~= Seq::<Seq<u8>>::empty());
            return removed;
        }
        let mut ids: Vec<Vec<u8>> = Vec::new();
        let mut phases: Vec<ConnPhase> = Vec::new();
        let mut i: usize = 0;
        while i < self.ids.len()
            invariant
                self.wf(),
                self == old(self),
                i <= self.ids@.len(),
                ids@.len() == phases@.len(),
                Seq::new(ids@.len(), |k: int| ConnView { id: ids@[k]@, phase: phases@[k] }) == kept(
                    self@.conns.subrange(0, i as int),
                ),
                ids_view(removed@) == retired_ids(self@.conns.subrange(0, i as int)),
            decreases self.ids@.len() - i,
        {
            proof {
                let upto = self@.conns.subrange(0, i + 1);
                assert(upto.drop_last() =~= self@.conns.subrange(0, i as int));
                assert(upto.last() == self@.conns[i as int]);
            }
            let ghost before_ids = ids@;
            let ghost before_phases = phases@;
            let ghost before_removed = removed@;
            let id = copy_bytes(self.ids[i].as_slice());
            if Self::is_phase(self.phases[i], ConnPhase::Retired) {
                removed.push(id);
                assert(ids_view(removed@) =~= ids_view(before_removed).push(id@));
            } else {
                ids.push(id);
                phases.push(self.phases[i]);
                assert(Seq::new(ids@.len(), |k: int| ConnView { id: ids@[k]@, phase: phases@[k] })
                    =~= Seq::new(
                    before_ids.len(),
                    |k: int| ConnView { id: before_ids[k]@, phase: before_phases[k] },
                ).push(self@.conns[i as int]));
            }
            i = i + 1;
        }
        proof {
            assert(self@.conns.subrange(0, i as int) =~= self@.conns);
            lemma_kept_distinct(self@.conns);
        }
        self.ids = ids;
        self.phases = phases;
        assert(self@.conns =~= kept(old(self)@.conns));
        removed
    }

    /// Where a datagram for `dcid` belongs, given the id under which it
    /// would open a connection.
    pub fn route_with(&self, dcid: &[u8], candidate: Option<Vec<u8>>) -> (route: Route)
        requires
            self.wf(),
        ensures
            route@ == route_of(self@, dcid@, bytes_view(candidate)),
    {
        if self.stopped {
            return Route::Drop;
        }
        match self.find(dcid) {
            Some(i) => {
                if Self::is_phase(self.phases[i], ConnPhase::Retired) {
                    Route::Drop
                } else {
                    Route::Feed { conn_id: copy_bytes(dcid) }
                }
            },
            None => match candidate {
                Some(id) => {
                    if same_bytes(id.as_slice(), dcid) {
                        Route::Drop
                    } else {
                        match self.find(id.as_slice()) {
                            Some(_) => Route::Drop,
                            None => Route::Accept { local_id: id },
                        }
                    }
                },
                None => Route::Drop,
            },
        }
    }

    /// Where a datagram for `dcid` belongs. One for a tracked connection is
    /// routed as [`route_of`] says. For one that opens a connection a
    /// random id of full length is drawn: it is accepted under that id, or
    /// dropped where none could be drawn, the id is taken or the id is the
    /// one that the peer chose.
    pub fn route(&self, dcid: &[u8]) -> (route: Route)
        requires
            self.wf(),
        ensures
            self@.stopped || tracks(self@.conns, dcid@) ==> route@ == route_of(self@, dcid@, None),
            !self@.stopped && !tracks(self@.conns, dcid@) ==> route@ is Drop || (route@
                matches RouteView::Accept { local_id } && local_id.len() == MAX_CONN_ID_LEN
                && local_id != dcid@ && !tracks(self@.conns, local_id)),
    {
        if self.stopped {
            return Route::Drop;
        }
        match self.find(dcid) {
            Some(_) => self.route_with(dcid, None),
            None => self.route_with(dcid, fresh_connection_id()),
        }
    }
}

} // verus!
