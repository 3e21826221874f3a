//! What holds of an accepting side whatever happens to it.

use crate::client::{client_step, ClientInput, ClientPhase, ClientView};
use crate::event::{
    base64_bytes, base64_text, lemma_base64_round_trip, ActionView, CommandView, EventView,
    ReactionView, CLOSE_CODE_SERVER, CLOSE_CODE_UNTRUSTED_CLIENT, CONTROL_STREAM_ID,
};
use crate::hexcode::{hex_text, lemma_hex_text_injective};
use crate::conns::{
    is_live, kept, lemma_phase_after_sweep, lemma_pushed, lemma_with_phase, phase_of, retired_ids,
    tracks, ConnPhase, ConnView,
};
use crate::server::{
    close_action, close_all, only_actions, only_events, server_close_reason, server_step,
    untrusted_closed_reason, untrusted_reason, ServerInput, ServerView,
};
use crate::trace::{
    closed_at_most_once, connected_once_and_first, in_progress, lemma_in_progress_extends,
    lemma_in_progress_then_closed, lemma_order_weakens, lemma_others_extend,
    lemma_quiet_then_connected, orderly, quiet, silent, silent_after_closed,
};
use crate::trust::server_trusts;
use vstd::prelude::*;

verus! {

/// What an accepting side becomes, and the events that it emits, when the
/// given things happen one after the other.
pub open spec fn server_run(s: ServerView, inputs: Seq<ServerInput>) -> (ServerView, Seq<EventView>)
    decreases inputs.len(),
{
    if inputs.len() == 0 {
        (s, Seq::empty())
    } else {
        let before = server_run(s, inputs.drop_last());
        let step = server_step(before.0, inputs.last());
        (step.0, before.1 + step.1.events)
    }
}

/// The id under which the input has a connection accepted, if it does.
pub open spec fn accepted_id(input: ServerInput) -> Option<Seq<u8>> {
    match input {
        ServerInput::Accepted { conn_id } => Some(conn_id),
        _ => None,
    }
}

/// The connection that the input speaks of, if it speaks of one.
pub open spec fn subject(input: ServerInput) -> Option<Seq<u8>> {
    match input {
        ServerInput::Accepted { conn_id } => Some(conn_id),
        ServerInput::SendFailed { conn_id, .. } => Some(conn_id),
        ServerInput::Established { conn_id, .. } => Some(conn_id),
        ServerInput::StreamData { conn_id, .. } => Some(conn_id),
        ServerInput::Closed { conn_id, .. } => Some(conn_id),
        _ => None,
    }
}

/// Whether the input has a connection accepted under the id and the side
/// takes it in: the side is running and does not track the id.
pub open spec fn registers(s: ServerView, input: ServerInput, id: Seq<u8>) -> bool {
    !s.stopped && accepted_id(input) == Some(id) && !tracks(s.conns, id)
}

/// What the side has become when the input at the given place arrives.
pub open spec fn state_before(s: ServerView, inputs: Seq<ServerInput>, at: int) -> ServerView {
    server_run(s, inputs.take(at)).0
}

/// The id is given to one connection at most: where the side takes a
/// connection in under it, it has not tracked the id before, neither at
/// the start nor since.
pub open spec fn registered_once(s: ServerView, inputs: Seq<ServerInput>, id: Seq<u8>) -> bool {
    forall|j: int|
        0 <= j < inputs.len() && registers(#[trigger] state_before(s, inputs, j), inputs[j], id)
            ==> !tracks(s.conns, id) && forall|i: int|
            0 <= i < j ==> !registers(#[trigger] state_before(s, inputs, i), inputs[i], id)
}

/// Whether the side has tracked the id, at the start or since.
pub open spec fn was_tracked(s: ServerView, inputs: Seq<ServerInput>, id: Seq<u8>) -> bool {
    tracks(s.conns, id) || exists|i: int|
        0 <= i < inputs.len() && registers(#[trigger] state_before(s, inputs, i), inputs[i], id)
}

/// The events emitted since the side last took a connection in under the
/// id; all events, where it never did.
pub open spec fn events_since_registered(
    s: ServerView,
    inputs: Seq<ServerInput>,
    id: Seq<u8>,
) -> Seq<EventView>
    decreases inputs.len(),
{
    if inputs.len() == 0 {
        Seq::empty()
    } else {
        let before = server_run(s, inputs.drop_last()).0;
        if registers(before, inputs.last(), id) {
            Seq::empty()
        } else {
            events_since_registered(s, inputs.drop_last(), id) + server_step(
                before,
                inputs.last(),
            ).1.events
        }
    }
}

/// How the events emitted so far go with the phase of a connection.
pub open spec fn server_trace_fits(
    phase: Option<ConnPhase>,
    used: bool,
    trace: Seq<EventView>,
    id: Seq<char>,
) -> bool {
    match phase {
        Some(ConnPhase::Handshaking) => used && quiet(trace, id),
        Some(ConnPhase::Announced) => used && in_progress(trace, id),
        Some(ConnPhase::Retired) => used && orderly(trace, id),
        None => if used {
            orderly(trace, id)
        } else {
            quiet(trace, id)
        },
    }
}

proof fn lemma_server_step_fits(
    s: ServerView,
    trace: Seq<EventView>,
    input: ServerInput,
    id: Seq<u8>,
    used: bool,
)
    requires
        s.well_formed(),
        server_trace_fits(phase_of(s.conns, id), used, trace, hex_text(id)),
        registers(s, input, id) ==> !used,
    ensures
        server_step(s, input).0.well_formed(),
        server_step(s, input).0.handle == s.handle,
        server_step(s, input).0.allowlist == s.allowlist,
        server_trace_fits(
            phase_of(server_step(s, input).0.conns, id),
            used || registers(s, input, id),
            trace + server_step(s, input).1.events,
            hex_text(id),
        ),
{
    let tx = hex_text(id);
    let next = server_step(s, input).0;
    let more = server_step(s, input).1.events;
    let all = trace + more;
    let phase = phase_of(s.conns, id);
    lemma_order_weakens(trace, tx);
    if more.len() == 0 {
        assert(all =~= trace);
    }
    if s.stopped {
    } else {
        match input {
            ServerInput::Command(_) => {},
            ServerInput::Failure { kind, detail } => {
                lemma_others_extend(trace, more, tx);
            },
            ServerInput::Sweep => {
                lemma_phase_after_sweep(s.conns, id);
            },
            ServerInput::Accepted { conn_id } => {
                if !tracks(s.conns, conn_id) {
                    lemma_pushed(s.conns, conn_id, id);
                }
            },
            _ => {
                let about = subject(input)->0;
                if next != s {
                    lemma_with_phase(s.conns, about, phase_of(next.conns, about)->0, id);
                }
                if about != id {
                    if hex_text(about) == tx {
                        lemma_hex_text_injective(about, id);
                    }
                    lemma_others_extend(trace, more, tx);
                } else if more.len() > 0 {
                    match input {
                        ServerInput::SendFailed { conn_id, detail } => {
                            lemma_in_progress_extends(trace, more, tx);
                            lemma_order_weakens(all, tx);
                        },
                        ServerInput::Established { conn_id, peer_fingerprint } => {
                            if server_trusts(s.allowlist, peer_fingerprint) {
                                assert(all =~= trace.push(more[0]));
                                lemma_quiet_then_connected(trace, more[0], tx);
                            } else {
                                assert(more.drop_last() =~= seq![more[0]]);
                                lemma_in_progress_then_closed(trace, more, tx);
                            }
                        },
                        ServerInput::StreamData { conn_id, chunk } => {
                            lemma_in_progress_extends(trace, more, tx);
                        },
                        ServerInput::Closed { conn_id, peer_error } => {
                            assert(more.drop_last() =~= Seq::<EventView>::empty());
                            lemma_in_progress_then_closed(trace, more, tx);
                        },
                        _ => {},
                    }
                }
            },
        }
    }
}

proof fn lemma_state_before_front(s: ServerView, inputs: Seq<ServerInput>, at: int)
    requires
        0 <= at < inputs.len(),
    ensures
        state_before(s, inputs.drop_last(), at) == state_before(s, inputs, at),
        inputs.drop_last()[at] == inputs[at] || at == inputs.len() - 1,
        state_before(s, inputs, inputs.len() - 1) == server_run(s, inputs.drop_last()).0,
{
    assert(inputs.drop_last().take(at) =~= inputs.take(at));
    assert(inputs.take(inputs.len() - 1) =~= inputs.drop_last());
}

proof fn lemma_registered_once_front(s: ServerView, inputs: Seq<ServerInput>, id: Seq<u8>)
    requires
        registered_once(s, inputs, id),
        inputs.len() > 0,
    ensures
        registered_once(s, inputs.drop_last(), id),
        was_tracked(s, inputs, id) == (was_tracked(s, inputs.drop_last(), id) || registers(
            server_run(s, inputs.drop_last()).0,
            inputs.last(),
            id,
        )),
        registers(server_run(s, inputs.drop_last()).0, inputs.last(), id) ==> !was_tracked(
            s,
            inputs.drop_last(),
            id,
        ),
        tracks(s.conns, id) ==> !registers(server_run(s, inputs.drop_last()).0, inputs.last(), id),
{
    let front = inputs.drop_last();
    let n = inputs.len() - 1;
    lemma_state_before_front(s, inputs, n);
    assert forall|j: int|
        0 <= j < front.len() && registers(
            #[trigger] state_before(s, front, j),
            front[j],
            id,
        ) implies !tracks(s.conns, id) && forall|i: int|
        0 <= i < j ==> !registers(#[trigger] state_before(s, front, i), front[i], id) by {
        lemma_state_before_front(s, inputs, j);
        assert(registers(state_before(s, inputs, j), inputs[j], id));
        assert forall|i: int| 0 <= i < j implies !registers(
            #[trigger] state_before(s, front, i),
            front[i],
            id,
        ) by {
            lemma_state_before_front(s, inputs, i);
            assert(!registers(state_before(s, inputs, i), inputs[i], id));
        }
    }
    let last_registers = registers(server_run(s, front).0, inputs.last(), id);
    assert(last_registers == registers(state_before(s, inputs, n), inputs[n], id));
    if was_tracked(s, front, id) && !tracks(s.conns, id) {
        let i = choose|i: int|
            0 <= i < front.len() && registers(#[trigger] state_before(s, front, i), front[i], id);
        lemma_state_before_front(s, inputs, i);
        assert(registers(state_before(s, inputs, i), inputs[i], id));
        assert(was_tracked(s, inputs, id));
        assert(!last_registers);
    }
    if last_registers {
        assert(was_tracked(s, inputs, id));
    }
    if was_tracked(s, inputs, id) && !tracks(s.conns, id) {
        let i = choose|i: int|
            0 <= i < inputs.len() && registers(
                #[trigger] state_before(s, inputs, i),
                inputs[i],
                id,
            );
        if i < n {
            lemma_state_before_front(s, inputs, i);
            assert(registers(state_before(s, front, i), front[i], id));
        }
    }
}

proof fn lemma_server_run_fits(s: ServerView, inputs: Seq<ServerInput>, id: Seq<u8>)
    requires
        s.well_formed(),
        registered_once(s, inputs, id),
    ensures
        server_run(s, inputs).0.well_formed(),
        server_run(s, inputs).0.handle == s.handle,
        server_run(s, inputs).0.allowlist == s.allowlist,
        server_trace_fits(
            phase_of(server_run(s, inputs).0.conns, id),
            was_tracked(s, inputs, id),
            server_run(s, inputs).1,
            hex_text(id),
        ),
    decreases inputs.len(),
{
    if inputs.len() == 0 {
        assert(!was_tracked(s, inputs, id) ==> phase_of(s.conns, id) is None);
    } else {
        let front = inputs.drop_last();
        lemma_registered_once_front(s, inputs, id);
        lemma_server_run_fits(s, front, id);
        let before = server_run(s, front);
        lemma_server_step_fits(before.0, before.1, inputs.last(), id, was_tracked(s, front, id));
    }
}

/// Whatever happens to an accepting side, as long as it gives the id to
/// one connection at most: the `Connected` of that connection is emitted
/// at most once and before any `Message` or `Closed` of it, its `Closed`
/// at most once, and after its `Closed` no event speaks of it.
pub proof fn lemma_server_events_in_order(s: ServerView, inputs: Seq<ServerInput>, id: Seq<u8>)
    requires
        s.well_formed(),
        registered_once(s, inputs, id),
    ensures
        connected_once_and_first(server_run(s, inputs).1, hex_text(id)),
        silent_after_closed(server_run(s, inputs).1, hex_text(id)),
        closed_at_most_once(server_run(s, inputs).1, hex_text(id)),
{
    lemma_server_run_fits(s, inputs, id);
    lemma_order_weakens(server_run(s, inputs).1, hex_text(id));
}

proof fn lemma_since_registered_fits(s: ServerView, inputs: Seq<ServerInput>, id: Seq<u8>)
    requires
        s.well_formed(),
    ensures
        server_run(s, inputs).0.well_formed(),
        server_trace_fits(
            phase_of(server_run(s, inputs).0.conns, id),
            true,
            events_since_registered(s, inputs, id),
            hex_text(id),
        ),
    decreases inputs.len(),
{
    if inputs.len() > 0 {
        let front = inputs.drop_last();
        lemma_since_registered_fits(s, front, id);
        let before = server_run(s, front);
        if registers(before.0, inputs.last(), id) {
            let none = Seq::<EventView>::empty();
            lemma_server_step_fits(before.0, none, inputs.last(), id, false);
            assert(none + server_step(before.0, inputs.last()).1.events =~= none);
        } else {
            lemma_server_step_fits(
                before.0,
                events_since_registered(s, front, id),
                inputs.last(),
                id,
                true,
            );
        }
    }
}

/// Whatever happens to an accepting side, with no condition on the ids:
/// among the events emitted since the side last took a connection in under
/// an id, the `Connected` of that id comes at most once and before any
/// `Message` or `Closed` of it, its `Closed` at most once, and after its
/// `Closed` no event speaks of it.
pub proof fn lemma_server_connection_events_in_order(
    s: ServerView,
    inputs: Seq<ServerInput>,
    id: Seq<u8>,
)
    requires
        s.well_formed(),
    ensures
        connected_once_and_first(events_since_registered(s, inputs, id), hex_text(id)),
        silent_after_closed(events_since_registered(s, inputs, id), hex_text(id)),
        closed_at_most_once(events_since_registered(s, inputs, id), hex_text(id)),
{
    lemma_since_registered_fits(s, inputs, id);
    lemma_order_weakens(events_since_registered(s, inputs, id), hex_text(id));
}

/// Where the id is given to one connection at most, the events since the
/// side last took a connection in under it are all the events that speak
/// of it: none did before.
pub proof fn lemma_registered_once_covers_all(
    s: ServerView,
    inputs: Seq<ServerInput>,
    id: Seq<u8>,
)
    requires
        s.well_formed(),
        registered_once(s, inputs, id),
    ensures
        exists|before: Seq<EventView>|
            silent(before, hex_text(id)) && server_run(s, inputs).1 == #[trigger] (before
                + events_since_registered(s, inputs, id)),
    decreases inputs.len(),
{
    let tx = hex_text(id);
    let since = events_since_registered(s, inputs, id);
    if inputs.len() == 0 {
        let before = Seq::<EventView>::empty();
        assert(server_run(s, inputs).1 =~= before + since);
    } else {
        let front = inputs.drop_last();
        lemma_registered_once_front(s, inputs, id);
        let run = server_run(s, front);
        let more = server_step(run.0, inputs.last()).1.events;
        if registers(run.0, inputs.last(), id) {
            lemma_server_run_fits(s, front, id);
            lemma_server_run_fits(s, inputs, id);
            assert(more =~= Seq::<EventView>::empty());
            assert(phase_of(run.0.conns, id) is None);
            lemma_never_tracked_is_silent(s, front, id);
            let before = server_run(s, inputs).1;
            assert(before =~= run.1);
            assert(server_run(s, inputs).1 =~= before + since);
        } else {
            lemma_registered_once_covers_all(s, front, id);
            let before = choose|before: Seq<EventView>|
                silent(before, tx) && run.1 == #[trigger] (before + events_since_registered(
                    s,
                    front,
                    id,
                ));
            assert(server_run(s, inputs).1 =~= before + since);
        }
    }
}

proof fn lemma_never_tracked_is_silent(s: ServerView, inputs: Seq<ServerInput>, id: Seq<u8>)
    requires
        s.well_formed(),
        registered_once(s, inputs, id),
        !was_tracked(s, inputs, id),
    ensures
        silent(server_run(s, inputs).1, hex_text(id)),
        !tracks(server_run(s, inputs).0.conns, id),
        server_run(s, inputs).0.well_formed(),
    decreases inputs.len(),
{
    if inputs.len() > 0 {
        let front = inputs.drop_last();
        lemma_registered_once_front(s, inputs, id);
        lemma_never_tracked_is_silent(s, front, id);
        let before = server_run(s, front);
        lemma_server_step_silent(before.0, before.1, inputs.last(), id);
    }
}

proof fn lemma_server_step_silent(
    s: ServerView,
    trace: Seq<EventView>,
    input: ServerInput,
    id: Seq<u8>,
)
    requires
        s.well_formed(),
        !is_live(s.conns, id),
        silent(trace, hex_text(id)),
        !registers(s, input, id),
    ensures
        server_step(s, input).0.well_formed(),
        !is_live(server_step(s, input).0.conns, id),
        tracks(server_step(s, input).0.conns, id) ==> tracks(s.conns, id),
        silent(trace + server_step(s, input).1.events, hex_text(id)),
{
    let tx = hex_text(id);
    let next = server_step(s, input).0;
    let more = server_step(s, input).1.events;
    if more.len() == 0 {
        assert(trace + more =~= trace);
    }
    if s.stopped {
    } else {
        match input {
            ServerInput::Command(_) => {},
            ServerInput::Failure { kind, detail } => {
                lemma_others_extend(trace, more, tx);
            },
            ServerInput::Sweep => {
                lemma_phase_after_sweep(s.conns, id);
            },
            ServerInput::Accepted { conn_id } => {
                if !tracks(s.conns, conn_id) {
                    lemma_pushed(s.conns, conn_id, id);
                }
            },
            _ => {
                let about = subject(input)->0;
                if next != s {
                    lemma_with_phase(s.conns, about, phase_of(next.conns, about)->0, id);
                }
                if about != id {
                    if hex_text(about) == tx {
                        lemma_hex_text_injective(about, id);
                    }
                    lemma_others_extend(trace, more, tx);
                }
            },
        }
    }
}

/// Once a connection is retired no event speaks of it, whatever happens,
/// as long as the side takes no other connection in under its id; and it
/// never comes back to life.
pub proof fn lemma_server_retired_is_silent(s: ServerView, inputs: Seq<ServerInput>, id: Seq<u8>)
    requires
        s.well_formed(),
        registered_once(s, inputs, id),
        phase_of(s.conns, id) == Some(ConnPhase::Retired),
    ensures
        silent(server_run(s, inputs).1, hex_text(id)),
        !is_live(server_run(s, inputs).0.conns, id),
        server_run(s, inputs).0.well_formed(),
    decreases inputs.len(),
{
    if inputs.len() > 0 {
        let front = inputs.drop_last();
        lemma_registered_once_front(s, inputs, id);
        lemma_server_retired_is_silent(s, front, id);
        let before = server_run(s, front);
        lemma_server_step_silent(before.0, before.1, inputs.last(), id);
    }
}

/// The events emitted until the side next takes a connection in under the
/// id; all events, where it never does.
pub open spec fn events_until_registered(
    s: ServerView,
    inputs: Seq<ServerInput>,
    id: Seq<u8>,
) -> Seq<EventView>
    decreases inputs.len(),
{
    if inputs.len() == 0 || registers(s, inputs[0], id) {
        Seq::empty()
    } else {
        server_step(s, inputs[0]).1.events + events_until_registered(
            server_step(s, inputs[0]).0,
            inputs.drop_first(),
            id,
        )
    }
}

/// Whatever happens to an accepting side, with no condition on the ids:
/// once a connection is retired or gone, no event speaks of its id until
/// the side takes another connection in under that id.
pub proof fn lemma_server_gone_is_silent(s: ServerView, inputs: Seq<ServerInput>, id: Seq<u8>)
    requires
        s.well_formed(),
        !is_live(s.conns, id),
    ensures
        silent(events_until_registered(s, inputs, id), hex_text(id)),
    decreases inputs.len(),
{
    if inputs.len() > 0 && !registers(s, inputs[0], id) {
        let step = server_step(s, inputs[0]);
        let none = Seq::<EventView>::empty();
        lemma_server_step_silent(s, none, inputs[0], id);
        assert(none + step.1.events =~= step.1.events);
        lemma_server_gone_is_silent(step.0, inputs.drop_first(), id);
        lemma_others_extend(
            step.1.events,
            events_until_registered(step.0, inputs.drop_first(), id),
            hex_text(id),
        );
    }
}

/// A peer outside a non-empty allowlist is not announced: the side reports
/// an `Error` and then the `Closed` of the connection, asks the engine to
/// close it with the code for untrusted peers, and retires it.
pub proof fn lemma_server_rejects_untrusted(
    s: ServerView,
    conn_id: Seq<u8>,
    peer_fingerprint: Seq<char>,
)
    requires
        s.well_formed(),
        !s.stopped,
        phase_of(s.conns, conn_id) == Some(ConnPhase::Handshaking),
        !server_trusts(s.allowlist, peer_fingerprint),
    ensures
        ({
            let step = server_step(s, ServerInput::Established { conn_id, peer_fingerprint });
            &&& phase_of(step.0.conns, conn_id) == Some(ConnPhase::Retired)
            &&& step.1.events == seq![
                EventView::Error {
                    handle: s.handle,
                    connection_id: Some(hex_text(conn_id)),
                    message: untrusted_reason(),
                },
                EventView::Closed {
                    handle: s.handle,
                    connection_id: hex_text(conn_id),
                    reason: Some(untrusted_closed_reason()),
                },
            ]
            &&& step.1.actions == seq![
                close_action(conn_id, CLOSE_CODE_UNTRUSTED_CLIENT, untrusted_reason()),
            ]
        }),
{
    lemma_with_phase(s.conns, conn_id, ConnPhase::Retired, conn_id);
}

/// An empty allowlist accepts every peer: the connection is announced with
/// whatever fingerprint its peer has.
pub proof fn lemma_server_empty_allowlist_accepts(
    s: ServerView,
    conn_id: Seq<u8>,
    peer_fingerprint: Seq<char>,
)
    requires
        s.well_formed(),
        !s.stopped,
        phase_of(s.conns, conn_id) == Some(ConnPhase::Handshaking),
        s.allowlist == Set::<Seq<char>>::empty(),
    ensures
        ({
            let step = server_step(s, ServerInput::Established { conn_id, peer_fingerprint });
            &&& phase_of(step.0.conns, conn_id) == Some(ConnPhase::Announced)
            &&& step.1 == ReactionView {
                events: seq![
                    EventView::Connected {
                        handle: s.handle,
                        connection_id: hex_text(conn_id),
                        peer_fingerprint,
                    },
                ],
                actions: Seq::empty(),
            }
        }),
{
    lemma_with_phase(s.conns, conn_id, ConnPhase::Announced, conn_id);
}

/// A `Send` for a connection that is not tracked changes nothing, reports
/// nothing and asks nothing.
pub proof fn lemma_server_ignores_unknown_send(s: ServerView, conn_id: Seq<u8>, payload: Seq<u8>)
    requires
        !tracks(s.conns, conn_id),
    ensures
        server_step(s, ServerInput::Command(CommandView::Send { conn_id, payload })) == (
            s,
            ReactionView::nothing(),
        ),
{
}

/// Closing the whole session asks one close of each connection that a
/// sweep would keep, in their order, and of no other.
pub proof fn lemma_close_all_matches_kept(conns: Seq<ConnView>)
    ensures
        close_all(conns).len() == kept(conns).len(),
        forall|j: int|
            0 <= j < kept(conns).len() ==> #[trigger] close_all(conns)[j] == close_action(
                kept(conns)[j].id,
                CLOSE_CODE_SERVER,
                server_close_reason(),
            ),
    decreases conns.len(),
{
    if conns.len() > 0 {
        lemma_close_all_matches_kept(conns.drop_last());
    }
}

/// Once every connection is retired, the sweep leaves none and hands back
/// the id of each.
pub proof fn lemma_sweep_drops_all_retired(conns: Seq<ConnView>)
    requires
        forall|i: int| 0 <= i < conns.len() ==> (#[trigger] conns[i]).phase == ConnPhase::Retired,
    ensures
        kept(conns).len() == 0,
        retired_ids(conns).len() == conns.len(),
        forall|i: int| 0 <= i < conns.len() ==> #[trigger] retired_ids(conns)[i] == conns[i].id,
    decreases conns.len(),
{
    if conns.len() > 0 {
        let front = conns.drop_last();
        assert forall|i: int| 0 <= i < front.len() implies (#[trigger] front[i]).phase
            == ConnPhase::Retired by {
            assert(front[i] == conns[i]);
        }
        lemma_sweep_drops_all_retired(front);
        assert forall|i: int| 0 <= i < conns.len() implies #[trigger] retired_ids(conns)[i]
            == conns[i].id by {
            if i < front.len() {
                assert(retired_ids(conns)[i] == retired_ids(front)[i]);
                assert(front[i] == conns[i]);
            }
        }
    }
}

/// A payload goes from an accepting side to a connecting side whole and
/// once: the `Send` asks the engine for one write of the payload as it is,
/// and the bytes that the engine reads on the other side are reported in
/// one `Message` whose text reads back as those bytes.
pub proof fn lemma_payload_reaches_client(
    sender: ServerView,
    receiver: ClientView,
    conn_id: Seq<u8>,
    payload: Seq<u8>,
)
    requires
        !sender.stopped,
        phase_of(sender.conns, conn_id) == Some(ConnPhase::Announced),
        receiver.phase == ClientPhase::Announced,
    ensures
        server_step(sender, ServerInput::Command(CommandView::Send { conn_id, payload })) == (
            sender,
            only_actions(
                seq![
                    ActionView::StreamSend {
                        conn_id,
                        stream_id: CONTROL_STREAM_ID,
                        payload,
                        fin: false,
                    },
                ],
            ),
        ),
        client_step(receiver, ClientInput::StreamData { chunk: payload }) == (
            receiver,
            only_events(
                seq![
                    EventView::Message {
                        handle: receiver.handle,
                        connection_id: receiver.id_text(),
                        data_base64: base64_text(payload),
                    },
                ],
            ),
        ),
        base64_bytes(base64_text(payload)) == payload,
{
    lemma_base64_round_trip(payload);
}

/// A payload goes from a connecting side to an accepting side whole and
/// once, in the same way.
pub proof fn lemma_payload_reaches_server(
    sender: ClientView,
    receiver: ServerView,
    conn_id: Seq<u8>,
    payload: Seq<u8>,
)
    requires
        sender.phase == ClientPhase::Announced,
        !receiver.stopped,
        phase_of(receiver.conns, conn_id) == Some(ConnPhase::Announced),
    ensures
        client_step(
            sender,
            ClientInput::Command(CommandView::Send { conn_id: sender.conn_id, payload }),
        ) == (
            sender,
            only_actions(
                seq![
                    ActionView::StreamSend {
                        conn_id: sender.conn_id,
                        stream_id: CONTROL_STREAM_ID,
                        payload,
                        fin: false,
                    },
                ],
            ),
        ),
        server_step(receiver, ServerInput::StreamData { conn_id, chunk: payload }) == (
            receiver,
            only_events(
                seq![
                    EventView::Message {
                        handle: receiver.handle,
                        connection_id: hex_text(conn_id),
                        data_base64: base64_text(payload),
                    },
                ],
            ),
        ),
        base64_bytes(base64_text(payload)) == payload,
{
    lemma_base64_round_trip(payload);
}

} // verus!
