//! What holds of a connecting side whatever happens to it.

use crate::client::{
    client_step, mismatch_closed_reason, mismatch_message, mismatch_reason, ClientInput,
    ClientPhase, ClientView,
};
use crate::event::{CommandView, EventView, ReactionView, CLOSE_CODE_FINGERPRINT_MISMATCH};
use crate::trace::{
    closed_at_most_once, connected_once_and_first, in_progress, lemma_in_progress_extends,
    lemma_in_progress_then_closed, lemma_order_weakens, lemma_quiet_extends,
    lemma_quiet_then_connected, orderly, quiet, silent_after_closed,
};
use crate::trust::client_trusts;
use vstd::prelude::*;

verus! {

/// What a connecting side becomes, and the events that it emits, when the
/// given things happen one after the other.
pub open spec fn client_run(s: ClientView, inputs: Seq<ClientInput>) -> (ClientView, Seq<EventView>)
    decreases inputs.len(),
{
    if inputs.len() == 0 {
        (s, Seq::empty())
    } else {
        let before = client_run(s, inputs.drop_last());
        let step = client_step(before.0, inputs.last());
        (step.0, before.1 + step.1.events)
    }
}

/// No event but the last is a `Closed`.
pub open spec fn closed_only_last(trace: Seq<EventView>) -> bool {
    forall|i: int| 0 <= i < trace.len() - 1 ==> !(#[trigger] trace[i] is Closed)
}

/// No event is a `Closed`.
pub open spec fn never_closed(trace: Seq<EventView>) -> bool {
    forall|i: int| 0 <= i < trace.len() ==> !(#[trigger] trace[i] is Closed)
}

/// How the events emitted so far go with the phase that was reached.
pub open spec fn client_trace_fits(
    phase: ClientPhase,
    trace: Seq<EventView>,
    id: Seq<char>,
) -> bool {
    match phase {
        ClientPhase::Handshaking => quiet(trace, id) && never_closed(trace),
        ClientPhase::Rejected => quiet(trace, id) && never_closed(trace),
        ClientPhase::Announced => in_progress(trace, id) && never_closed(trace),
        ClientPhase::Finished => orderly(trace, id) && closed_only_last(trace),
    }
}

proof fn lemma_client_step_fits(s: ClientView, trace: Seq<EventView>, input: ClientInput)
    requires
        client_trace_fits(s.phase, trace, s.id_text()),
    ensures
        client_trace_fits(
            client_step(s, input).0.phase,
            trace + client_step(s, input).1.events,
            s.id_text(),
        ),
        client_step(s, input).0 == s.in_phase(client_step(s, input).0.phase),
        s.phase == ClientPhase::Finished ==> client_step(s, input).1.events.len() == 0,
{
    let id = s.id_text();
    let next = client_step(s, input).0;
    let more = client_step(s, input).1.events;
    let all = trace + more;
    lemma_order_weakens(trace, id);
    if more.len() == 0 {
        assert(all =~= trace);
    } else {
        assert(more.len() == 1);
        assert(all =~= trace.push(more[0]));
        assert(more.drop_last() =~= Seq::<EventView>::empty());
        assert forall|i: int| 0 <= i < all.len() - 1 implies all[i] == trace[i] by {}
        match input {
            ClientInput::Command(_) => {},
            ClientInput::Failure { kind, detail } => {
                lemma_order_weakens(more, id);
                if s.phase == ClientPhase::Announced {
                    lemma_in_progress_extends(trace, more, id);
                    lemma_order_weakens(all, id);
                } else {
                    lemma_quiet_extends(trace, more, id);
                    lemma_order_weakens(all, id);
                }
            },
            ClientInput::Established { peer_fingerprint } => {
                if client_trusts(s.pin, peer_fingerprint) {
                    lemma_quiet_then_connected(trace, more[0], id);
                } else {
                    lemma_quiet_extends(trace, more, id);
                }
            },
            ClientInput::StreamData { chunk } => {
                lemma_in_progress_extends(trace, more, id);
            },
            ClientInput::Closed { peer_error } => {
                lemma_in_progress_then_closed(trace, more, id);
            },
        }
    }
}

proof fn lemma_client_run_fits(s: ClientView, inputs: Seq<ClientInput>)
    ensures
        client_trace_fits(client_run(s, inputs).0.phase, client_run(s, inputs).1, s.id_text()),
        client_run(s, inputs).0 == s.in_phase(client_run(s, inputs).0.phase),
    decreases inputs.len(),
{
    if inputs.len() > 0 {
        lemma_client_run_fits(s, inputs.drop_last());
        let before = client_run(s, inputs.drop_last());
        lemma_client_step_fits(before.0, before.1, inputs.last());
    }
}

/// Whatever happens to a connecting side, its `Connected` is emitted at
/// most once and before any `Message` or `Closed`, its `Closed` at most
/// once, and `Closed` is the last event that it emits.
pub proof fn lemma_client_events_in_order(s: ClientView, inputs: Seq<ClientInput>)
    ensures
        connected_once_and_first(client_run(s, inputs).1, s.id_text()),
        silent_after_closed(client_run(s, inputs).1, s.id_text()),
        closed_at_most_once(client_run(s, inputs).1, s.id_text()),
        closed_only_last(client_run(s, inputs).1),
{
    lemma_client_run_fits(s, inputs);
    lemma_order_weakens(client_run(s, inputs).1, s.id_text());
}

/// Once the loop is over nothing more is emitted.
pub proof fn lemma_client_finished_is_silent(s: ClientView, inputs: Seq<ClientInput>)
    requires
        s.phase == ClientPhase::Finished,
    ensures
        client_run(s, inputs).0 == s,
        client_run(s, inputs).1 == Seq::<EventView>::empty(),
    decreases inputs.len(),
{
    if inputs.len() > 0 {
        lemma_client_finished_is_silent(s, inputs.drop_last());
        assert(client_run(s, inputs).1 =~= Seq::<EventView>::empty());
    }
}

/// A peer whose fingerprint is not the pinned one is never announced: the
/// side reports an `Error`, asks for a close with the mismatch code, and
/// whatever happens afterwards emits no `Connected`, and no `Closed` but
/// the one that gives the mismatch and its close code as the reason.
pub proof fn lemma_client_rejects_mismatch(
    s: ClientView,
    peer_fingerprint: Seq<char>,
    inputs: Seq<ClientInput>,
)
    requires
        s.phase == ClientPhase::Handshaking,
        !client_trusts(s.pin, peer_fingerprint),
    ensures
        ({
            let step = client_step(s, ClientInput::Established { peer_fingerprint });
            let later = client_run(step.0, inputs);
            &&& step.0 == s.in_phase(ClientPhase::Rejected)
            &&& step.1.events == seq![
                EventView::Error {
                    handle: s.handle,
                    connection_id: Some(s.id_text()),
                    message: mismatch_message(),
                },
            ]
            &&& step.1.actions == seq![
                s.close_action(CLOSE_CODE_FINGERPRINT_MISMATCH, mismatch_reason()),
            ]
            &&& later.0.phase == ClientPhase::Rejected || later.0.phase == ClientPhase::Finished
            &&& forall|i: int|
                0 <= i < later.1.len() ==> !(#[trigger] later.1[i] is Connected) && (later.1[i]
                    is Closed ==> later.1[i] == EventView::Closed {
                    handle: s.handle,
                    connection_id: s.id_text(),
                    reason: Some(mismatch_closed_reason()),
                })
        }),
{
    let step = client_step(s, ClientInput::Established { peer_fingerprint });
    lemma_client_rejected_run(step.0, inputs);
}

proof fn lemma_client_rejected_run(s: ClientView, inputs: Seq<ClientInput>)
    requires
        s.phase == ClientPhase::Rejected || s.phase == ClientPhase::Finished,
    ensures
        ({
            let later = client_run(s, inputs);
            &&& later.0 == s.in_phase(later.0.phase)
            &&& later.0.phase == ClientPhase::Rejected || later.0.phase == ClientPhase::Finished
            &&& s.phase == ClientPhase::Finished ==> later.0.phase == ClientPhase::Finished
            &&& forall|i: int|
                0 <= i < later.1.len() ==> !(#[trigger] later.1[i] is Connected) && (later.1[i]
                    is Closed ==> later.1[i] == EventView::Closed {
                    handle: s.handle,
                    connection_id: s.id_text(),
                    reason: Some(mismatch_closed_reason()),
                })
        }),
    decreases inputs.len(),
{
    if inputs.len() > 0 {
        lemma_client_rejected_run(s, inputs.drop_last());
        let before = client_run(s, inputs.drop_last());
        let step = client_step(before.0, inputs.last());
        let later = client_run(s, inputs);
        assert forall|i: int| 0 <= i < later.1.len() implies !(#[trigger] later.1[i] is Connected)
            && (later.1[i] is Closed ==> later.1[i] == EventView::Closed {
            handle: s.handle,
            connection_id: s.id_text(),
            reason: Some(mismatch_closed_reason()),
        }) by {
            if i < before.1.len() {
                assert(later.1[i] == before.1[i]);
            } else {
                assert(later.1[i] == step.1.events[i - before.1.len()]);
            }
        }
    }
}

/// A `Send` for another connection than the side's own changes nothing and
/// asks nothing.
pub proof fn lemma_client_ignores_foreign_send(s: ClientView, conn_id: Seq<u8>, payload: Seq<u8>)
    requires
        conn_id != s.conn_id,
    ensures
        client_step(s, ClientInput::Command(CommandView::Send { conn_id, payload })) == (
            s,
            ReactionView::nothing(),
        ),
{
}

} // verus!
