//! The order that the events of one connection keep: `Connected` at most
//! once and before any `Message` or `Closed`, and nothing after `Closed`.

use crate::event::EventView;
use vstd::prelude::*;

verus! {

/// Whether the event is the `Connected` of the connection.
pub open spec fn is_connected_for(e: EventView, id: Seq<char>) -> bool {
    e matches EventView::Connected { connection_id, .. } && connection_id == id
}

/// Whether the event is a `Message` of the connection.
pub open spec fn is_message_for(e: EventView, id: Seq<char>) -> bool {
    e matches EventView::Message { connection_id, .. } && connection_id == id
}

/// Whether the event is the `Closed` of the connection.
pub open spec fn is_closed_for(e: EventView, id: Seq<char>) -> bool {
    e matches EventView::Closed { connection_id, .. } && connection_id == id
}

/// Whether the event speaks of the connection.
pub open spec fn is_about(e: EventView, id: Seq<char>) -> bool {
    e.about() == Some(id)
}

/// No `Connected`, `Message` or `Closed` of the connection has been
/// emitted.
pub open spec fn quiet(trace: Seq<EventView>, id: Seq<char>) -> bool {
    forall|i: int|
        0 <= i < trace.len() ==> !is_connected_for(#[trigger] trace[i], id) && !is_message_for(
            trace[i],
            id,
        ) && !is_closed_for(trace[i], id)
}

/// `Connected` is emitted at most once for the connection, and before
/// every `Message` and `Closed` of it.
pub open spec fn connected_once_and_first(trace: Seq<EventView>, id: Seq<char>) -> bool {
    forall|i: int, j: int|
        0 <= i < j < trace.len() && is_connected_for(#[trigger] trace[j], id)
            ==> !is_connected_for(#[trigger] trace[i], id) && !is_message_for(trace[i], id)
            && !is_closed_for(trace[i], id)
}

/// After the `Closed` of the connection no event speaks of it.
pub open spec fn silent_after_closed(trace: Seq<EventView>, id: Seq<char>) -> bool {
    forall|i: int, j: int|
        0 <= i < j < trace.len() && is_closed_for(#[trigger] trace[i], id) ==> !is_about(
            #[trigger] trace[j],
            id,
        )
}

/// `Closed` is emitted at most once for the connection.
pub open spec fn closed_at_most_once(trace: Seq<EventView>, id: Seq<char>) -> bool {
    forall|i: int, j: int|
        0 <= i < j < trace.len() && is_closed_for(#[trigger] trace[i], id) ==> !is_closed_for(
            #[trigger] trace[j],
            id,
        )
}

/// No `Closed` of the connection has been emitted.
pub open spec fn unclosed(trace: Seq<EventView>, id: Seq<char>) -> bool {
    forall|i: int| 0 <= i < trace.len() ==> !is_closed_for(#[trigger] trace[i], id)
}

/// No `Connected` of the connection has been emitted.
pub open spec fn unannounced(trace: Seq<EventView>, id: Seq<char>) -> bool {
    forall|i: int| 0 <= i < trace.len() ==> !is_connected_for(#[trigger] trace[i], id)
}

/// No event of the trace speaks of the connection.
pub open spec fn silent(trace: Seq<EventView>, id: Seq<char>) -> bool {
    forall|i: int| 0 <= i < trace.len() ==> !is_about(#[trigger] trace[i], id)
}

/// The events of the connection are in order so far and it is not closed.
pub open spec fn in_progress(trace: Seq<EventView>, id: Seq<char>) -> bool {
    connected_once_and_first(trace, id) && unclosed(trace, id)
}

/// The events of the connection are in order.
pub open spec fn orderly(trace: Seq<EventView>, id: Seq<char>) -> bool {
    connected_once_and_first(trace, id) && silent_after_closed(trace, id)
}

/// A quiet trace is in progress, and a trace in progress is orderly; in an
/// orderly trace the connection is closed at most once.
pub proof fn lemma_order_weakens(trace: Seq<EventView>, id: Seq<char>)
    ensures
        quiet(trace, id) ==> in_progress(trace, id) && unannounced(trace, id),
        in_progress(trace, id) ==> orderly(trace, id),
        orderly(trace, id) ==> closed_at_most_once(trace, id),
{
}

/// Events that are no `Connected`, `Message` or `Closed` of the connection
/// leave a quiet trace quiet.
pub proof fn lemma_quiet_extends(trace: Seq<EventView>, more: Seq<EventView>, id: Seq<char>)
    requires
        quiet(trace, id),
        quiet(more, id),
    ensures
        quiet(trace + more, id),
{
    assert forall|i: int| 0 <= i < (trace + more).len() implies !is_connected_for(
        #[trigger] (trace + more)[i],
        id,
    ) && !is_message_for((trace + more)[i], id) && !is_closed_for((trace + more)[i], id) by {
        if i < trace.len() {
            assert((trace + more)[i] == trace[i]);
        } else {
            assert((trace + more)[i] == more[i - trace.len()]);
        }
    }
}

/// A `Connected` after a quiet trace leaves the connection in progress.
pub proof fn lemma_quiet_then_connected(trace: Seq<EventView>, e: EventView, id: Seq<char>)
    requires
        quiet(trace, id),
        is_connected_for(e, id),
    ensures
        in_progress(trace.push(e), id),
{
    let t = trace.push(e);
    assert forall|i: int, j: int|
        0 <= i < j < t.len() && is_connected_for(#[trigger] t[j], id) implies !is_connected_for(
        #[trigger] t[i],
        id,
    ) && !is_message_for(t[i], id) && !is_closed_for(t[i], id) by {
        assert(t[i] == trace[i]);
    }
    assert forall|i: int| 0 <= i < t.len() implies !is_closed_for(#[trigger] t[i], id) by {
        if i < trace.len() {
            assert(t[i] == trace[i]);
        }
    }
}

/// Events that are neither `Connected` nor `Closed` of the connection
/// leave it in progress.
pub proof fn lemma_in_progress_extends(trace: Seq<EventView>, more: Seq<EventView>, id: Seq<char>)
    requires
        in_progress(trace, id),
        unannounced(more, id),
        unclosed(more, id),
    ensures
        in_progress(trace + more, id),
{
    let t = trace + more;
    assert forall|i: int, j: int|
        0 <= i < j < t.len() && is_connected_for(#[trigger] t[j], id) implies !is_connected_for(
        #[trigger] t[i],
        id,
    ) && !is_message_for(t[i], id) && !is_closed_for(t[i], id) by {
        if j < trace.len() {
            assert(t[j] == trace[j]);
            assert(t[i] == trace[i]);
        } else {
            assert(t[j] == more[j - trace.len()]);
        }
    }
    assert forall|i: int| 0 <= i < t.len() implies !is_closed_for(#[trigger] t[i], id) by {
        if i < trace.len() {
            assert(t[i] == trace[i]);
        } else {
            assert(t[i] == more[i - trace.len()]);
        }
    }
}

/// Events that end the connection, with its `Closed` as the last of them
/// and no `Connected` among them, leave its events in order.
pub proof fn lemma_in_progress_then_closed(
    trace: Seq<EventView>,
    more: Seq<EventView>,
    id: Seq<char>,
)
    requires
        in_progress(trace, id),
        unannounced(more, id),
        more.len() > 0,
        unclosed(more.drop_last(), id),
    ensures
        orderly(trace + more, id),
{
    let t = trace + more;
    assert forall|i: int, j: int|
        0 <= i < j < t.len() && is_connected_for(#[trigger] t[j], id) implies !is_connected_for(
        #[trigger] t[i],
        id,
    ) && !is_message_for(t[i], id) && !is_closed_for(t[i], id) by {
        if j < trace.len() {
            assert(t[j] == trace[j]);
            assert(t[i] == trace[i]);
        } else {
            assert(t[j] == more[j - trace.len()]);
        }
    }
    assert forall|i: int, j: int|
        0 <= i < j < t.len() && is_closed_for(#[trigger] t[i], id) implies !is_about(
        #[trigger] t[j],
        id,
    ) by {
        if i < trace.len() {
            assert(t[i] == trace[i]);
        } else {
            assert(t[i] == more[i - trace.len()]);
            assert(more[i - trace.len()] == more.drop_last()[i - trace.len()]);
        }
    }
}

/// Events that do not speak of the connection leave its events in order,
/// and leave them quiet or in progress where they were.
pub proof fn lemma_others_extend(trace: Seq<EventView>, more: Seq<EventView>, id: Seq<char>)
    requires
        silent(more, id),
    ensures
        orderly(trace, id) ==> orderly(trace + more, id),
        in_progress(trace, id) ==> in_progress(trace + more, id),
        quiet(trace, id) ==> quiet(trace + more, id),
        silent(trace, id) ==> silent(trace + more, id),
{
    let t = trace + more;
    assert forall|i: int| 0 <= i < t.len() implies (if i < trace.len() {
        #[trigger] t[i] == trace[i]
    } else {
        t[i] == more[i - trace.len()] && !is_about(t[i], id)
    }) by {}
    if orderly(trace, id) {
        assert forall|i: int, j: int|
            0 <= i < j < t.len() && is_connected_for(#[trigger] t[j], id)
            implies !is_connected_for(#[trigger] t[i], id) && !is_message_for(t[i], id)
            && !is_closed_for(t[i], id) by {
            assert(j < trace.len());
            assert(t[j] == trace[j]);
            assert(t[i] == trace[i]);
        }
        assert forall|i: int, j: int|
            0 <= i < j < t.len() && is_closed_for(#[trigger] t[i], id) implies !is_about(
            #[trigger] t[j],
            id,
        ) by {
            assert(i < trace.len());
            assert(t[i] == trace[i]);
            if j < trace.len() {
                assert(t[j] == trace[j]);
            }
        }
    }
    if in_progress(trace, id) {
        assert forall|i: int, j: int|
            0 <= i < j < t.len() && is_connected_for(#[trigger] t[j], id)
            implies !is_connected_for(#[trigger] t[i], id) && !is_message_for(t[i], id)
            && !is_closed_for(t[i], id) by {
            assert(j < trace.len());
            assert(t[j] == trace[j]);
            assert(t[i] == trace[i]);
        }
        assert forall|i: int| 0 <= i < t.len() implies !is_closed_for(#[trigger] t[i], id) by {
            if i < trace.len() {
                assert(t[i] == trace[i]);
            }
        }
    }
    if quiet(trace, id) {
        assert forall|i: int| 0 <= i < t.len() implies !is_connected_for(#[trigger] t[i], id)
            && !is_message_for(t[i], id) && !is_closed_for(t[i], id) by {
            if i < trace.len() {
                assert(t[i] == trace[i]);
            }
        }
    }
    if silent(trace, id) {
        assert forall|i: int| 0 <= i < t.len() implies !is_about(#[trigger] t[i], id) by {
            if i < trace.len() {
                assert(t[i] == trace[i]);
            }
        }
    }
}

} // verus!
