//! The connections that an accepting side tracks: each under the id that
//! the session gave it, in the order in which they were accepted.

use vstd::prelude::*;

verus! {

/// Where a connection of an accepting side stands.
#[derive(Copy, Clone, Debug, PartialEq, Eq, Structural)]
pub enum ConnPhase {
    /// Accepted, not established yet.
    Handshaking,
    /// Established, the peer trusted and `Connected` emitted.
    Announced,
    /// Done: nothing more is emitted for it, and the next sweep drops it.
    Retired,
}

/// A tracked connection as a value.
pub struct ConnView {
    pub id: Seq<u8>,
    pub phase: ConnPhase,
}

/// Whether a connection with the given id is tracked.
pub open spec fn tracks(conns: Seq<ConnView>, id: Seq<u8>) -> bool {
    exists|i: int| 0 <= i < conns.len() && (#[trigger] conns[i]).id == id
}

/// The place of the connection with the given id among the tracked ones.
pub open spec fn slot_of(conns: Seq<ConnView>, id: Seq<u8>) -> int {
    choose|i: int| 0 <= i < conns.len() && (#[trigger] conns[i]).id == id
}

/// The phase of the connection with the given id, if it is tracked.
pub open spec fn phase_of(conns: Seq<ConnView>, id: Seq<u8>) -> Option<ConnPhase> {
    if tracks(conns, id) {
        Some(conns[slot_of(conns, id)].phase)
    } else {
        None
    }
}

/// Whether the connection is tracked and not retired.
pub open spec fn is_live(conns: Seq<ConnView>, id: Seq<u8>) -> bool {
    phase_of(conns, id) is Some && phase_of(conns, id) != Some(ConnPhase::Retired)
}

/// No two tracked connections have the same id.
pub open spec fn distinct_ids(conns: Seq<ConnView>) -> bool {
    forall|i: int, j: int|
        0 <= i < j < conns.len() ==> (#[trigger] conns[i]).id != (#[trigger] conns[j]).id
}

/// The tracked connections with the one of the given id put in another
/// phase.
pub open spec fn with_phase(conns: Seq<ConnView>, id: Seq<u8>, phase: ConnPhase) -> Seq<ConnView> {
    if tracks(conns, id) {
        conns.update(slot_of(conns, id), ConnView { id, phase })
    } else {
        conns
    }
}

/// The tracked connections without the retired ones, in their order.
pub open spec fn kept(conns: Seq<ConnView>) -> Seq<ConnView>
    decreases conns.len(),
{
    if conns.len() == 0 {
        conns
    } else if conns.last().phase == ConnPhase::Retired {
        kept(conns.drop_last())
    } else {
        kept(conns.drop_last()).push(conns.last())
    }
}

/// The ids of the retired connections, in their order.
pub open spec fn retired_ids(conns: Seq<ConnView>) -> Seq<Seq<u8>>
    decreases conns.len(),
{
    if conns.len() == 0 {
        Seq::empty()
    } else if conns.last().phase == ConnPhase::Retired {
        retired_ids(conns.drop_last()).push(conns.last().id)
    } else {
        retired_ids(conns.drop_last())
    }
}

/// In a sequence of connections with distinct ids, the connection at a
/// place is the one found under its id.
pub proof fn lemma_slot_is_unique(conns: Seq<ConnView>, i: int)
    requires
        distinct_ids(conns),
        0 <= i < conns.len(),
    ensures
        tracks(conns, conns[i].id),
        slot_of(conns, conns[i].id) == i,
        phase_of(conns, conns[i].id) == Some(conns[i].phase),
{
    let id = conns[i].id;
    let j = slot_of(conns, id);
    assert(0 <= j < conns.len() && conns[j].id == id);
    if j < i {
        assert(conns[j].id != conns[i].id);
    }
    if i < j {
        assert(conns[i].id != conns[j].id);
    }
}

/// Putting one connection in another phase leaves the ids distinct and
/// the other connections as they were.
pub proof fn lemma_with_phase(conns: Seq<ConnView>, id: Seq<u8>, phase: ConnPhase, other: Seq<u8>)
    requires
        distinct_ids(conns),
        tracks(conns, id),
    ensures
        distinct_ids(with_phase(conns, id, phase)),
        phase_of(with_phase(conns, id, phase), id) == Some(phase),
        other != id ==> phase_of(with_phase(conns, id, phase), other) == phase_of(conns, other),
{
    let after = with_phase(conns, id, phase);
    let at = slot_of(conns, id);
    assert(0 <= at < conns.len() && conns[at].id == id);
    assert forall|i: int, j: int| 0 <= i < j < after.len() implies (#[trigger] after[i]).id != (
    #[trigger] after[j]).id by {
        assert(conns[i].id != conns[j].id);
    }
    lemma_slot_is_unique(after, at);
    if other != id {
        if tracks(conns, other) {
            let k = slot_of(conns, other);
            assert(0 <= k < conns.len() && conns[k].id == other);
            assert(after[k] == conns[k]);
            lemma_slot_is_unique(after, k);
        } else if tracks(after, other) {
            let k = slot_of(after, other);
            assert(0 <= k < after.len() && after[k].id == other);
            assert(conns[k].id == other);
        }
    }
}

/// A connection under a new id starts in the handshake and leaves the ids
/// distinct and the other connections as they were.
pub proof fn lemma_pushed(conns: Seq<ConnView>, id: Seq<u8>, other: Seq<u8>)
    requires
        distinct_ids(conns),
        !tracks(conns, id),
    ensures
        distinct_ids(conns.push(ConnView { id, phase: ConnPhase::Handshaking })),
        phase_of(conns.push(ConnView { id, phase: ConnPhase::Handshaking }), id) == Some(
            ConnPhase::Handshaking,
        ),
        other != id ==> phase_of(conns.push(ConnView { id, phase: ConnPhase::Handshaking }), other)
            == phase_of(conns, other),
{
    let after = conns.push(ConnView { id, phase: ConnPhase::Handshaking });
    assert forall|i: int, j: int| 0 <= i < j < after.len() implies (#[trigger] after[i]).id != (
    #[trigger] after[j]).id by {
        assert(after[i] == conns[i]);
        if j < conns.len() {
            assert(after[j] == conns[j]);
        }
    }
    lemma_slot_is_unique(after, conns.len() as int);
    if other != id {
        if tracks(conns, other) {
            let k = slot_of(conns, other);
            assert(0 <= k < conns.len() && conns[k].id == other);
            assert(after[k] == conns[k]);
            lemma_slot_is_unique(after, k);
        } else if tracks(after, other) {
            let k = slot_of(after, other);
            assert(0 <= k < after.len() && after[k].id == other);
            assert(after[k] == conns[k]);
        }
    }
}

/// What a sweep keeps was tracked before it, and was not retired.
pub proof fn lemma_kept_source(conns: Seq<ConnView>, j: int) -> (i: int)
    requires
        0 <= j < kept(conns).len(),
    ensures
        0 <= i < conns.len(),
        conns[i] == kept(conns)[j],
        conns[i].phase != ConnPhase::Retired,
    decreases conns.len(),
{
    let front = conns.drop_last();
    if conns.last().phase != ConnPhase::Retired && j == kept(front).len() {
        conns.len() - 1
    } else {
        let i = lemma_kept_source(front, j);
        assert(front[i] == conns[i]);
        i
    }
}

/// A sweep keeps every connection that is not retired.
pub proof fn lemma_kept_place(conns: Seq<ConnView>, i: int) -> (j: int)
    requires
        0 <= i < conns.len(),
        conns[i].phase != ConnPhase::Retired,
    ensures
        0 <= j < kept(conns).len(),
        kept(conns)[j] == conns[i],
    decreases conns.len(),
{
    let front = conns.drop_last();
    if i == conns.len() - 1 {
        kept(front).len() as int
    } else {
        assert(front[i] == conns[i]);
        lemma_kept_place(front, i)
    }
}

/// A sweep leaves the ids distinct.
pub proof fn lemma_kept_distinct(conns: Seq<ConnView>)
    requires
        distinct_ids(conns),
    ensures
        distinct_ids(kept(conns)),
    decreases conns.len(),
{
    if conns.len() > 0 {
        let front = conns.drop_last();
        let last = conns.last();
        assert forall|i: int, j: int| 0 <= i < j < front.len() implies (#[trigger] front[i]).id != (
        #[trigger] front[j]).id by {
            assert(conns[i].id != conns[j].id);
        }
        lemma_kept_distinct(front);
        if last.phase != ConnPhase::Retired {
            let all = kept(conns);
            let k = kept(front);
            assert forall|i: int, j: int| 0 <= i < j < all.len() implies (#[trigger] all[i]).id != (
            #[trigger] all[j]).id by {
                if j < k.len() {
                    assert(k[i].id != k[j].id);
                } else {
                    let from = lemma_kept_source(front, i);
                    assert(conns[from].id != conns[conns.len() - 1].id);
                }
            }
        }
    }
}

/// After a sweep a connection that was live is tracked in its phase, and
/// no other connection is tracked.
pub proof fn lemma_phase_after_sweep(conns: Seq<ConnView>, id: Seq<u8>)
    requires
        distinct_ids(conns),
    ensures
        distinct_ids(kept(conns)),
        phase_of(kept(conns), id) == if is_live(conns, id) {
            phase_of(conns, id)
        } else {
            None
        },
{
    lemma_kept_distinct(conns);
    let k = kept(conns);
    if tracks(k, id) {
        let j = slot_of(k, id);
        assert(0 <= j < k.len() && k[j].id == id);
        let i = lemma_kept_source(conns, j);
        lemma_slot_is_unique(conns, i);
    } else if is_live(conns, id) {
        let i = slot_of(conns, id);
        assert(0 <= i < conns.len() && conns[i].id == id);
        let j = lemma_kept_place(conns, i);
        assert(k[j].id == id);
    }
}

} // verus!
