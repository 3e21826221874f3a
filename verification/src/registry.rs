//! The registry of running sessions: a handle for each, and under it the
//! commands that wait for the session's loop.
//!
//! Handles count up from one and are never given out twice. A command that
//! is dispatched to a handle waits in its queue until the loop of that
//! session drains it; the loop removes its handle when it is over.

use crate::event::{CommandView, WorkerCommand};
use dashmap::DashMap;
use vstd::prelude::*;

verus! {

/// `dashmap::DashMap`, carried through as it is: what it holds is spoken of
/// through [`queues_of`] alone.
#[verifier::external_type_specification]
#[verifier::external_body]
#[verifier::reject_recursive_types(K)]
#[verifier::reject_recursive_types(V)]
#[verifier::reject_recursive_types(S)]
pub struct ExDashMap<K, V, S>(DashMap<K, V, S>);

/// The commands of a queue as values.
pub open spec fn commands_view(queue: Seq<WorkerCommand>) -> Seq<CommandView> {
    queue.map_values(|c: WorkerCommand| c@)
}

/// The map without queues.
pub open spec fn no_queues() -> Map<u64, Seq<CommandView>> {
    Map::empty()
}

/// What a map of queues holds: under each key the commands of its queue.
pub uninterp spec fn queues_of(map: DashMap<u64, Vec<WorkerCommand>>) -> Map<u64, Seq<CommandView>>;

/// Calls `DashMap::new`. Believed of it: the new map holds nothing.
#[verifier::external_body]
fn queues_new() -> (fresh: DashMap<u64, Vec<WorkerCommand>>)
    ensures
        queues_of(fresh) == no_queues(),
{
    DashMap::new()
}

/// Calls `DashMap::contains_key`. Believed of it: it tells whether the map
/// holds the key.
#[verifier::external_body]
fn queues_contains(map: &DashMap<u64, Vec<WorkerCommand>>, key: u64) -> (held: bool)
    ensures
        held == queues_of(*map).dom().contains(key),
{
    map.contains_key(&key)
}

/// Calls `DashMap::insert`. Believed of it: afterwards the map holds the
/// queue under the key and is otherwise as before; what comes back is the
/// queue that the key had before, if it had one.
#[verifier::external_body]
fn queues_insert(
    map: &mut DashMap<u64, Vec<WorkerCommand>>,
    key: u64,
    queue: Vec<WorkerCommand>,
) -> (replaced: Option<Vec<WorkerCommand>>)
    ensures
        queues_of(*final(map)) == queues_of(*old(map)).insert(key, commands_view(queue@)),
        match replaced {
            Some(q) => queues_of(*old(map)).dom().contains(key) && commands_view(q@) == queues_of(
                *old(map),
            )[key],
            None => !queues_of(*old(map)).dom().contains(key),
        },
{
    map.insert(key, queue)
}

/// Calls `DashMap::remove`. Believed of it: afterwards the map holds
/// nothing under the key and is otherwise as before; what comes back is
/// the queue that the key had, if it had one.
#[verifier::external_body]
fn queues_remove(map: &mut DashMap<u64, Vec<WorkerCommand>>, key: u64) -> (removed: Option<
    Vec<WorkerCommand>,
>)
    ensures
        queues_of(*final(map)) == queues_of(*old(map)).remove(key),
        match removed {
            Some(q) => queues_of(*old(map)).dom().contains(key) && commands_view(q@) == queues_of(
                *old(map),
            )[key],
            None => !queues_of(*old(map)).dom().contains(key),
        },
{
    map.remove(&key).map(|entry| entry.1)
}

/// A registry as a value.
pub struct RegistryView {
    /// The handle that the next session gets.
    pub next: u64,
    /// The commands that wait under each handle, oldest first.
    pub queues: Map<u64, Seq<CommandView>>,
}

impl RegistryView {
    /// What holds of every registry: no handle is zero, and none that is in
    /// use has yet to be given out.
    pub open spec fn well_formed(self) -> bool {
        &&& self.next >= 1
        &&& forall|h: u64| self.queues.dom().contains(h) ==> 1 <= h < self.next
    }

    /// The registry after a handle was given out, and the handle; nothing
    /// changes once the handles are used up.
    pub open spec fn allocate(self) -> (RegistryView, Option<u64>) {
        if self.next < u64::MAX {
            (
                RegistryView {
                    next: (self.next + 1) as u64,
                    queues: self.queues.insert(self.next, Seq::empty()),
                },
                Some(self.next),
            )
        } else {
            (self, None)
        }
    }

    /// The registry after a handle was removed, and whether it was there.
    pub open spec fn remove(self, handle: u64) -> (RegistryView, bool) {
        (
            RegistryView { queues: self.queues.remove(handle), ..self },
            self.queues.dom().contains(handle),
        )
    }

    /// The registry after a command was dispatched, and whether the handle
    /// was there to take it.
    pub open spec fn dispatch(self, handle: u64, command: CommandView) -> (RegistryView, bool) {
        if self.queues.dom().contains(handle) {
            (
                RegistryView {
                    queues: self.queues.insert(handle, self.queues[handle].push(command)),
                    ..self
                },
                true,
            )
        } else {
            (self, false)
        }
    }

    /// The registry after the queue of a handle was drained, and the
    /// commands that waited there, oldest first.
    pub open spec fn drain(self, handle: u64) -> (RegistryView, Seq<CommandView>) {
        if self.queues.dom().contains(handle) {
            (
                RegistryView { queues: self.queues.insert(handle, Seq::empty()), ..self },
                self.queues[handle],
            )
        } else {
            (self, Seq::empty())
        }
    }
}

/// The registry of running sessions. The commands wait in the registry
/// itself, under the handle of their session, so that what a loop drains is
/// what was dispatched to it, in that order; the next handle is a plain
/// number, since every change goes through `&mut self`.
pub struct SessionRegistry {
    next: u64,
    queues: DashMap<u64, Vec<WorkerCommand>>,
}

impl View for SessionRegistry {
    type V = RegistryView;

    closed spec fn view(&self) -> RegistryView {
        RegistryView { next: self.next, queues: queues_of(self.queues) }
    }
}

impl SessionRegistry {
    /// A registry without sessions; the first handle will be one.
    pub fn new() -> (registry: SessionRegistry)
        ensures
            registry@ == (RegistryView { next: 1, queues: Map::empty() }),
            registry@.well_formed(),
    {
        SessionRegistry { next: 1, queues: queues_new() }
    }

    /// Gives out a fresh handle with an empty queue, or nothing once the
    /// handles are used up.
    pub fn allocate(&mut self) -> (handle: Option<u64>)
        requires
            old(self)@.well_formed(),
        ensures
            final(self)@.well_formed(),
            final(self)@ == old(self)@.allocate().0,
            handle == old(self)@.allocate().1,
    {
        if self.next == u64::MAX {
            return None;
        }
        let handle = self.next;
        queues_insert(&mut self.queues, handle, Vec::new());
        self.next = handle + 1;
        assert(commands_view(Seq::<WorkerCommand>::empty()) =~= Seq::<CommandView>::empty());
        assert forall|h: u64| self@.queues.dom().contains(h) implies 1 <= h < self@.next by {
            if h != handle {
                assert(old(self)@.queues.dom().contains(h));
            }
        }
        Some(handle)
    }

    /// Whether the handle is registered.
    pub fn contains(&self, handle: u64) -> (held: bool)
        ensures
            held == self@.queues.dom().contains(handle),
    {
        queues_contains(&self.queues, handle)
    }

    /// Removes a handle with what waits under it, and tells whether it was
    /// there. Removing a handle that is not there changes nothing.
    pub fn remove(&mut self, handle: u64) -> (found: bool)
        requires
            old(self)@.well_formed(),
        ensures
            final(self)@.well_formed(),
            final(self)@ == old(self)@.remove(handle).0,
            found == old(self)@.remove(handle).1,
    {
        let removed = queues_remove(&mut self.queues, handle);
        assert forall|h: u64| self@.queues.dom().contains(h) implies 1 <= h < self@.next by {
            assert(old(self)@.queues.dom().contains(h));
        }
        match removed {
            Some(_) => true,
            None => false,
        }
    }

    /// Puts a command at the end of the queue of a handle, and tells
    /// whether the handle was there to take it.
    pub fn dispatch(&mut self, handle: u64, command: WorkerCommand) -> (found: bool)
        requires
            old(self)@.well_formed(),
        ensures
            final(self)@.well_formed(),
            final(self)@ == old(self)@.dispatch(handle, command@).0,
            found == old(self)@.dispatch(handle, command@).1,
    {
        match queues_remove(&mut self.queues, handle) {
            Some(queue) => {
                let mut queue = queue;
                let ghost before = queue@;
                queue.push(command);
                assert(commands_view(queue@) =~= commands_view(before).push(command@));
                queues_insert(&mut self.queues, handle, queue);
                assert(self@.queues =~= old(self)@.dispatch(handle, command@).0.queues);
                true
            },
            None => {
                assert(self@.queues =~= old(self)@.queues);
                false
            },
        }
    }

    /// Takes the commands that wait under a handle, oldest first, and
    /// leaves its queue empty. A handle that is not there has none.
    pub fn drain(&mut self, handle: u64) -> (commands: Vec<WorkerCommand>)
        requires
            old(self)@.well_formed(),
        ensures
            final(self)@.well_formed(),
            final(self)@ == old(self)@.drain(handle).0,
            commands_view(commands@) == old(self)@.drain(handle).1,
    {
        match queues_remove(&mut self.queues, handle) {
            Some(queue) => {
                queues_insert(&mut self.queues, handle, Vec::new());
                assert(commands_view(Seq::<WorkerCommand>::empty()) =~= Seq::<
                    CommandView,
                >::empty());
                assert(self@.queues =~= old(self)@.drain(handle).0.queues);
                queue
            },
            None => {
                assert(self@.queues =~= old(self)@.queues);
                let none: Vec<WorkerCommand> = Vec::new();
                assert(commands_view(none@) =~= Seq::<CommandView>::empty());
                none
            },
        }
    }
}

/// Removing a handle a second time finds nothing and changes nothing, and
/// so does dispatching to a handle that was removed.
pub proof fn lemma_removed_is_gone(r: RegistryView, handle: u64, command: CommandView)
    ensures
        r.remove(handle).0.remove(handle) == (r.remove(handle).0, false),
        r.remove(handle).0.dispatch(handle, command) == (r.remove(handle).0, false),
        r.remove(handle).0.drain(handle) == (r.remove(handle).0, Seq::<CommandView>::empty()),
{
    let once = r.remove(handle).0;
    assert(once.queues.remove(handle) =~= once.queues);
}

/// A handle that is given out was not in use, is not zero, and every
/// handle given out later is larger.
pub proof fn lemma_handles_are_fresh(r: RegistryView)
    requires
        r.well_formed(),
        r.allocate().1 is Some,
    ensures
        !r.queues.dom().contains(r.allocate().1->0),
        r.allocate().1->0 >= 1,
        r.allocate().0.well_formed(),
        r.allocate().0.allocate().1 matches Some(later) ==> later > r.allocate().1->0,
{
}

/// Commands leave a queue in the order in which they came, each once: what
/// is drained after two dispatches ends with the two commands, and a
/// second drain finds nothing.
pub proof fn lemma_queue_keeps_order(r: RegistryView, handle: u64, a: CommandView, b: CommandView)
    requires
        r.queues.dom().contains(handle),
    ensures
        r.dispatch(handle, a).0.dispatch(handle, b).0.drain(handle).1 == r.queues[handle].push(
            a,
        ).push(b),
        r.dispatch(handle, a).0.dispatch(handle, b).0.drain(handle).0.drain(handle).1
            == Seq::<CommandView>::empty(),
{
}

} // verus!
