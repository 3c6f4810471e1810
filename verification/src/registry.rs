//! The connection registry: the single authoritative mapping from connection
//! identifiers to ordered delivery queues of outbound messages.
//!
//! All mutations of the mapping go through the three commands of the wire
//! protocol's coordination unit — register, route, deregister — applied one at
//! a time. The spec-level transition function [`step`] says exactly what each
//! command does to the mapping, and every executable operation is proved to
//! apply it. Ordering and no-op laws over whole command sequences are proved
//! below ([`lemma_fifo_per_destination`] and friends).

use crate::codec::push_char;
use vstd::prelude::*;
use vstd::string::StrSliceExecFns;

verus! {

/// A command accepted into the registry's serialized command stream, at the
/// spec level: identifiers are character sequences, and a routed message is
/// the view `V` of the message type carried by the registry.
pub enum Command<V> {
    /// Insert or overwrite the entry for an identifier, with an empty queue.
    Register(Seq<char>),
    /// Append a message to the identifier's queue; a no-op if absent.
    Route(Seq<char>, V),
    /// Remove the entry for an identifier; a no-op if absent.
    Deregister(Seq<char>),
}

/// What the registry holds for one identifier: whether the identifier is
/// still registered — reachable for new routes — and the ordered queue of
/// messages routed to it and not yet taken by its consumer. Deregistration
/// only ends reachability; the consumer drains what was already queued.
pub struct DeliveryState<V> {
    pub registered: bool,
    pub queue: Seq<V>,
}

/// What one command does to the registry's mapping. Registration is
/// last-write-wins; routing to an absent or deregistered identifier is a
/// silent no-op, not an error; deregistration is idempotent and leaves the
/// already-queued messages for the consumer to drain.
pub open spec fn step<V>(m: Map<Seq<char>, DeliveryState<V>>, c: Command<V>) -> Map<
    Seq<char>,
    DeliveryState<V>,
> {
    match c {
        Command::Register(id) => m.insert(
            id,
            (DeliveryState { registered: true, queue: Seq::empty() }),
        ),
        Command::Route(id, msg) => if m.contains_key(id) && m[id].registered {
            m.insert(id, (DeliveryState { registered: true, queue: m[id].queue.push(msg) }))
        } else {
            m
        },
        Command::Deregister(id) => if m.contains_key(id) {
            m.insert(id, (DeliveryState { registered: false, queue: m[id].queue }))
        } else {
            m
        },
    }
}

/// The mapping after a whole command stream has been processed in arrival
/// order, one command at a time.
pub open spec fn apply_all<V>(m: Map<Seq<char>, DeliveryState<V>>, cmds: Seq<Command<V>>) -> Map<
    Seq<char>,
    DeliveryState<V>,
>
    decreases cmds.len(),
{
    if cmds.len() == 0 {
        m
    } else {
        apply_all(step(m, cmds[0]), cmds.drop_first())
    }
}

/// The messages routed to `id` by a command stream, in stream order.
pub open spec fn routed_to<V>(cmds: Seq<Command<V>>, id: Seq<char>) -> Seq<V>
    decreases cmds.len(),
{
    if cmds.len() == 0 {
        Seq::empty()
    } else {
        let rest = routed_to(cmds.drop_first(), id);
        match cmds[0] {
            Command::Route(dest, msg) => if dest == id {
                seq![msg] + rest
            } else {
                rest
            },
            _ => rest,
        }
    }
}

/// Whether a command registers or deregisters `id` (routes never do).
pub open spec fn changes_registration<V>(c: Command<V>, id: Seq<char>) -> bool {
    match c {
        Command::Register(dest) => dest == id,
        Command::Deregister(dest) => dest == id,
        Command::Route(..) => false,
    }
}

/// The spec-level contents of a delivery queue: the views of its messages, in
/// queue order.
pub open spec fn queue_view<T: View>(q: Seq<T>) -> Seq<T::V> {
    q.map_values(|t: T| t@)
}

/// Relies on `uuid::Uuid::new_v4` and the `Display` impl of `uuid::Uuid`:
/// a fresh random UUID rendered in its hyphenated textual form, which is 36
/// characters long. The value is random, so nothing more is promised of it.
#[verifier::external_body]
fn fresh_connection_id() -> (r: String)
    ensures
        r@.len() == 36,
{
    uuid::Uuid::new_v4().to_string()
}

/// One registry entry: a connection identifier, whether it is still
/// registered, and the ordered queue of outbound messages not yet taken by
/// that connection's send loop.
struct ConnectionEntry<T> {
    id: String,
    registered: bool,
    queue: Vec<T>,
}

/// The spec-level delivery state an entry holds.
spec fn entry_state<T: View>(e: ConnectionEntry<T>) -> DeliveryState<T::V> {
    DeliveryState { registered: e.registered, queue: queue_view(e.queue@) }
}

/// The index of the entry holding `id`; meaningful only under
/// [`ConnectionsHandler::wf`], which makes it unique.
spec fn index_of_id<T>(s: Seq<ConnectionEntry<T>>, id: Seq<char>) -> int {
    choose|i: int| 0 <= i < s.len() && s[i].id@ == id
}

/// How far a colliding identifier may still grow before it is longer than
/// every identifier the registry knows, and so certainly fresh.
spec fn collision_measure(len: nat, bound: nat) -> int {
    if len <= bound {
        bound + 1 - len
    } else {
        0
    }
}

/// The connection registry. Abstractly it is a map from connection
/// identifier to the ordered sequence of messages routed to that identifier
/// and not yet taken by its consumer.
pub struct ConnectionsHandler<T> {
    entries: Vec<ConnectionEntry<T>>,
}

impl<T: View> View for ConnectionsHandler<T> {
    type V = Map<Seq<char>, DeliveryState<T::V>>;

    closed spec fn view(&self) -> Map<Seq<char>, DeliveryState<T::V>> {
        Map::new(
            |id: Seq<char>|
                exists|i: int|
                    0 <= i < self.entries@.len() && self.entries@[i].id@ == id,
            |id: Seq<char>| entry_state(self.entries@[index_of_id(self.entries@, id)]),
        )
    }
}

impl<T: View> ConnectionsHandler<T> {
    /// Well-formedness: no identifier owns two entries.
    pub closed spec fn wf(&self) -> bool {
        forall|i: int, j: int|
            0 <= i < j < self.entries@.len() ==> self.entries@[i].id@ != self.entries@[j].id@
    }

    /// An entry at a known index determines the view at its identifier.
    proof fn lemma_key_at_index(&self, i: int)
        requires
            self.wf(),
            0 <= i < self.entries@.len(),
        ensures
            self@.contains_key(self.entries@[i].id@),
            self@[self.entries@[i].id@] == entry_state(self.entries@[i]),
            index_of_id(self.entries@, self.entries@[i].id@) == i,
    {
        let id = self.entries@[i].id@;
        assert(exists|k: int| 0 <= k < self.entries@.len() && self.entries@[k].id@ == id);
        let j = index_of_id(self.entries@, id);
        assert(0 <= j < self.entries@.len() && self.entries@[j].id@ == id);
        if i != j {
            if i < j {
                assert(self.entries@[i].id@ != self.entries@[j].id@);
            } else {
                assert(self.entries@[j].id@ != self.entries@[i].id@);
            }
        }
    }

    /// An identifier held by no entry is absent from the view.
    proof fn lemma_key_absent(&self, id: Seq<char>)
        requires
            forall|i: int| 0 <= i < self.entries@.len() ==> self.entries@[i].id@ != id,
        ensures
            !self@.contains_key(id),
    {
    }

    /// A fresh registry with no connections.
    pub fn new() -> (r: ConnectionsHandler<T>)
        ensures
            r.wf(),
            r@ == Map::<Seq<char>, DeliveryState<T::V>>::empty(),
    {
        let r = ConnectionsHandler { entries: Vec::new() };
        proof {
            assert(r@ =~= Map::<Seq<char>, DeliveryState<T::V>>::empty());
        }
        r
    }

    /// The index of the entry for `id`, if the identifier is registered.
    fn find_index(&self, id: &String) -> (r: Option<usize>)
        requires
            self.wf(),
        ensures
            match r {
                Some(i) => i < self.entries@.len() && self.entries@[i as int].id@ == id@
                    && self@.contains_key(id@),
                None => !self@.contains_key(id@),
            },
    {
        let mut i: usize = 0;
        while i < self.entries.len()
            invariant
                self.wf(),
                i <= self.entries@.len(),
                forall|j: int| 0 <= j < i ==> self.entries@[j].id@ != id@,
            decreases self.entries@.len() - i,
        {
            if self.entries[i].id == *id {
                proof {
                    self.lemma_key_at_index(i as int);
                }
                return Some(i);
            }
            i += 1;
        }
        proof {
            self.lemma_key_absent(id@);
        }
        None
    }

    /// Process a `Register` command: insert or overwrite the entry for `id`
    /// with an empty delivery queue (last-write-wins).
    pub fn register(&mut self, id: String)
        requires
            old(self).wf(),
        ensures
            final(self).wf(),
            final(self)@ == step(old(self)@, Command::<T::V>::Register(id@)),
    {
        match self.find_index(&id) {
            Some(i) => {
                let ghost pre = *self;
                self.entries.remove(i);
                proof {
                    self.lemma_remove_view(pre, i as int);
                }
            },
            None => {},
        }
        let ghost mid = *self;
        self.entries.push(ConnectionEntry { id, registered: true, queue: Vec::new() });
        proof {
            assert(forall|k: int|
                0 <= k < mid.entries@.len() ==> mid.entries@[k].id@ != self.entries@[
                    self.entries@.len() - 1
                ].id@);
            self.lemma_push_view(mid);
            assert(queue_view(Seq::<T>::empty()) =~= Seq::<T::V>::empty());
            assert(final(self)@ =~= step(old(self)@, Command::<T::V>::Register(
                self.entries@[self.entries@.len() - 1].id@,
            )));
        }
    }

    /// Process a `Route` command: if `id` is registered, append `message` to
    /// its delivery queue; otherwise do nothing. A route to an absent or
    /// deregistered identifier is a benign no-op, never an error.
    pub fn send_message(&mut self, id: String, message: T)
        requires
            old(self).wf(),
        ensures
            final(self).wf(),
            final(self)@ == step(old(self)@, Command::Route(id@, message@)),
    {
        match self.find_index(&id) {
            Some(i) => {
                proof {
                    self.lemma_key_at_index(i as int);
                }
                if !self.entries[i].registered {
                    return;
                }
                let ghost pre = *self;
                let mut e = self.entries.remove(i);
                proof {
                    self.lemma_remove_view(pre, i as int);
                }
                let ghost oldq = e.queue@;
                e.queue.push(message);
                let ghost mid = *self;
                self.entries.push(e);
                proof {
                    assert forall|k: int|
                        0 <= k < mid.entries@.len() implies mid.entries@[k].id@ != id@ by {
                        let k0 = if k < i { k } else { k + 1 };
                        assert(mid.entries@[k] == pre.entries@[k0]);
                        if k0 < i {
                            assert(pre.entries@[k0].id@ != pre.entries@[i as int].id@);
                        } else {
                            assert(pre.entries@[i as int].id@ != pre.entries@[k0].id@);
                        }
                    }
                    self.lemma_push_view(mid);
                    pre.lemma_key_at_index(i as int);
                    assert(queue_view(oldq.push(message)) =~= queue_view(oldq).push(message@));
                    assert(final(self)@ =~= step(old(self)@, Command::Route(id@, message@)));
                }
            },
            None => {
            },
        }
    }

    /// Process a `Deregister` command: end the reachability of `id` if it is
    /// present, leaving whatever its queue already holds for the consumer to
    /// drain; a no-op if absent (idempotent).
    pub fn remove_connection(&mut self, id: String)
        requires
            old(self).wf(),
        ensures
            final(self).wf(),
            final(self)@ == step(old(self)@, Command::<T::V>::Deregister(id@)),
    {
        match self.find_index(&id) {
            Some(i) => {
                let ghost pre = *self;
                let mut e = self.entries.remove(i);
                proof {
                    self.lemma_remove_view(pre, i as int);
                }
                e.registered = false;
                let ghost mid = *self;
                self.entries.push(e);
                proof {
                    assert forall|k: int|
                        0 <= k < mid.entries@.len() implies mid.entries@[k].id@ != id@ by {
                        let k0 = if k < i { k } else { k + 1 };
                        assert(mid.entries@[k] == pre.entries@[k0]);
                        if k0 < i {
                            assert(pre.entries@[k0].id@ != pre.entries@[i as int].id@);
                        } else {
                            assert(pre.entries@[i as int].id@ != pre.entries@[k0].id@);
                        }
                    }
                    self.lemma_push_view(mid);
                    pre.lemma_key_at_index(i as int);
                    assert(final(self)@ =~= step(old(self)@, Command::<T::V>::Deregister(id@)));
                }
            },
            None => {
            },
        }
    }

    /// The consumer side of a delivery queue: take the oldest message routed
    /// to `id` and not yet taken, whether or not `id` is still registered —
    /// deregistration leaves the queue drainable. Returns `None` when the
    /// queue is empty or the identifier was never known.
    pub fn recv_message(&mut self, id: &String) -> (r: Option<T>)
        requires
            old(self).wf(),
        ensures
            final(self).wf(),
            match r {
                Some(msg) => old(self)@.contains_key(id@) && old(self)@[id@].queue.len() > 0
                    && msg@ == old(self)@[id@].queue[0] && final(self)@ == old(self)@.insert(
                    id@,
                    (DeliveryState {
                        registered: old(self)@[id@].registered,
                        queue: old(self)@[id@].queue.drop_first(),
                    }),
                ),
                None => final(self)@ == old(self)@ && !(old(self)@.contains_key(id@)
                    && old(self)@[id@].queue.len() > 0),
            },
    {
        match self.find_index(id) {
            Some(i) => {
                proof {
                    self.lemma_key_at_index(i as int);
                }
                if self.entries[i].queue.len() == 0 {
                    None
                } else {
                    let ghost pre = *self;
                    let mut e = self.entries.remove(i);
                    proof {
                        self.lemma_remove_view(pre, i as int);
                    }
                    let msg = e.queue.remove(0);
                    let ghost mid = *self;
                    self.entries.push(e);
                    proof {
                        assert forall|k: int|
                            0 <= k < mid.entries@.len() implies mid.entries@[k].id@ != id@ by {
                            let k0 = if k < i { k } else { k + 1 };
                            assert(mid.entries@[k] == pre.entries@[k0]);
                            if k0 < i {
                                assert(pre.entries@[k0].id@ != pre.entries@[i as int].id@);
                            } else {
                                assert(pre.entries@[i as int].id@ != pre.entries@[k0].id@);
                            }
                        }
                        self.lemma_push_view(mid);
                        pre.lemma_key_at_index(i as int);
                        assert(queue_view(pre.entries@[i as int].queue@.remove(0)) =~= queue_view(
                            pre.entries@[i as int].queue@,
                        ).drop_first());
                        assert(msg@ == old(self)@[id@].queue[0]);
                        assert(final(self)@ =~= old(self)@.insert(
                            id@,
                            (DeliveryState {
                                registered: old(self)@[id@].registered,
                                queue: old(self)@[id@].queue.drop_first(),
                            }),
                        ));
                    }
                    Some(msg)
                }
            },
            None => None,
        }
    }

    /// Accept a new connection: mint a fresh identifier — the hyphenated
    /// text of a random UUID — and register it with an empty delivery queue,
    /// as one `Register` command. The returned identifier was not known to
    /// the registry before the call, so no live registration is overwritten
    /// and no identifier is reused while a connection exists: in the
    /// unlikely event that the minted UUID collides with a known identifier,
    /// characters are appended until it is free.
    pub fn create_connection(&mut self) -> (id: String)
        requires
            old(self).wf(),
        ensures
            final(self).wf(),
            !old(self)@.contains_key(id@),
            final(self)@ == step(old(self)@, Command::<T::V>::Register(id@)),
    {
        let mut id = fresh_connection_id();

        // The longest known identifier bounds the collision avoidance below.
        let mut max_len: usize = 0;
        let mut i: usize = 0;
        while i < self.entries.len()
            invariant
                i <= self.entries@.len(),
                forall|j: int| 0 <= j < i ==> self.entries@[j].id@.len() <= max_len,
            decreases self.entries@.len() - i,
        {
            let l = self.entries[i].id.as_str().unicode_len();
            if l > max_len {
                max_len = l;
            }
            i += 1;
        }
        proof {
            assert forall|k: Seq<char>| #[trigger] self@.contains_key(k) implies k.len()
                <= max_len by {
                let j = choose|j: int|
                    0 <= j < self.entries@.len() && self.entries@[j].id@ == k;
            }
        }

        let mut fresh = self.find_index(&id).is_none();
        while !fresh
            invariant
                self.wf(),
                self@ == old(self)@,
                forall|k: Seq<char>| #[trigger] self@.contains_key(k) ==> k.len() <= max_len,
                fresh == !self@.contains_key(id@),
            decreases collision_measure(id@.len(), max_len as nat),
        {
            push_char(&mut id, 'x');
            fresh = self.find_index(&id).is_none();
        }

        self.register(id.clone());
        id
    }

    /// Removing the entry at index `i` removes exactly its identifier from
    /// the view.
    proof fn lemma_remove_view(&self, pre: ConnectionsHandler<T>, i: int)
        requires
            pre.wf(),
            0 <= i < pre.entries@.len(),
            self.entries@ == pre.entries@.remove(i),
        ensures
            self.wf(),
            self@ == pre@.remove(pre.entries@[i].id@),
    {
        let s_old = pre.entries@;
        let s_new = self.entries@;
        let id = s_old[i].id@;
        assert(self.wf()) by {
            assert forall|a: int, b: int|
                0 <= a < b < s_new.len() implies s_new[a].id@ != s_new[b].id@ by {
                let a0 = if a < i { a } else { a + 1 };
                let b0 = if b < i { b } else { b + 1 };
                assert(s_new[a] == s_old[a0]);
                assert(s_new[b] == s_old[b0]);
            }
        }
        assert forall|k: Seq<char>| #[trigger] self@.contains_key(k) == pre@.remove(id).contains_key(k)
            && (self@.contains_key(k) ==> self@[k] == pre@.remove(id)[k]) by {
            if k == id {
                assert forall|a: int| 0 <= a < s_new.len() implies s_new[a].id@ != k by {
                    let a0 = if a < i { a } else { a + 1 };
                    assert(s_new[a] == s_old[a0]);
                    if a0 != i {
                        pre.lemma_key_at_index(a0);
                        pre.lemma_key_at_index(i);
                    }
                }
                self.lemma_key_absent(k);
            } else {
                if pre@.contains_key(k) {
                    let a0 = choose|a: int| 0 <= a < s_old.len() && s_old[a].id@ == k;
                    pre.lemma_key_at_index(a0);
                    let a = if a0 < i { a0 } else { a0 - 1 };
                    assert(s_new[a] == s_old[a0]);
                    self.lemma_key_at_index(a);
                    assert(self@.contains_key(k));
                    assert(self@[k] == pre@[k]);
                } else {
                    assert forall|a: int| 0 <= a < s_new.len() implies s_new[a].id@ != k by {
                        let a0 = if a < i { a } else { a + 1 };
                        assert(s_new[a] == s_old[a0]);
                        pre.lemma_key_at_index(a0);
                    }
                    self.lemma_key_absent(k);
                }
            }
        }
        assert(self@ =~= pre@.remove(id));
    }

    /// Pushing an entry with a fresh identifier inserts exactly that
    /// identifier into the view.
    proof fn lemma_push_view(&self, pre: ConnectionsHandler<T>)
        requires
            pre.wf(),
            self.entries@.len() == pre.entries@.len() + 1,
            self.entries@ == pre.entries@.push(self.entries@[self.entries@.len() - 1]),
            forall|k: int|
                0 <= k < pre.entries@.len() ==> pre.entries@[k].id@ != self.entries@[
                    self.entries@.len() - 1
                ].id@,
        ensures
            self.wf(),
            self@ == pre@.insert(
                self.entries@[self.entries@.len() - 1].id@,
                entry_state(self.entries@[self.entries@.len() - 1]),
            ),
    {
        let s_old = pre.entries@;
        let s_new = self.entries@;
        let e = s_new[s_new.len() - 1];
        assert(self.wf()) by {
            assert forall|a: int, b: int|
                0 <= a < b < s_new.len() implies s_new[a].id@ != s_new[b].id@ by {
                if b < s_new.len() - 1 {
                    assert(s_new[a] == s_old[a]);
                    assert(s_new[b] == s_old[b]);
                } else {
                    assert(s_new[a] == s_old[a]);
                }
            }
        }
        assert forall|k: Seq<char>|
            #[trigger] self@.contains_key(k) == pre@.insert(e.id@, entry_state(e)).contains_key(k)
                && (self@.contains_key(k) ==> self@[k] == pre@.insert(
                e.id@,
                entry_state(e),
            )[k]) by {
            if k == e.id@ {
                self.lemma_key_at_index(s_new.len() - 1);
            } else {
                if pre@.contains_key(k) {
                    let a = choose|a: int| 0 <= a < s_old.len() && s_old[a].id@ == k;
                    pre.lemma_key_at_index(a);
                    assert(s_new[a] == s_old[a]);
                    self.lemma_key_at_index(a);
                } else {
                    assert forall|a: int| 0 <= a < s_new.len() implies s_new[a].id@ != k by {
                        if a < s_new.len() - 1 {
                            assert(s_new[a] == s_old[a]);
                            pre.lemma_key_absent(k);
                        }
                    }
                    self.lemma_key_absent(k);
                }
            }
        }
        assert(self@ =~= pre@.insert(e.id@, entry_state(e)));
    }
}

/// The command stream that routes each of `msgs` to `id`, in order.
pub open spec fn route_cmds<V>(id: Seq<char>, msgs: Seq<V>) -> Seq<Command<V>> {
    Seq::new(msgs.len(), |i: int| Command::Route(id, msgs[i]))
}

/// FIFO per destination: for any command stream in which `id` is neither
/// registered nor deregistered — whatever commands for other identifiers are
/// interleaved with it by other callers — the delivery queue of `id` after
/// the stream is what it held before, followed by exactly the messages the
/// stream routed to `id`, in the order they were accepted into the stream.
pub proof fn lemma_fifo_per_destination<V>(
    m: Map<Seq<char>, DeliveryState<V>>,
    cmds: Seq<Command<V>>,
    id: Seq<char>,
)
    requires
        m.contains_key(id),
        m[id].registered,
        forall|i: int| 0 <= i < cmds.len() ==> !changes_registration(#[trigger] cmds[i], id),
    ensures
        apply_all(m, cmds).contains_key(id),
        apply_all(m, cmds)[id].registered,
        apply_all(m, cmds)[id].queue == m[id].queue + routed_to(cmds, id),
    decreases cmds.len(),
{
    if cmds.len() == 0 {
        assert(m[id].queue + routed_to(cmds, id) =~= m[id].queue);
    } else {
        let c = cmds[0];
        let rest = cmds.drop_first();
        let m2 = step(m, c);
        assert(!changes_registration(cmds[0], id));
        assert forall|i: int|
            0 <= i < rest.len() implies !changes_registration(#[trigger] rest[i], id) by {
            assert(rest[i] == cmds[i + 1]);
        }
        lemma_fifo_per_destination(m2, rest, id);
        match c {
            Command::Route(dest, msg) => {
                if dest == id {
                    assert(m2[id].queue == m[id].queue.push(msg));
                    assert(m[id].queue.push(msg) + routed_to(rest, id) =~= m[id].queue + (seq![msg]
                        + routed_to(rest, id)));
                }
            },
            _ => {
            },
        }
    }
}

/// Routing to an identifier with no active registration — one never
/// registered, or one already deregistered — is a no-op: the mapping, and so
/// every delivery queue, is left exactly as it was.
pub proof fn lemma_route_unregistered_is_noop<V>(
    m: Map<Seq<char>, DeliveryState<V>>,
    id: Seq<char>,
    msg: V,
)
    requires
        !m.contains_key(id) || !m[id].registered,
    ensures
        step(m, Command::Route(id, msg)) == m,
{
}

/// A command stream of routes to `id` delivers exactly its messages to `id`.
proof fn lemma_routed_to_route_cmds<V>(id: Seq<char>, msgs: Seq<V>)
    ensures
        routed_to(route_cmds(id, msgs), id) == msgs,
    decreases msgs.len(),
{
    let cmds = route_cmds(id, msgs);
    if msgs.len() == 0 {
        assert(routed_to(cmds, id) =~= msgs);
    } else {
        assert(cmds.drop_first() =~= route_cmds(id, msgs.drop_first()));
        lemma_routed_to_route_cmds(id, msgs.drop_first());
        assert(seq![msgs[0]] + msgs.drop_first() =~= msgs);
    }
}

/// Round trip: registering `id` and then routing the messages `msgs` to it
/// in sequence leaves exactly `msgs` as its delivery queue, in the same
/// order, for any number of messages.
pub proof fn lemma_register_route_round_trip<V>(
    m: Map<Seq<char>, DeliveryState<V>>,
    id: Seq<char>,
    msgs: Seq<V>,
)
    ensures
        apply_all(m, seq![Command::Register(id)] + route_cmds(id, msgs)).contains_key(id),
        apply_all(m, seq![Command::Register(id)] + route_cmds(id, msgs))[id].queue == msgs,
{
    let cmds = seq![Command::<V>::Register(id)] + route_cmds(id, msgs);
    assert(cmds[0] == Command::<V>::Register(id));
    assert(cmds.drop_first() =~= route_cmds(id, msgs));
    let m1 = step(m, Command::<V>::Register(id));
    assert(m1[id].queue == Seq::<V>::empty());
    assert(m1[id].registered);
    assert forall|i: int|
        0 <= i < route_cmds(id, msgs).len() implies !changes_registration(
        #[trigger] route_cmds(id, msgs)[i],
        id,
    ) by {
        assert(route_cmds(id, msgs)[i] == Command::Route(id, msgs[i]));
    }
    lemma_fifo_per_destination(m1, route_cmds(id, msgs), id);
    lemma_routed_to_route_cmds(id, msgs);
    assert(Seq::<V>::empty() + msgs =~= msgs);
}

/// Deregistering an identifier and then routing to it delivers nothing,
/// exactly as if the identifier had never been registered: the route after
/// the deregistration changes nothing at all, every queue keeps only what
/// was routed before, and on an identifier never known both commands
/// together change nothing.
pub proof fn lemma_deregister_then_route<V>(
    m: Map<Seq<char>, DeliveryState<V>>,
    id: Seq<char>,
    msg: V,
)
    ensures
        apply_all(m, seq![Command::Deregister(id), Command::Route(id, msg)]) == step(
            m,
            Command::<V>::Deregister(id),
        ),
        m.contains_key(id) ==> apply_all(
            m,
            seq![Command::Deregister(id), Command::Route(id, msg)],
        )[id].queue == m[id].queue,
        !m.contains_key(id) ==> apply_all(
            m,
            seq![Command::Deregister(id), Command::Route(id, msg)],
        ) == m,
{
    let cmds = seq![Command::<V>::Deregister(id), Command::Route(id, msg)];
    assert(cmds.len() == 2);
    assert(cmds[0] == Command::<V>::Deregister(id));
    let m1 = step(m, cmds[0]);
    let rest = cmds.drop_first();
    assert(rest.len() == 1);
    assert(rest[0] == cmds[1]);
    assert(rest.drop_first().len() == 0);
    assert(m1.contains_key(id) ==> !m1[id].registered);
    assert(step(m1, rest[0]) == m1);
    assert(apply_all(m, cmds) == apply_all(m1, rest));
    assert(apply_all(m1, rest) == apply_all(step(m1, rest[0]), rest.drop_first()));
    assert(apply_all(m, cmds) == m1);
}

} // verus!
