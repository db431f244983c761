//! The registry of live connections and the broadcast router.

use std::collections::HashMap;
use vstd::prelude::*;
use vstd::std_specs::hash::*;
use vstd::string::*;
use crate::diagnostics::{clients_line, departure_line, departure_notice, listing};
use crate::frame::{Frame, MyWsMessage};
use crate::identity::{hyphenated, ConnectionId};

verus! {

/// The payload that the other connections receive when `sender` sends
/// `payload`: the sender's identity, a colon, a space, and the payload as it
/// came.
pub open spec fn tagged(sender: u128, payload: Seq<char>) -> Seq<char> {
    hyphenated(sender) + ": "@ + payload
}

/// Tags a payload with the identity of its sender.
pub fn tag(sender: ConnectionId, payload: &str) -> (text: String)
    ensures
        text@ == tagged(sender@, payload@),
{
    let mut text = sender.to_text();
    text.append(": ");
    text.append(payload);
    text
}

/// One delivery that a broadcast asks for: `message` is to be handed to
/// `target`, the delivery target under which `recipient` is registered.
pub struct Delivery<'a, T> {
    pub recipient: ConnectionId,
    pub target: &'a T,
    pub message: MyWsMessage,
}

/// The identities to which a list of deliveries is addressed, in the order of
/// the list.
pub open spec fn recipients<T>(out: Seq<Delivery<T>>) -> Seq<u128> {
    out.map_values(|d: Delivery<T>| d.recipient@)
}

/// Whether `d` is what the broadcast of `payload` from `sender` owes to a
/// registered connection: it names a registered identity other than the
/// sender, points at the target registered for it, and carries the tagged
/// payload as a text frame.
pub open spec fn is_delivery_of<T>(
    sessions: Map<u128, T>,
    sender: u128,
    payload: Seq<char>,
    d: Delivery<T>,
) -> bool {
    &&& d.recipient@ != sender
    &&& sessions.contains_key(d.recipient@)
    &&& *d.target == sessions[d.recipient@]
    &&& d.message.0 matches Frame::Text(text) && text@ == tagged(sender, payload)
}

/// The 128-bit values of a list of identities, in the order of the list.
pub open spec fn identities(clients: Seq<ConnectionId>) -> Seq<u128> {
    clients.map_values(|id: ConnectionId| id@)
}

/// Whether `clients` is a snapshot of `sessions`: every registered identity,
/// each once, and nothing else, in any order.
pub open spec fn is_snapshot<T>(sessions: Map<u128, T>, clients: Seq<ConnectionId>) -> bool {
    &&& identities(clients).no_duplicates()
    &&& identities(clients).to_set() == sessions.dom()
}

/// Whether `out` is the fan-out of `payload` from `sender` over `sessions`:
/// exactly one delivery for each registered identity other than the sender,
/// in any order.
pub open spec fn is_fan_out<T>(
    sessions: Map<u128, T>,
    sender: u128,
    payload: Seq<char>,
    out: Seq<Delivery<T>>,
) -> bool {
    &&& recipients(out).no_duplicates()
    &&& recipients(out).to_set() == sessions.dom().remove(sender)
    &&& forall|i: int|
        0 <= i < out.len() ==> is_delivery_of(sessions, sender, payload, #[trigger] out[i])
}

/// The identity under which an entry of the registry is filed.
spec fn key_of<T>(entry: (&u128, &T)) -> u128 {
    *entry.0
}

/// Whether `entries` lists `sessions`: every entry is a registered identity
/// with its target, no entry occurs twice, and no registered identity is
/// left out.
spec fn lists<T>(entries: Seq<(&u128, &T)>, sessions: Map<u128, T>) -> bool {
    &&& entries.no_duplicates()
    &&& forall|i: int|
        0 <= i < entries.len() ==> sessions.contains_key(key_of(#[trigger] entries[i]))
            && sessions[key_of(entries[i])] == *entries[i].1
    &&& forall|k: u128| #[trigger]
        sessions.contains_key(k) ==> entries.contains((&k, &sessions[k]))
}

/// Whether `id` is the identity of one of the first `n` entries and is not
/// the one to pass over.
spec fn among<T>(entries: Seq<(&u128, &T)>, n: int, pass_over: Option<u128>, id: u128) -> bool {
    &&& Some(id) != pass_over
    &&& exists|i: int| 0 <= i < n && key_of(#[trigger] entries[i]) == id
}

/// Whether `ids` holds, each once, the identities of the first `n` entries
/// but the one to pass over.
spec fn gathers<T>(
    entries: Seq<(&u128, &T)>,
    n: int,
    pass_over: Option<u128>,
    ids: Seq<u128>,
) -> bool {
    &&& ids.no_duplicates()
    &&& forall|j: int| 0 <= j < ids.len() ==> among(entries, n, pass_over, #[trigger] ids[j])
    &&& forall|i: int|
        0 <= i < n && Some(key_of(#[trigger] entries[i])) != pass_over ==> ids.contains(
            key_of(entries[i]),
        )
}

/// Two entries of a listing that are filed under one identity are one entry.
proof fn lemma_keys_distinct<T>(entries: Seq<(&u128, &T)>, sessions: Map<u128, T>, i: int, j: int)
    requires
        lists(entries, sessions),
        0 <= i < entries.len(),
        0 <= j < entries.len(),
        key_of(entries[i]) == key_of(entries[j]),
    ensures
        i == j,
{
    assert(entries[i] == entries[j]);
}

/// Gathering goes on over an entry that is kept.
proof fn lemma_gather_keep<T>(
    entries: Seq<(&u128, &T)>,
    sessions: Map<u128, T>,
    n: int,
    pass_over: Option<u128>,
    ids: Seq<u128>,
)
    requires
        lists(entries, sessions),
        0 <= n < entries.len(),
        gathers(entries, n, pass_over, ids),
        Some(key_of(entries[n])) != pass_over,
    ensures
        gathers(entries, n + 1, pass_over, ids.push(key_of(entries[n]))),
{
    let id = key_of(entries[n]);
    let more = ids.push(id);
    assert forall|j: int| 0 <= j < ids.len() implies ids[j] != id by {
        assert(among(entries, n, pass_over, ids[j]));
        let i = choose|i: int| 0 <= i < n && key_of(#[trigger] entries[i]) == ids[j];
        if ids[j] == id {
            lemma_keys_distinct(entries, sessions, i, n);
        }
    }
    assert forall|j: int| 0 <= j < more.len() implies among(
        entries,
        n + 1,
        pass_over,
        #[trigger] more[j],
    ) by {
        if j < ids.len() {
            assert(among(entries, n, pass_over, ids[j]));
            let i = choose|i: int| 0 <= i < n && key_of(#[trigger] entries[i]) == ids[j];
            assert(0 <= i < n + 1 && key_of(entries[i]) == more[j]);
        } else {
            assert(0 <= n < n + 1 && key_of(entries[n]) == more[j]);
        }
    }
    assert forall|i: int|
        0 <= i < n + 1 && Some(key_of(#[trigger] entries[i])) != pass_over implies more.contains(
        key_of(entries[i]),
    ) by {
        if i < n {
            assert(ids.contains(key_of(entries[i])));
            let j = choose|j: int| 0 <= j < ids.len() && ids[j] == key_of(entries[i]);
            assert(more[j] == key_of(entries[i]));
        } else {
            assert(more[ids.len() as int] == id);
        }
    }
}

/// Gathering goes on over the entry that is passed over.
proof fn lemma_gather_pass<T>(
    entries: Seq<(&u128, &T)>,
    n: int,
    pass_over: Option<u128>,
    ids: Seq<u128>,
)
    requires
        0 <= n < entries.len(),
        gathers(entries, n, pass_over, ids),
        Some(key_of(entries[n])) == pass_over,
    ensures
        gathers(entries, n + 1, pass_over, ids),
{
    assert forall|j: int| 0 <= j < ids.len() implies among(
        entries,
        n + 1,
        pass_over,
        #[trigger] ids[j],
    ) by {
        assert(among(entries, n, pass_over, ids[j]));
        let i = choose|i: int| 0 <= i < n && key_of(#[trigger] entries[i]) == ids[j];
        assert(0 <= i < n + 1 && key_of(entries[i]) == ids[j]);
    }
}

/// The registered identities but the one to pass over.
spec fn others<T>(sessions: Map<u128, T>, pass_over: Option<u128>) -> Set<u128> {
    match pass_over {
        Some(id) => sessions.dom().remove(id),
        None => sessions.dom(),
    }
}

/// Distinct identities that are all among the others, and leave none of
/// them out, are the others, and as many.
proof fn lemma_gathered<T>(sessions: Map<u128, T>, pass_over: Option<u128>, ids: Seq<u128>)
    requires
        sessions.dom().finite(),
        ids.no_duplicates(),
        forall|j: int| 0 <= j < ids.len() ==> others(sessions, pass_over).contains(#[trigger] ids[j]),
        forall|k: u128| others(sessions, pass_over).contains(k) ==> ids.contains(k),
    ensures
        ids.to_set() == others(sessions, pass_over),
        ids.len() == others(sessions, pass_over).len(),
{
    assert(ids.to_set() =~= others(sessions, pass_over));
    ids.unique_seq_to_set();
}

/// One event for the registry. Events are handled one at a time, in the
/// order in which they arrive.
pub enum InboundEvent<T> {
    /// A connection has been accepted: `id` is to be reached through
    /// `target`.
    Connect { id: ConnectionId, target: T },
    /// The connection `id` has ended.
    Disconnect { id: ConnectionId },
    /// The connection `id` has sent a text payload.
    Message { id: ConnectionId, payload: String },
    /// The registered connections are to be listed.
    Diagnostics,
}

/// What is left to do once the registry has handled an event.
pub enum Outcome<'a, T> {
    /// After `Connect`: nothing.
    Registered,
    /// After `Disconnect`: a line for the log.
    Departed { notice: String },
    /// After `Message`: the deliveries to perform. None of them may hold up
    /// or undo another, and none is reported to the sender.
    Routed { deliveries: Vec<Delivery<'a, T>> },
    /// After `Diagnostics`: the registered identities and the line that
    /// lists them for the log.
    Listed { clients: Vec<ConnectionId>, line: String },
}

/// The registry after `event`, given the registry before it.
pub open spec fn next_sessions<T>(sessions: Map<u128, T>, event: InboundEvent<T>) -> Map<u128, T> {
    match event {
        InboundEvent::Connect { id, target } => sessions.insert(id@, target),
        InboundEvent::Disconnect { id } => sessions.remove(id@),
        InboundEvent::Message { .. } => sessions,
        InboundEvent::Diagnostics => sessions,
    }
}

/// Whether `outcome` is what handling `event` over `sessions` leaves to do.
pub open spec fn answers<T>(
    sessions: Map<u128, T>,
    event: InboundEvent<T>,
    outcome: Outcome<T>,
) -> bool {
    match event {
        InboundEvent::Connect { .. } => outcome is Registered,
        InboundEvent::Disconnect { id } => {
            &&& outcome matches Outcome::Departed { notice }
            &&& notice@ == departure_notice(id@)
        },
        InboundEvent::Message { id, payload } => {
            &&& outcome matches Outcome::Routed { deliveries }
            &&& is_fan_out(sessions, id@, payload@, deliveries@)
        },
        InboundEvent::Diagnostics => {
            &&& outcome matches Outcome::Listed { clients, line }
            &&& is_snapshot(sessions, clients@)
            &&& line@ == listing(identities(clients@))
        },
    }
}

/// The registry: for each registered connection, the target through which
/// messages reach it.
pub struct Registry<T> {
    sessions: HashMap<u128, T>,
}

impl<T> View for Registry<T> {
    type V = Map<u128, T>;

    closed spec fn view(&self) -> Map<u128, T> {
        self.sessions@
    }
}

impl<T> Registry<T> {
    /// A registry without connections.
    pub fn new() -> (registry: Self)
        ensures
            registry@ == Map::<u128, T>::empty(),
    {
        Registry { sessions: HashMap::new() }
    }

    /// A registry holds finitely many connections.
    pub proof fn lemma_finite(&self)
        ensures
            self@.dom().finite(),
    {
        broadcast use group_hash_axioms;
    }

    /// The number of registered connections.
    pub fn len(&self) -> (n: usize)
        ensures
            n == self@.len(),
    {
        broadcast use group_hash_axioms;
        self.sessions.len()
    }

    /// Whether `id` is registered.
    pub fn contains(&self, id: ConnectionId) -> (found: bool)
        ensures
            found == self@.contains_key(id@),
    {
        broadcast use group_hash_axioms;
        self.sessions.contains_key(&id.raw)
    }

    /// The delivery target under which `id` is registered, if it is.
    pub fn target(&self, id: ConnectionId) -> (target: Option<&T>)
        ensures
            target == (if self@.contains_key(id@) { Some(&self@[id@]) } else { None }),
    {
        broadcast use group_hash_axioms;
        self.sessions.get(&id.raw)
    }

    /// The deliveries that follow from `sender` sending `payload`: one to
    /// each registered connection but the sender itself, each carrying the
    /// tagged payload.
    pub fn route(&self, sender: ConnectionId, payload: &str) -> (out: Vec<Delivery<'_, T>>)
        ensures
            is_fan_out(self@, sender@, payload@, out@),
            self@.contains_key(sender@) ==> out@.len() == self@.len() - 1,
            !self@.contains_key(sender@) ==> out@.len() == self@.len(),
    {
        broadcast use group_hash_axioms;
        let mut out: Vec<Delivery<'_, T>> = Vec::new();
        for entry in it: self.sessions.iter()
            invariant
                lists(it.seq(), self@),
                gathers(it.seq(), it.index(), Some(sender@), recipients(out@)),
                forall|j: int|
                    0 <= j < out@.len() ==> is_delivery_of(
                        self@,
                        sender@,
                        payload@,
                        #[trigger] out@[j],
                    ),
        {
            let (id, target) = entry;
            let ghost before = out@;
            if *id != sender.raw {
                let message = MyWsMessage(Frame::Text(tag(sender, payload)));
                out.push(Delivery { recipient: ConnectionId::new(*id), target, message });
                proof {
                    lemma_gather_keep(
                        it.seq(),
                        self@,
                        it.index(),
                        Some(sender@),
                        recipients(before),
                    );
                    assert(recipients(out@) =~= recipients(before).push(*id));
                }
            } else {
                proof {
                    lemma_gather_pass(it.seq(), it.index(), Some(sender@), recipients(before));
                }
            }
        }
        proof {
            let ids = recipients(out@);
            assert forall|j: int| 0 <= j < ids.len() implies others(self@, Some(sender@)).contains(
                #[trigger] ids[j],
            ) by {
                assert(is_delivery_of(self@, sender@, payload@, out@[j]));
            }
            lemma_gathered(self@, Some(sender@), ids);
        }
        out
    }

    /// The identities that are registered, each once, in no particular
    /// order.
    pub fn snapshot(&self) -> (clients: Vec<ConnectionId>)
        ensures
            is_snapshot(self@, clients@),
            clients@.len() == self@.len(),
    {
        broadcast use group_hash_axioms;
        let mut clients: Vec<ConnectionId> = Vec::new();
        for entry in it: self.sessions.iter()
            invariant
                lists(it.seq(), self@),
                gathers(it.seq(), it.index(), None, identities(clients@)),
        {
            let (id, _) = entry;
            let ghost before = clients@;
            clients.push(ConnectionId::new(*id));
            proof {
                lemma_gather_keep(it.seq(), self@, it.index(), None, identities(before));
                assert(identities(clients@) =~= identities(before).push(*id));
            }
        }
        proof {
            lemma_gathered(self@, None, identities(clients@));
        }
        clients
    }

    /// Registers `id` with its delivery target. An earlier entry for the same
    /// identity is replaced.
    pub fn connect(&mut self, id: ConnectionId, target: T)
        ensures
            final(self)@ == old(self)@.insert(id@, target),
    {
        broadcast use group_hash_axioms;
        self.sessions.insert(id.raw, target);
    }

    /// Removes `id` from the registry and returns the log line that names
    /// it. An identity that is not registered is no error: the registry
    /// stays as it is.
    pub fn disconnect(&mut self, id: ConnectionId) -> (notice: String)
        ensures
            final(self)@ == old(self)@.remove(id@),
            notice@ == departure_notice(id@),
    {
        broadcast use group_hash_axioms;
        let notice = departure_line(id);
        self.sessions.remove(&id.raw);
        notice
    }

    /// Handles one event: brings the registry up to date and returns what
    /// the event leaves to do.
    pub fn process<'a>(&'a mut self, event: InboundEvent<T>) -> (outcome: Outcome<'a, T>)
        ensures
            final(self)@ == next_sessions(old(self)@, event),
            answers(old(self)@, event, outcome),
    {
        match event {
            InboundEvent::Connect { id, target } => {
                self.connect(id, target);
                Outcome::Registered
            },
            InboundEvent::Disconnect { id } => {
                let notice = self.disconnect(id);
                Outcome::Departed { notice }
            },
            InboundEvent::Message { id, payload } => {
                let deliveries = self.route(id, payload.as_str());
                Outcome::Routed { deliveries }
            },
            InboundEvent::Diagnostics => {
                let clients = self.snapshot();
                let line = clients_line(&clients);
                Outcome::Listed { clients, line }
            },
        }
    }
}

} // verus!
