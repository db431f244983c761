//! Runs of events: the registry and the messages sent over a whole sequence
//! of events, and what holds of them.

use vstd::prelude::*;
use crate::frame::{Frame, MyWsMessage};
use crate::registry::{
    answers, is_delivery_of, is_fan_out, next_sessions, recipients, tagged, Delivery,
    InboundEvent, Outcome,
};

verus! {

/// The registry after `events` have been handled in order, starting from
/// `sessions`.
pub open spec fn sessions_after<T>(
    sessions: Map<u128, T>,
    events: Seq<InboundEvent<T>>,
) -> Map<u128, T>
    decreases events.len(),
{
    if events.len() == 0 {
        sessions
    } else {
        next_sessions(sessions_after(sessions, events.drop_last()), events.last())
    }
}

/// Whether `event` registers `id`.
pub open spec fn connects<T>(event: InboundEvent<T>, id: u128) -> bool {
    event matches InboundEvent::Connect { id: who, .. } && who@ == id
}

/// Whether `event` takes `id` out of the registry.
pub open spec fn disconnects<T>(event: InboundEvent<T>, id: u128) -> bool {
    event matches InboundEvent::Disconnect { id: who } && who@ == id
}

/// Whether some event of `events` takes `id` out of the registry.
pub open spec fn departs<T>(events: Seq<InboundEvent<T>>, id: u128) -> bool {
    exists|j: int| 0 <= j < events.len() && disconnects(#[trigger] events[j], id)
}

/// Whether `events[i]` registers `id` and no later event takes it out again.
pub open spec fn stays_from<T>(events: Seq<InboundEvent<T>>, id: u128, i: int) -> bool {
    &&& 0 <= i < events.len()
    &&& connects(events[i], id)
    &&& forall|j: int| i < j < events.len() ==> !disconnects(#[trigger] events[j], id)
}

/// Whether `events` hold a `Connect` of `id` that no later `Disconnect` of
/// `id` follows: the connects of `id` outnumber the disconnects that undo
/// them.
pub open spec fn outlasts<T>(events: Seq<InboundEvent<T>>, id: u128) -> bool {
    exists|i: int| stays_from(events, id, i)
}

/// After any run of events, an identity is registered exactly if the run
/// holds a `Connect` of it that no later `Disconnect` of it follows, or if it
/// was registered before the run and the run holds no `Disconnect` of it.
/// For a registry that starts empty only the first can be.
pub proof fn lemma_registered_iff_connect_outlasts<T>(
    sessions: Map<u128, T>,
    events: Seq<InboundEvent<T>>,
    id: u128,
)
    ensures
        sessions_after(sessions, events).contains_key(id) <==> (outlasts(events, id) || (
        sessions.contains_key(id) && !departs(events, id))),
        sessions_after(Map::<u128, T>::empty(), events).contains_key(id) <==> outlasts(
            events,
            id,
        ),
{
    lemma_registered_step(sessions, events, id);
    lemma_registered_step(Map::<u128, T>::empty(), events, id);
}

proof fn lemma_registered_step<T>(sessions: Map<u128, T>, events: Seq<InboundEvent<T>>, id: u128)
    ensures
        sessions_after(sessions, events).contains_key(id) <==> (outlasts(events, id) || (
        sessions.contains_key(id) && !departs(events, id))),
    decreases events.len(),
{
    if events.len() > 0 {
        let earlier = events.drop_last();
        let last = events.len() - 1;
        lemma_registered_step(sessions, earlier, id);
        assert forall|j: int| 0 <= j < earlier.len() implies earlier[j] == events[j] by {}
        if connects(events.last(), id) {
            assert(stays_from(events, id, last));
        } else if disconnects(events.last(), id) {
            assert(disconnects(events[last], id));
            assert forall|i: int| !stays_from(events, id, i) by {
                if stays_from(events, id, i) {
                    assert(i < last);
                    assert(disconnects(events[last], id));
                }
            }
        } else {
            if outlasts(earlier, id) {
                let i = choose|i: int| stays_from(earlier, id, i);
                assert(stays_from(events, id, i)) by {
                    assert forall|j: int| i < j < events.len() implies !disconnects(
                        #[trigger] events[j],
                        id,
                    ) by {
                        if j < last {
                            assert(!disconnects(earlier[j], id));
                        }
                    }
                }
            }
            if outlasts(events, id) {
                let i = choose|i: int| stays_from(events, id, i);
                assert(i < last);
                assert(stays_from(earlier, id, i)) by {
                    assert forall|j: int| i < j < earlier.len() implies !disconnects(
                        #[trigger] earlier[j],
                        id,
                    ) by {
                        assert(!disconnects(events[j], id));
                    }
                }
            }
            if departs(earlier, id) {
                let j = choose|j: int| 0 <= j < earlier.len() && disconnects(#[trigger] earlier[j], id);
                assert(disconnects(events[j], id));
            }
            if departs(events, id) {
                let j = choose|j: int| 0 <= j < events.len() && disconnects(#[trigger] events[j], id);
                assert(j < last);
                assert(disconnects(earlier[j], id));
            }
        }
    } else {
        assert(!outlasts(events, id)) by {
            assert forall|i: int| !stays_from(events, id, i) by {}
        }
    }
}

/// To handle `Disconnect` of one identity twice in a row leaves the registry
/// as the first of the two left it.
pub proof fn lemma_disconnect_idempotent<T>(sessions: Map<u128, T>, event: InboundEvent<T>)
    requires
        event is Disconnect,
    ensures
        next_sessions(next_sessions(sessions, event), event) == next_sessions(sessions, event),
{
    let once = next_sessions(sessions, event);
    assert(next_sessions(once, event) =~= once);
}

/// A broadcast makes one delivery less than there are registered
/// connections if the sender is registered, and as many if it is not; and
/// none of them goes to the sender.
pub proof fn lemma_fan_out_count<T>(
    sessions: Map<u128, T>,
    sender: u128,
    payload: Seq<char>,
    out: Seq<Delivery<T>>,
)
    requires
        sessions.dom().finite(),
        is_fan_out(sessions, sender, payload, out),
    ensures
        sessions.contains_key(sender) ==> out.len() == sessions.len() - 1,
        !sessions.contains_key(sender) ==> out.len() == sessions.len(),
        !recipients(out).contains(sender),
{
    recipients(out).unique_seq_to_set();
    if recipients(out).contains(sender) {
        assert(recipients(out).to_set().contains(sender));
    }
}

/// The text that a routed message carries, if it is a text frame.
pub open spec fn text_of(message: MyWsMessage) -> Seq<char> {
    match message.0 {
        Frame::Text(text) => text@,
        _ => Seq::empty(),
    }
}

/// The texts that `out` holds for `recipient`, in the order of `out`.
pub open spec fn copies<T>(out: Seq<Delivery<T>>, recipient: u128) -> Seq<Seq<char>>
    decreases out.len(),
{
    if out.len() == 0 {
        Seq::empty()
    } else if out.last().recipient@ == recipient {
        copies(out.drop_last(), recipient).push(text_of(out.last().message))
    } else {
        copies(out.drop_last(), recipient)
    }
}

/// The deliveries that an outcome asks for.
pub open spec fn to_perform<T>(outcome: Outcome<T>) -> Seq<Delivery<T>> {
    match outcome {
        Outcome::Routed { deliveries } => deliveries@,
        _ => Seq::empty(),
    }
}

/// What `recipient` is sent when `event` is handled over `sessions`: the
/// tagged payload, once, if the event is a message of another connection and
/// `recipient` is registered; else nothing.
pub open spec fn sent_to<T>(
    sessions: Map<u128, T>,
    event: InboundEvent<T>,
    recipient: u128,
) -> Seq<Seq<char>> {
    match event {
        InboundEvent::Message { id, payload } => if id@ != recipient && sessions.contains_key(
            recipient,
        ) {
            seq![tagged(id@, payload@)]
        } else {
            Seq::empty()
        },
        _ => Seq::empty(),
    }
}

/// All that `recipient` is sent while `events` are handled in order,
/// starting from `sessions`; what is sent first stands first.
pub open spec fn observed<T>(
    sessions: Map<u128, T>,
    events: Seq<InboundEvent<T>>,
    recipient: u128,
) -> Seq<Seq<char>>
    decreases events.len(),
{
    if events.len() == 0 {
        Seq::empty()
    } else {
        observed(sessions, events.drop_last(), recipient) + sent_to(
            sessions_after(sessions, events.drop_last()),
            events.last(),
            recipient,
        )
    }
}

proof fn lemma_no_copy<T>(out: Seq<Delivery<T>>, recipient: u128)
    requires
        forall|j: int| 0 <= j < out.len() ==> (#[trigger] out[j]).recipient@ != recipient,
    ensures
        copies(out, recipient) == Seq::<Seq<char>>::empty(),
    decreases out.len(),
{
    if out.len() > 0 {
        let earlier = out.drop_last();
        assert forall|j: int| 0 <= j < earlier.len() implies (#[trigger] earlier[j]).recipient@
            != recipient by {
            assert(earlier[j] == out[j]);
        }
        lemma_no_copy(earlier, recipient);
        assert(out.last() == out[out.len() - 1]);
    }
}

proof fn lemma_one_copy<T>(out: Seq<Delivery<T>>, recipient: u128, at: int)
    requires
        0 <= at < out.len(),
        out[at].recipient@ == recipient,
        forall|j: int| 0 <= j < out.len() && j != at ==> (#[trigger] out[j]).recipient@ != recipient,
    ensures
        copies(out, recipient) == seq![text_of(out[at].message)],
    decreases out.len(),
{
    let earlier = out.drop_last();
    let last = out.len() - 1;
    assert(out.last() == out[last]);
    if at == last {
        assert forall|j: int| 0 <= j < earlier.len() implies (#[trigger] earlier[j]).recipient@
            != recipient by {
            assert(earlier[j] == out[j]);
        }
        lemma_no_copy(earlier, recipient);
        assert(copies(out, recipient) =~= seq![text_of(out[at].message)]);
    } else {
        assert(earlier[at] == out[at]);
        assert forall|j: int| 0 <= j < earlier.len() && j != at implies (
        #[trigger] earlier[j]).recipient@ != recipient by {
            assert(earlier[j] == out[j]);
        }
        lemma_one_copy(earlier, recipient, at);
    }
}

/// What an outcome asks to deliver to a connection is what the event owes
/// it: a registered connection other than the sender gets exactly one copy
/// of the tagged payload, and every other connection gets nothing.
pub proof fn lemma_outcome_sends_what_is_owed<T>(
    sessions: Map<u128, T>,
    event: InboundEvent<T>,
    outcome: Outcome<T>,
    recipient: u128,
)
    requires
        answers(sessions, event, outcome),
    ensures
        copies(to_perform(outcome), recipient) == sent_to(sessions, event, recipient),
{
    match event {
        InboundEvent::Message { id, payload } => {
            let out = to_perform(outcome);
            let ids = recipients(out);
            if id@ != recipient && sessions.contains_key(recipient) {
                assert(ids.to_set().contains(recipient));
                let at = choose|at: int| 0 <= at < ids.len() && ids[at] == recipient;
                assert forall|j: int| 0 <= j < out.len() && j != at implies (
                #[trigger] out[j]).recipient@ != recipient by {
                    assert(ids[j] == out[j].recipient@);
                }
                assert(is_delivery_of(sessions, id@, payload@, out[at]));
                lemma_one_copy(out, recipient, at);
            } else {
                assert forall|j: int| 0 <= j < out.len() implies (#[trigger] out[j]).recipient@
                    != recipient by {
                    assert(is_delivery_of(sessions, id@, payload@, out[j]));
                }
                lemma_no_copy(out, recipient);
            }
        },
        _ => {},
    }
}

/// A connection that has been taken out of the registry is sent nothing,
/// whatever the next event is.
pub proof fn lemma_departed_is_sent_nothing<T>(
    sessions: Map<u128, T>,
    departure: InboundEvent<T>,
    next: InboundEvent<T>,
    id: u128,
)
    requires
        disconnects(departure, id),
    ensures
        sent_to(next_sessions(sessions, departure), next, id) == Seq::<Seq<char>>::empty(),
{
}

/// Whether `events[i]` is a message that reaches `recipient`: it comes from
/// another connection, and `recipient` is registered when it is handled.
pub open spec fn reaches<T>(
    sessions: Map<u128, T>,
    events: Seq<InboundEvent<T>>,
    recipient: u128,
    i: int,
) -> bool {
    &&& 0 <= i < events.len()
    &&& events[i] matches InboundEvent::Message { id, .. }
    &&& id@ != recipient
    &&& sessions_after(sessions, events.take(i)).contains_key(recipient)
}

/// The tagged form of a message event.
pub open spec fn tagged_form<T>(event: InboundEvent<T>) -> Seq<char> {
    match event {
        InboundEvent::Message { id, payload } => tagged(id@, payload@),
        _ => Seq::empty(),
    }
}

proof fn lemma_observed_step<T>(
    sessions: Map<u128, T>,
    events: Seq<InboundEvent<T>>,
    recipient: u128,
    k: int,
)
    requires
        0 <= k < events.len(),
    ensures
        observed(sessions, events.take(k + 1), recipient) == observed(
            sessions,
            events.take(k),
            recipient,
        ) + sent_to(sessions_after(sessions, events.take(k)), events[k], recipient),
{
    let upto = events.take(k + 1);
    assert(upto.drop_last() =~= events.take(k));
    assert(upto.last() == events[k]);
}

proof fn lemma_observed_grows<T>(
    sessions: Map<u128, T>,
    events: Seq<InboundEvent<T>>,
    recipient: u128,
    k: int,
)
    requires
        0 <= k <= events.len(),
    ensures
        observed(sessions, events.take(k), recipient).is_prefix_of(
            observed(sessions, events, recipient),
        ),
    decreases events.len() - k,
{
    if k == events.len() {
        assert(events.take(k) =~= events);
    } else {
        lemma_observed_step(sessions, events, recipient, k);
        lemma_observed_grows(sessions, events, recipient, k + 1);
    }
}

/// Messages reach a connection in the order in which the registry handles
/// them: of two messages that both reach `recipient`, the tagged form of the
/// earlier one stands before that of the later one in what `recipient` is
/// sent. This holds of any two messages, and so of two from one sender.
pub proof fn lemma_order_kept<T>(
    sessions: Map<u128, T>,
    events: Seq<InboundEvent<T>>,
    recipient: u128,
    i: int,
    j: int,
)
    requires
        i < j,
        reaches(sessions, events, recipient, i),
        reaches(sessions, events, recipient, j),
    ensures
        ({
            let seen = observed(sessions, events, recipient);
            let first = observed(sessions, events.take(i), recipient).len() as int;
            let second = observed(sessions, events.take(j), recipient).len() as int;
            &&& first < second < seen.len()
            &&& seen[first] == tagged_form(events[i])
            &&& seen[second] == tagged_form(events[j])
        }),
{
    let seen = observed(sessions, events, recipient);
    let before_i = observed(sessions, events.take(i), recipient);
    let with_i = observed(sessions, events.take(i + 1), recipient);
    let before_j = observed(sessions, events.take(j), recipient);
    let with_j = observed(sessions, events.take(j + 1), recipient);
    lemma_observed_step(sessions, events, recipient, i);
    lemma_observed_step(sessions, events, recipient, j);
    assert(with_i =~= before_i.push(tagged_form(events[i])));
    assert(with_j =~= before_j.push(tagged_form(events[j])));
    assert(events.take(j).take(i + 1) =~= events.take(i + 1));
    lemma_observed_grows(sessions, events.take(j), recipient, i + 1);
    lemma_observed_grows(sessions, events, recipient, j + 1);
    assert(with_i.is_prefix_of(before_j));
    assert(with_j.is_prefix_of(seen));
    assert(before_j[before_i.len() as int] == with_i[before_i.len() as int]);
    assert(with_j[before_i.len() as int] == before_j[before_i.len() as int]);
    assert(seen[before_i.len() as int] == with_j[before_i.len() as int]);
    assert(seen[before_j.len() as int] == with_j[before_j.len() as int]);
}

} // verus!
