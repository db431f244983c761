//! The log lines of the relay and the pace of its periodic listing.

use vstd::prelude::*;
use vstd::string::*;
use crate::identity::{hyphenated, ConnectionId};
use crate::registry::identities;

verus! {

/// The seconds between two listings of the registered connections.
pub const DIAGNOSTICS_INTERVAL_SECS: u64 = 5;

/// The log line for the departure of `id`.
pub open spec fn departure_notice(id: u128) -> Seq<char> {
    "Client "@ + hyphenated(id) + " disconnected"@
}

/// The identities of `ids` in their textual form, in order, with a comma and
/// a space between each two.
pub open spec fn joined(ids: Seq<u128>) -> Seq<char>
    decreases ids.len(),
{
    if ids.len() == 0 {
        Seq::empty()
    } else if ids.len() == 1 {
        hyphenated(ids[0])
    } else {
        joined(ids.drop_last()) + ", "@ + hyphenated(ids.last())
    }
}

/// The log line that lists `ids` as the registered connections.
pub open spec fn listing(ids: Seq<u128>) -> Seq<char> {
    "Connected clients: ["@ + joined(ids) + "]"@
}

/// Writes the log line for the departure of `id`.
pub fn departure_line(id: ConnectionId) -> (line: String)
    ensures
        line@ == departure_notice(id@),
{
    let mut line = String::from_str("Client ");
    let text = id.to_text();
    line.append(text.as_str());
    line.append(" disconnected");
    line
}

/// Writes the log line that lists `clients`, in the order given.
pub fn clients_line(clients: &Vec<ConnectionId>) -> (line: String)
    ensures
        line@ == listing(identities(clients@)),
{
    let mut line = String::from_str("Connected clients: [");
    let ghost ids = identities(clients@);
    let mut i: usize = 0;
    while i < clients.len()
        invariant
            0 <= i <= clients.len(),
            ids == identities(clients@),
            line@ == "Connected clients: ["@ + joined(ids.take(i as int)),
        decreases clients.len() - i,
    {
        let ghost before = line@;
        if i > 0 {
            line.append(", ");
        }
        let text = clients[i].to_text();
        line.append(text.as_str());
        proof {
            let upto = ids.take(i + 1);
            assert(upto.drop_last() =~= ids.take(i as int));
            assert(upto.last() == clients@[i as int]@);
            if i == 0 {
                assert(joined(ids.take(0)) =~= Seq::<char>::empty());
                assert(line@ =~= "Connected clients: ["@ + joined(upto));
            } else {
                assert(line@ =~= "Connected clients: ["@ + joined(upto));
            }
        }
        i = i + 1;
    }
    proof {
        assert(ids.take(i as int) =~= ids);
    }
    line.append("]");
    line
}

} // verus!
