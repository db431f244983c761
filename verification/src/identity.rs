//! Connection identities and their textual form.

use vstd::prelude::*;
use vstd::arithmetic::power::pow;

verus! {

/// The sixteen lower-case hexadecimal digits, in order of value.
pub open spec fn hex_digits() -> Seq<char> {
    seq!['0', '1', '2', '3', '4', '5', '6', '7', '8', '9', 'a', 'b', 'c', 'd', 'e', 'f']
}

/// The `k`-th hexadecimal digit of a 128-bit value, counted from the most
/// significant one (`k == 0`) to the least significant one (`k == 31`).
pub open spec fn nibble(raw: u128, k: int) -> int {
    (raw as int / pow(16, (31 - k) as nat)) % 16
}

/// Whether position `i` of the 36-character form holds a hyphen.
pub open spec fn is_hyphen_position(i: int) -> bool {
    i == 8 || i == 13 || i == 18 || i == 23
}

/// The number of hyphens that stand before position `i`.
pub open spec fn hyphens_before(i: int) -> int {
    if i < 8 {
        0
    } else if i < 13 {
        1
    } else if i < 18 {
        2
    } else if i < 23 {
        3
    } else {
        4
    }
}

/// The character at position `i` of the hyphenated form of `raw`.
pub open spec fn hyphenated_char(raw: u128, i: int) -> char {
    if is_hyphen_position(i) {
        '-'
    } else {
        hex_digits()[nibble(raw, i - hyphens_before(i))]
    }
}

/// The hyphenated lower-case form of a 128-bit identity: 32 hexadecimal
/// digits, most significant first, in groups of 8, 4, 4, 4 and 12 that are
/// separated by hyphens.
pub open spec fn hyphenated(raw: u128) -> Seq<char> {
    Seq::new(36, |i: int| hyphenated_char(raw, i))
}

/// The identity of one connection: a 128-bit value that is assigned when the
/// connection is accepted and never changes afterwards.
#[derive(Clone, Copy, Debug, PartialEq, Eq, Structural, Hash)]
pub struct ConnectionId {
    pub raw: u128,
}

impl View for ConnectionId {
    type V = u128;

    open spec fn view(&self) -> u128 {
        self.raw
    }
}

/// Formats a 128-bit value with `uuid::Uuid::from_u128` and the `Display`
/// impl of `uuid::Uuid`. Trusted: the text is claimed to be the hyphenated
/// lower-case form, big end first, which is what the encoder of the `uuid`
/// crate writes for `Display`.
#[verifier::external_body]
fn uuid_text(raw: u128) -> (text: String)
    ensures
        text@ == hyphenated(raw),
{
    uuid::Uuid::from_u128(raw).to_string()
}

impl ConnectionId {
    /// The identity with the given 128-bit value.
    pub fn new(raw: u128) -> (id: ConnectionId)
        ensures
            id@ == raw,
    {
        ConnectionId { raw }
    }

    /// The 128-bit value of the identity.
    pub fn as_u128(&self) -> (raw: u128)
        ensures
            raw == self@,
    {
        self.raw
    }

    /// The text by which the identity is shown to other connections and in
    /// log lines.
    pub fn to_text(&self) -> (text: String)
        ensures
            text@ == hyphenated(self@),
    {
        uuid_text(self.raw)
    }
}

} // verus!
