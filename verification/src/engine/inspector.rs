//! First look at the initial packet of a connection.

use vstd::prelude::*;
use vstd::string::*;

verus! {

/// Verdict on the first bytes of a connection.
#[derive(Debug, PartialEq)]
pub enum InspectorResult {
    /// The packet is a CONNECT.
    Valid,
    /// The packet is of another type; the text names it.
    Invalid(String),
    /// Nothing has arrived yet.
    Incomplete,
}

/// A verdict, its text as a sequence of characters.
pub enum InspectorVerdict {
    Valid,
    Invalid(Seq<char>),
    Incomplete,
}

impl View for InspectorResult {
    type V = InspectorVerdict;

    open spec fn view(&self) -> InspectorVerdict {
        match self {
            InspectorResult::Valid => InspectorVerdict::Valid,
            InspectorResult::Invalid(reason) => InspectorVerdict::Invalid(reason@),
            InspectorResult::Incomplete => InspectorVerdict::Incomplete,
        }
    }
}

/// The decimal digit for `d`.
pub open spec fn digit_char(d: int) -> char
    recommends
        0 <= d <= 9,
{
    if d == 0 {
        '0'
    } else if d == 1 {
        '1'
    } else if d == 2 {
        '2'
    } else if d == 3 {
        '3'
    } else if d == 4 {
        '4'
    } else if d == 5 {
        '5'
    } else if d == 6 {
        '6'
    } else if d == 7 {
        '7'
    } else if d == 8 {
        '8'
    } else {
        '9'
    }
}

/// A packet type, which is below sixteen, in decimal.
pub open spec fn packet_type_text(packet_type: u8) -> Seq<char>
    recommends
        packet_type < 16,
{
    if packet_type < 10 {
        seq![digit_char(packet_type as int)]
    } else {
        seq!['1', digit_char(packet_type - 10)]
    }
}

/// The text that names a packet type that is not CONNECT.
pub open spec fn invalid_reason(packet_type: u8) -> Seq<char> {
    "Expected CONNECT (1), got "@ + packet_type_text(packet_type)
}

/// The verdict on the first bytes of a connection, by the high nibble of
/// the first byte.
pub open spec fn initial_packet_spec(buf: Seq<u8>) -> InspectorVerdict {
    if buf.len() == 0 {
        InspectorVerdict::Incomplete
    } else if buf[0] / 16 == 1 {
        InspectorVerdict::Valid
    } else {
        InspectorVerdict::Invalid(invalid_reason(buf[0] / 16))
    }
}

/// A packet type in decimal.
fn packet_type_name(packet_type: u8) -> (name: &'static str)
    requires
        packet_type < 16,
    ensures
        name@ == packet_type_text(packet_type),
{
    proof {
        reveal_strlit("0");
        reveal_strlit("1");
        reveal_strlit("2");
        reveal_strlit("3");
        reveal_strlit("4");
        reveal_strlit("5");
        reveal_strlit("6");
        reveal_strlit("7");
        reveal_strlit("8");
        reveal_strlit("9");
        reveal_strlit("10");
        reveal_strlit("11");
        reveal_strlit("12");
        reveal_strlit("13");
        reveal_strlit("14");
        reveal_strlit("15");
    }
    let name = if packet_type == 0 {
        "0"
    } else if packet_type == 1 {
        "1"
    } else if packet_type == 2 {
        "2"
    } else if packet_type == 3 {
        "3"
    } else if packet_type == 4 {
        "4"
    } else if packet_type == 5 {
        "5"
    } else if packet_type == 6 {
        "6"
    } else if packet_type == 7 {
        "7"
    } else if packet_type == 8 {
        "8"
    } else if packet_type == 9 {
        "9"
    } else if packet_type == 10 {
        "10"
    } else if packet_type == 11 {
        "11"
    } else if packet_type == 12 {
        "12"
    } else if packet_type == 13 {
        "13"
    } else if packet_type == 14 {
        "14"
    } else {
        "15"
    };
    proof {
        assert(name@ =~= packet_type_text(packet_type));
    }
    name
}

/// Judges the first bytes of a connection: a CONNECT is valid, any other
/// packet type is named in the verdict, and no bytes at all are no verdict
/// yet.
pub fn inspect_initial_packet(buf: &[u8]) -> (r: InspectorResult)
    ensures
        r@ == initial_packet_spec(buf@),
{
    if buf.len() == 0 {
        return InspectorResult::Incomplete;
    }
    let first: u8 = buf[0];
    let packet_type: u8 = first >> 4;
    assert(first >> 4 == first / 16) by (bit_vector);
    if packet_type == 1 {
        InspectorResult::Valid
    } else {
        let reason = "Expected CONNECT (1), got ".to_string().concat(
            packet_type_name(packet_type),
        );
        InspectorResult::Invalid(reason)
    }
}

} // verus!
