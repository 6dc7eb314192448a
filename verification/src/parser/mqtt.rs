//! MQTT fixed-header classification and the Remaining Length variable-byte
//! integer.

use vstd::prelude::*;

verus! {

/// What the first byte of an MQTT control packet announces.
#[derive(Debug, PartialEq, Eq, Clone, Copy, Structural)]
pub enum MqttPacketType {
    Connect,
    Publish,
    Other,
    Malformed,
}

/// Largest Remaining Length that the four-byte encoding can carry.
pub const MAX_REMAINING_LENGTH: usize = 268_435_455;

/// The packet type announced by a fixed header: its high nibble.
pub open spec fn packet_type_of(payload: Seq<u8>) -> MqttPacketType {
    if payload.len() == 0 {
        MqttPacketType::Malformed
    } else if payload[0] / 16 == 1 {
        MqttPacketType::Connect
    } else if payload[0] / 16 == 3 {
        MqttPacketType::Publish
    } else {
        MqttPacketType::Other
    }
}

/// Classifies a packet by the high nibble of its first byte.
pub fn inspect_packet(payload: &[u8]) -> (kind: MqttPacketType)
    ensures
        kind == packet_type_of(payload@),
{
    if payload.len() == 0 {
        return MqttPacketType::Malformed;
    }
    let first: u8 = payload[0];
    let packet_type: u8 = first >> 4;
    assert(first >> 4 == first / 16) by (bit_vector);
    if packet_type == 1 {
        MqttPacketType::Connect
    } else if packet_type == 3 {
        MqttPacketType::Publish
    } else {
        MqttPacketType::Other
    }
}

/// A byte whose top bit announces that another length byte follows.
pub open spec fn is_continuation(b: u8) -> bool {
    b >= 0x80
}

/// Number of bytes at the start of `s` that have the continuation bit set.
pub open spec fn leading_continuations(s: Seq<u8>) -> nat
    decreases s.len(),
{
    if s.len() == 0 || !is_continuation(s[0]) {
        0
    } else {
        1 + leading_continuations(s.drop_first())
    }
}

/// The number that `s` spells in base 128, least significant digit first,
/// each byte giving its low seven bits.
pub open spec fn base128_value(s: Seq<u8>) -> nat
    decreases s.len(),
{
    if s.len() == 0 {
        0
    } else {
        (s[0] % 128) as nat + 128 * base128_value(s.drop_first())
    }
}

/// Outcome of decoding a Remaining Length.
pub enum Decoded {
    /// A terminating byte was found within the first four bytes.
    Value { value: nat, used: nat },
    /// The input ended while every byte seen asked for another.
    Incomplete,
    /// Four bytes in a row asked for another.
    Malformed,
}

/// The Remaining Length at the start of `s`.
pub open spec fn decode_spec(s: Seq<u8>) -> Decoded {
    let n = leading_continuations(s);
    if n >= 4 {
        Decoded::Malformed
    } else if n == s.len() {
        Decoded::Incomplete
    } else {
        Decoded::Value { value: base128_value(s.take((n + 1) as int)), used: n + 1 }
    }
}

/// 128 to the power `k`.
pub open spec fn pow128(k: nat) -> nat
    decreases k,
{
    if k == 0 {
        1
    } else {
        128 * pow128((k - 1) as nat)
    }
}

/// The powers of 128 up to the fourth.
proof fn lemma_pow128_small()
    ensures
        pow128(0) == 1,
        pow128(1) == 128,
        pow128(2) == 16_384,
        pow128(3) == 2_097_152,
        pow128(4) == 268_435_456,
{
    reveal_with_fuel(pow128, 5);
}

/// Appending one digit adds that digit times the weight of its position.
proof fn lemma_base128_push(s: Seq<u8>, b: u8)
    ensures
        base128_value(s.push(b)) == base128_value(s) + (b % 128) * pow128(s.len()),
    decreases s.len(),
{
    if s.len() == 0 {
        assert(s.push(b).drop_first() =~= Seq::<u8>::empty());
        assert(base128_value(s.push(b).drop_first()) == 0);
        assert((b % 128) * pow128(0) == b % 128) by (nonlinear_arith)
            requires
                pow128(0) == 1,
        ;
    } else {
        let t = s.drop_first();
        assert(s.push(b).drop_first() =~= t.push(b));
        lemma_base128_push(t, b);
        assert(128 * ((b % 128) * pow128(t.len())) == (b % 128) * pow128(s.len()))
            by (nonlinear_arith)
            requires
                pow128(s.len()) == 128 * pow128(t.len()),
        ;
    }
}

/// A value of `k` digits is below 128 to the power `k`.
proof fn lemma_base128_bound(s: Seq<u8>)
    ensures
        base128_value(s) < pow128(s.len()),
    decreases s.len(),
{
    if s.len() > 0 {
        lemma_base128_bound(s.drop_first());
    }
}

/// When the first `k` bytes all continue, the count of leading
/// continuation bytes is `k` plus the count after them.
proof fn lemma_leading_continuations_skip(s: Seq<u8>, k: nat)
    requires
        k <= s.len(),
        forall|i: int| 0 <= i < k ==> is_continuation(#[trigger] s[i]),
    ensures
        leading_continuations(s) == k + leading_continuations(s.skip(k as int)),
    decreases k,
{
    if k == 0 {
        assert(s.skip(0) =~= s);
    } else {
        let t = s.drop_first();
        assert forall|i: int| 0 <= i < k - 1 implies is_continuation(#[trigger] t[i]) by {
            assert(t[i] == s[i + 1]);
        }
        lemma_leading_continuations_skip(t, (k - 1) as nat);
        assert(t.skip(k - 1) =~= s.skip(k as int));
    }
}

/// Every one of the leading continuation bytes has its top bit set, and the
/// byte after them, if there is one, does not.
pub proof fn lemma_leading_continuations_spec(s: Seq<u8>)
    ensures
        leading_continuations(s) <= s.len(),
        forall|i: int| 0 <= i < leading_continuations(s) ==> is_continuation(#[trigger] s[i]),
        leading_continuations(s) < s.len() ==> !is_continuation(
            s[leading_continuations(s) as int],
        ),
    decreases s.len(),
{
    if s.len() == 0 || !is_continuation(s[0]) {
    } else {
        let t = s.drop_first();
        lemma_leading_continuations_spec(t);
        assert forall|i: int| 0 <= i < leading_continuations(s) implies is_continuation(
            #[trigger] s[i],
        ) by {
            if i > 0 {
                assert(s[i] == t[i - 1]);
            }
        }
    }
}

/// The two error names of the decoder are different strings.
pub proof fn lemma_error_names_differ()
    ensures
        "Incomplete"@ != "Malformed"@,
{
    reveal_strlit("Incomplete");
    reveal_strlit("Malformed");
    assert("Incomplete"@.len() == 10);
    assert("Malformed"@.len() == 9);
}

/// Decodes the MQTT Remaining Length at the start of `buf`.
///
/// On success the pair is the value and the number of bytes it took. The
/// error is `"Incomplete"` when the input ended before a terminating byte and
/// fewer than four bytes were seen, and `"Malformed"` when the first four
/// bytes all ask for another.
pub fn decode_remaining_length(buf: &[u8]) -> (r: Result<(usize, usize), &'static str>)
    ensures
        match r {
            Ok((value, used)) => decode_spec(buf@) == (Decoded::Value {
                value: value as nat,
                used: used as nat,
            }),
            Err(e) => {
                ||| e@ == "Incomplete"@ && decode_spec(buf@) == Decoded::Incomplete
                ||| e@ == "Malformed"@ && decode_spec(buf@) == Decoded::Malformed
            },
        },
        r matches Ok((value, used)) ==> value <= MAX_REMAINING_LENGTH && 1 <= used <= 4 && used
            <= buf@.len() && !is_continuation(buf@[used - 1]),
        r matches Err(e) && e@ == "Incomplete"@ ==> buf@.len() < 4 && forall|i: int|
            0 <= i < buf@.len() ==> is_continuation(#[trigger] buf@[i]),
        r matches Err(e) && e@ == "Malformed"@ ==> buf@.len() >= 4 && forall|i: int|
            0 <= i < 4 ==> is_continuation(#[trigger] buf@[i]),
{
    let mut multiplier: usize = 1;
    let mut value: usize = 0;
    let mut bytes_used: usize = 0;
    proof {
        lemma_pow128_small();
    }
    while bytes_used < buf.len()
        invariant
            bytes_used <= buf@.len(),
            bytes_used < 4,
            forall|i: int| 0 <= i < bytes_used ==> is_continuation(#[trigger] buf@[i]),
            multiplier == pow128(bytes_used as nat),
            value == base128_value(buf@.take(bytes_used as int)),
            value < multiplier,
        decreases buf@.len() - bytes_used,
    {
        let b: u8 = buf[bytes_used];
        let ghost seen = buf@.take(bytes_used as int);
        proof {
            lemma_pow128_small();
            lemma_base128_push(seen, b);
            assert(seen.push(b) =~= buf@.take(bytes_used + 1));
            lemma_base128_bound(buf@.take(bytes_used + 1));
            assert(b & 0x7F == b % 128) by (bit_vector);
            assert((b & 0x80 == 0) == (b < 0x80)) by (bit_vector);
            assert((b % 128) * pow128(bytes_used as nat) <= 127 * 2_097_152) by (nonlinear_arith)
                requires
                    b % 128 <= 127,
                    pow128(bytes_used as nat) <= 2_097_152,
            ;
        }
        bytes_used += 1;
        let digit: usize = (b & 0x7F) as usize;
        value += digit * multiplier;
        if (b & 0x80) == 0 {
            proof {
                lemma_leading_continuations_skip(buf@, (bytes_used - 1) as nat);
                assert(buf@.skip(bytes_used - 1)[0] == b);
            }
            return Ok((value, bytes_used));
        }
        if bytes_used >= 4 {
            proof {
                lemma_leading_continuations_skip(buf@, 4);
                lemma_error_names_differ();
            }
            return Err("Malformed");
        }
        multiplier = multiplier * 128;
    }
    proof {
        lemma_error_names_differ();
        lemma_leading_continuations_skip(buf@, bytes_used as nat);
        assert(buf@.skip(bytes_used as int).len() == 0);
    }
    Err("Incomplete")
}

/// What `decode_spec` can say of any input: a value comes with one to four
/// bytes, all inside the input, and is at most 268,435,455; `Incomplete`
/// means fewer than four bytes, every one asking for another; `Malformed`
/// means the first four all ask for another.
pub proof fn lemma_decode_outcomes(s: Seq<u8>)
    ensures
        match decode_spec(s) {
            Decoded::Value { value, used } => {
                &&& value <= MAX_REMAINING_LENGTH
                &&& 1 <= used <= 4
                &&& used <= s.len()
                &&& !is_continuation(s[used - 1])
                &&& forall|i: int| 0 <= i < used - 1 ==> is_continuation(#[trigger] s[i])
            },
            Decoded::Incomplete => {
                &&& s.len() < 4
                &&& forall|i: int| 0 <= i < s.len() ==> is_continuation(#[trigger] s[i])
            },
            Decoded::Malformed => {
                &&& s.len() >= 4
                &&& forall|i: int| 0 <= i < 4 ==> is_continuation(#[trigger] s[i])
            },
        },
{
    lemma_leading_continuations_spec(s);
    lemma_pow128_small();
    let n = leading_continuations(s);
    if n < 4 && n != s.len() {
        lemma_base128_bound(s.take((n + 1) as int));
    }
}

/// The Remaining Length encoding of `v`: seven bits to a byte, least
/// significant first, the top bit set on every byte but the last.
pub open spec fn encode_spec(v: nat) -> Seq<u8>
    decreases v,
{
    if v < 128 {
        seq![v as u8]
    } else {
        seq![(v % 128 + 128) as u8] + encode_spec(v / 128)
    }
}

/// A value below 128 to the power `k` is encoded in at most `k` bytes, of
/// which only the last ends the number, and which spell the value.
proof fn lemma_encode_shape(v: nat, k: nat)
    requires
        k >= 1,
        v < pow128(k),
    ensures
        1 <= encode_spec(v).len() <= k,
        leading_continuations(encode_spec(v)) == encode_spec(v).len() - 1,
        base128_value(encode_spec(v)) == v,
    decreases v,
{
    let e = encode_spec(v);
    if v < 128 {
        assert(e.drop_first() =~= Seq::<u8>::empty());
        assert(base128_value(e.drop_first()) == 0);
    } else {
        let t = encode_spec(v / 128);
        assert(k >= 2) by {
            if k == 1 {
                assert(pow128(1) == 128) by {
                    reveal_with_fuel(pow128, 2);
                }
            }
        }
        assert(v / 128 < pow128((k - 1) as nat));
        lemma_encode_shape(v / 128, (k - 1) as nat);
        assert(e.drop_first() =~= t);
        assert(e[0] == (v % 128 + 128) as u8);
        assert(e[0] % 128 == v % 128);
    }
}

/// Decoding what `encode_spec` wrote gives the value back, with the number
/// of bytes written, for every value up to 268,435,455.
pub proof fn lemma_decode_encode(v: nat)
    requires
        v <= MAX_REMAINING_LENGTH,
    ensures
        1 <= encode_spec(v).len() <= 4,
        decode_spec(encode_spec(v)) == (Decoded::Value { value: v, used: encode_spec(v).len() }),
{
    lemma_pow128_small();
    lemma_encode_shape(v, 4);
    let e = encode_spec(v);
    assert(e.take(e.len() as int) =~= e);
}

/// Decoding is blind to what follows the number: bytes after the
/// terminating byte change nothing.
pub proof fn lemma_decode_ignores_tail(s: Seq<u8>, tail: Seq<u8>)
    requires
        decode_spec(s) is Value,
    ensures
        decode_spec(s + tail) == decode_spec(s),
{
    lemma_leading_continuations_spec(s);
    let n = leading_continuations(s);
    assert forall|i: int| 0 <= i < n implies is_continuation(#[trigger] (s + tail)[i]) by {
        assert((s + tail)[i] == s[i]);
    }
    lemma_leading_continuations_skip(s + tail, n);
    assert((s + tail).skip(n as int)[0] == s[n as int]);
    assert((s + tail).take(n + 1 as int) =~= s.take((n + 1) as int));
}

/// Writes the Remaining Length encoding of `value`, or nothing when the
/// value is above 268,435,455 and has no encoding.
pub fn encode_remaining_length(value: usize) -> (r: Option<Vec<u8>>)
    ensures
        r is Some <==> value <= MAX_REMAINING_LENGTH,
        r matches Some(bytes) ==> bytes@ == encode_spec(value as nat),
{
    if value > MAX_REMAINING_LENGTH {
        return None;
    }
    let mut out: Vec<u8> = Vec::new();
    let mut rest: usize = value;
    while rest >= 128
        invariant
            out@ + encode_spec(rest as nat) == encode_spec(value as nat),
        decreases rest,
    {
        let low: usize = rest % 128 + 128;
        let ghost before = out@;
        out.push(low as u8);
        proof {
            assert(before.push(low as u8) + encode_spec((rest / 128) as nat) =~= before
                + encode_spec(rest as nat));
        }
        rest = rest / 128;
    }
    let ghost before = out@;
    out.push(rest as u8);
    proof {
        assert(before.push(rest as u8) =~= before + encode_spec(rest as nat));
    }
    Some(out)
}

} // verus!
