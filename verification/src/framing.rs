//! Length-prefixed wire framing.
//!
//! Every variable-length unit on the wire is preceded by its byte count as a
//! fixed-width big-endian integer: four bytes before a file name, eight bytes
//! before a payload. The acknowledgment is the literal three bytes `ACK`.

use vstd::prelude::*;
use vstd::utf8::encode_utf8;

verus! {

/// Number of bytes of the length prefix that precedes a file name.
pub const NAME_PREFIX_LEN: usize = 4;

/// Number of bytes of the length prefix that precedes a payload.
pub const PAYLOAD_PREFIX_LEN: usize = 8;

/// Number of bytes of the acknowledgment.
pub const ACK_LEN: usize = 3;

/// The acknowledgment a server sends after it has received a file name.
pub open spec fn ack() -> Seq<u8> {
    seq![65u8, 67u8, 75u8]
}

/// The number that a sequence of bytes denotes when read as a big-endian
/// unsigned integer.
pub open spec fn be_value(bytes: Seq<u8>) -> nat
    decreases bytes.len(),
{
    if bytes.len() == 0 {
        0
    } else {
        be_value(bytes.drop_last()) * 256 + bytes.last() as nat
    }
}

/// The big-endian representation of `value` in exactly `width` bytes; digits
/// that do not fit in `width` bytes are dropped from the high end.
pub open spec fn be_bytes(value: nat, width: nat) -> Seq<u8>
    decreases width,
{
    if width == 0 {
        Seq::empty()
    } else {
        be_bytes(value / 256, (width - 1) as nat).push((value % 256) as u8)
    }
}

/// `256` raised to the power `width`: the number of values that `width` bytes
/// can denote.
pub open spec fn capacity(width: nat) -> nat
    decreases width,
{
    if width == 0 {
        1
    } else {
        256 * capacity((width - 1) as nat)
    }
}

/// The frame that announces a file name: the byte count of its UTF-8 encoding
/// in four bytes, then the encoding itself.
pub open spec fn name_frame(name: Seq<char>) -> Seq<u8> {
    be_bytes(encode_utf8(name).len(), 4) + encode_utf8(name)
}

/// The frame that carries a payload: its byte count in eight bytes, then the
/// payload itself.
pub open spec fn payload_frame(payload: Seq<u8>) -> Seq<u8> {
    be_bytes(payload.len(), 8) + payload
}

/// A big-endian representation has exactly the width asked for.
pub proof fn lemma_be_bytes_len(value: nat, width: nat)
    ensures
        be_bytes(value, width).len() == width,
    decreases width,
{
    if width > 0 {
        lemma_be_bytes_len(value / 256, (width - 1) as nat);
    }
}

/// Reading back the big-endian representation of a value that fits in the
/// width gives the value.
pub proof fn lemma_be_round_trip(value: nat, width: nat)
    requires
        value < capacity(width),
    ensures
        be_value(be_bytes(value, width)) == value,
    decreases width,
{
    if width > 0 {
        let rest = be_bytes(value / 256, (width - 1) as nat);
        let last = (value % 256) as u8;
        lemma_be_round_trip(value / 256, (width - 1) as nat);
        assert(rest.push(last).drop_last() =~= rest);
        assert(rest.push(last).last() == last);
    }
}

/// The number that `bytes` denotes fits in as many bytes, and writing it in
/// that width gives `bytes` back.
pub proof fn lemma_be_value_inverse(bytes: Seq<u8>)
    ensures
        be_value(bytes) < capacity(bytes.len()),
        be_bytes(be_value(bytes), bytes.len()) == bytes,
    decreases bytes.len(),
{
    if bytes.len() > 0 {
        let front = bytes.drop_last();
        lemma_be_value_inverse(front);
        let v = be_value(bytes);
        assert(v / 256 == be_value(front));
        assert(v % 256 == bytes.last() as nat);
        assert(be_bytes(v, bytes.len()) =~= bytes);
    }
}

/// More bytes denote more values.
pub proof fn lemma_capacity_monotonic(narrow: nat, wide: nat)
    requires
        narrow <= wide,
    ensures
        capacity(narrow) <= capacity(wide),
        capacity(narrow) > 0,
    decreases wide,
{
    if narrow < wide {
        lemma_capacity_monotonic(narrow, (wide - 1) as nat);
    } else if narrow > 0 {
        lemma_capacity_monotonic((narrow - 1) as nat, (narrow - 1) as nat);
    }
}

/// Four bytes denote exactly the values of a `u32`, eight bytes those of a
/// `u64`.
pub proof fn lemma_capacity_values()
    ensures
        capacity(4) == 0x1_0000_0000,
        capacity(8) == 0x1_0000_0000_0000_0000,
{
    reveal_with_fuel(capacity, 9);
}

/// Appends the big-endian representation of `value` in `width` bytes.
fn push_be(out: &mut Vec<u8>, value: u64, width: usize)
    ensures
        final(out)@ == old(out)@ + be_bytes(value as nat, width as nat),
    decreases width,
{
    if width > 0 {
        push_be(out, value / 256, width - 1);
        out.push((value % 256) as u8);
        assert(out@ =~= old(out)@ + be_bytes(value as nat, width as nat));
    } else {
        assert(out@ =~= old(out)@ + be_bytes(value as nat, width as nat));
    }
}

/// Writes `value` as four big-endian bytes.
pub fn encode_u32_be(value: u32) -> (out: Vec<u8>)
    ensures
        out@ == be_bytes(value as nat, 4),
{
    let mut out: Vec<u8> = Vec::new();
    push_be(&mut out, value as u64, NAME_PREFIX_LEN);
    assert(out@ =~= be_bytes(value as nat, 4));
    out
}

/// Writes `value` as eight big-endian bytes.
pub fn encode_u64_be(value: u64) -> (out: Vec<u8>)
    ensures
        out@ == be_bytes(value as nat, 8),
{
    let mut out: Vec<u8> = Vec::new();
    push_be(&mut out, value, PAYLOAD_PREFIX_LEN);
    assert(out@ =~= be_bytes(value as nat, 8));
    out
}

/// Reads eight bytes as a big-endian number; `None` unless there are exactly
/// eight.
pub fn decode_u64_be(bytes: &[u8]) -> (value: Option<u64>)
    ensures
        bytes@.len() == 8 ==> value == Some(be_value(bytes@) as u64) && be_value(bytes@)
            <= u64::MAX,
        bytes@.len() != 8 ==> value is None,
{
    if bytes.len() != PAYLOAD_PREFIX_LEN {
        return None;
    }
    let mut acc: u64 = 0;
    let mut i: usize = 0;
    while i < 8
        invariant
            i <= 8,
            bytes@.len() == 8,
            acc == be_value(bytes@.subrange(0, i as int)),
            acc < capacity(i as nat),
        decreases 8 - i,
    {
        let ghost head = bytes@.subrange(0, i as int);
        let ghost next = bytes@.subrange(0, i + 1);
        proof {
            assert(next.drop_last() =~= head);
            assert(next.last() == bytes@[i as int]);
            lemma_capacity_monotonic((i + 1) as nat, 8);
            lemma_capacity_values();
        }
        acc = acc * 256 + bytes[i] as u64;
        i = i + 1;
    }
    assert(bytes@.subrange(0, 8) =~= bytes@);
    Some(acc)
}

/// Whether `bytes` is the acknowledgment, all three bytes of it.
pub fn is_ack(bytes: &[u8]) -> (yes: bool)
    ensures
        yes == (bytes@ == ack()),
{
    if bytes.len() != ACK_LEN {
        return false;
    }
    let yes = bytes[0] == 65u8 && bytes[1] == 67u8 && bytes[2] == 75u8;
    assert(yes == (bytes@ =~= ack()));
    yes
}

/// Builds the frame that announces `name`; `None` when the name's encoding is
/// too long for a four-byte count.
pub fn encode_name_frame(name: &str) -> (frame: Option<Vec<u8>>)
    ensures
        encode_utf8(name@).len() <= u32::MAX ==> frame.is_some() && frame.unwrap()@ == name_frame(
            name@,
        ),
        encode_utf8(name@).len() > u32::MAX ==> frame is None,
{
    let bytes = name.as_bytes();
    if bytes.len() > 0xffff_ffff {
        return None;
    }
    let mut out: Vec<u8> = Vec::new();
    push_be(&mut out, bytes.len() as u64, NAME_PREFIX_LEN);
    out.extend_from_slice(bytes);
    assert(out@ =~= name_frame(name@));
    Some(out)
}

/// Builds the frame that carries `payload`.
pub fn encode_payload_frame(payload: &[u8]) -> (frame: Vec<u8>)
    ensures
        frame@ == payload_frame(payload@),
{
    let mut out: Vec<u8> = Vec::new();
    push_be(&mut out, payload.len() as u64, PAYLOAD_PREFIX_LEN);
    out.extend_from_slice(payload);
    assert(out@ =~= payload_frame(payload@));
    out
}

/// A frame is longer than its payload by the eight bytes of the prefix, its
/// prefix denotes the payload's length, and what follows the prefix is the
/// payload: a reader that takes eight bytes, then as many bytes as they
/// denote, has read the payload and nothing else.
pub proof fn lemma_payload_frame_round_trip(payload: Seq<u8>)
    requires
        payload.len() <= u64::MAX,
    ensures
        payload_frame(payload).len() == payload.len() + 8,
        be_value(payload_frame(payload).subrange(0, 8)) == payload.len(),
        payload_frame(payload).subrange(8, 8 + payload.len() as int) == payload,
{
    let prefix = be_bytes(payload.len(), 8);
    lemma_be_bytes_len(payload.len(), 8);
    lemma_capacity_values();
    lemma_be_round_trip(payload.len(), 8);
    assert(payload_frame(payload).subrange(0, 8) =~= prefix);
    assert(payload_frame(payload).subrange(8, 8 + payload.len() as int) =~= payload);
}

/// A name frame is longer than the name's encoding by the four bytes of the
/// prefix, its prefix denotes the encoding's length, and what follows the
/// prefix is the encoding.
pub proof fn lemma_name_frame_round_trip(name: Seq<char>)
    requires
        encode_utf8(name).len() <= u32::MAX,
    ensures
        name_frame(name).len() == encode_utf8(name).len() + 4,
        be_value(name_frame(name).subrange(0, 4)) == encode_utf8(name).len(),
        name_frame(name).subrange(4, 4 + encode_utf8(name).len() as int) == encode_utf8(name),
{
    let body = encode_utf8(name);
    let prefix = be_bytes(body.len(), 4);
    lemma_be_bytes_len(body.len(), 4);
    lemma_capacity_values();
    lemma_be_round_trip(body.len(), 4);
    assert(name_frame(name).subrange(0, 4) =~= prefix);
    assert(name_frame(name).subrange(4, 4 + body.len() as int) =~= body);
}

} // verus!
