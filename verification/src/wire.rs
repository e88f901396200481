//! The wire format shared by all peers.
//!
//! A batch is the concatenation of zero or more framed messages. A framed
//! message is a 32-bit little-endian length followed by that many bytes; the
//! message itself starts with a 16-bit little-endian type id. Type id zero
//! marks a turn boundary and is followed by exactly one 32-bit little-endian
//! turn number; every other type id is followed by the recipient's actor id
//! and the encoded packet body.
use byteorder::{ByteOrder, LittleEndian, WriteBytesExt};
use vstd::prelude::*;

verus! {

/// Bytes taken by the length in front of every message.
pub const LENGTH_BYTES: usize = 4;

/// Bytes taken by the type id at the start of every message.
pub const TYPE_ID_BYTES: usize = 2;

/// Length of a turn marker message: the zero type id and the turn number.
pub const TURN_MARKER_BYTES: usize = 6;

/// The two bytes of `n`, least significant first.
pub open spec fn u16_le(n: u16) -> Seq<u8> {
    seq![(n % 256) as u8, (n / 256) as u8]
}

/// The four bytes of `n`, least significant first.
pub open spec fn u32_le(n: u32) -> Seq<u8> {
    seq![
        (n % 256) as u8,
        (n / 256 % 256) as u8,
        (n / 65536 % 256) as u8,
        (n / 16777216) as u8,
    ]
}

/// The number whose little-endian encoding is the first two bytes of `bytes`.
pub open spec fn le_u16(bytes: Seq<u8>) -> int
    recommends
        bytes.len() >= 2,
{
    bytes[0] + 256 * bytes[1]
}

/// The number whose little-endian encoding is the first four bytes of `bytes`.
pub open spec fn le_u32(bytes: Seq<u8>) -> int
    recommends
        bytes.len() >= 4,
{
    bytes[0] + 256 * bytes[1] + 65536 * bytes[2] + 16777216 * bytes[3]
}

/// Reading back what was written gives the number that was written.
pub proof fn lemma_le_round_trip(a: u16, b: u32)
    ensures
        u16_le(a).len() == 2,
        u32_le(b).len() == 4,
        le_u16(u16_le(a)) == a,
        le_u32(u32_le(b)) == b,
{
}

/// `byteorder::LittleEndian::read_u16` (the `ByteOrder` trait): decodes the
/// first two bytes of `buf`, least significant first. It panics on a shorter
/// buffer, which the precondition rules out.
#[verifier::external_body]
pub(crate) fn read_u16_le(buf: &[u8]) -> (n: u16)
    requires
        buf@.len() >= 2,
    ensures
        n == le_u16(buf@),
{
    LittleEndian::read_u16(buf)
}

/// `byteorder::LittleEndian::read_u32` (the `ByteOrder` trait): decodes the
/// first four bytes of `buf`, least significant first. It panics on a shorter
/// buffer, which the precondition rules out.
#[verifier::external_body]
pub(crate) fn read_u32_le(buf: &[u8]) -> (n: u32)
    requires
        buf@.len() >= 4,
    ensures
        n == le_u32(buf@),
{
    LittleEndian::read_u32(buf)
}

/// `byteorder::WriteBytesExt::write_u16::<LittleEndian>` on a `Vec<u8>`:
/// appends the two bytes of `n`, least significant first. Writing to a vector
/// cannot fail, so the `Ok(())` it returns is dropped.
#[verifier::external_body]
pub(crate) fn write_u16_le(buf: &mut Vec<u8>, n: u16)
    ensures
        final(buf)@ == old(buf)@ + u16_le(n),
{
    let _ = buf.write_u16::<LittleEndian>(n);
}

/// `byteorder::WriteBytesExt::write_u32::<LittleEndian>` on a `Vec<u8>`:
/// appends the four bytes of `n`, least significant first. Writing to a vector
/// cannot fail, so the `Ok(())` it returns is dropped.
#[verifier::external_body]
pub(crate) fn write_u32_le(buf: &mut Vec<u8>, n: u32)
    ensures
        final(buf)@ == old(buf)@ + u32_le(n),
{
    let _ = buf.write_u32::<LittleEndian>(n);
}

/// A message: its type id followed by its payload.
pub open spec fn message(type_id: u16, payload: Seq<u8>) -> Seq<u8> {
    u16_le(type_id) + payload
}

/// The message that announces that its sender has reached turn `turn`.
pub open spec fn turn_marker(turn: u32) -> Seq<u8> {
    message(0, u32_le(turn))
}

/// A message as it stands inside a batch: its length, then its bytes.
pub open spec fn frame(msg: Seq<u8>) -> Seq<u8> {
    u32_le(msg.len() as u32) + msg
}

/// Whether the length of `msg` can be written in front of it.
pub open spec fn fits_frame(msg: Seq<u8>) -> bool {
    msg.len() <= u32::MAX
}

/// The batch that carries `msgs`, in order.
pub open spec fn encode_batch(msgs: Seq<Seq<u8>>) -> Seq<u8>
    decreases msgs.len(),
{
    if msgs.len() == 0 {
        Seq::empty()
    } else {
        frame(msgs[0]) + encode_batch(msgs.drop_first())
    }
}

/// Where the first framed message of `bytes` ends: behind its length and as
/// many bytes as the length says. `None` where `bytes` end before that.
pub open spec fn frame_end(bytes: Seq<u8>) -> Option<int> {
    if bytes.len() >= 4 && bytes.len() >= 4 + le_u32(bytes) {
        Some(4 + le_u32(bytes))
    } else {
        None
    }
}

/// The messages of a batch, in order, or `None` where the bytes end in the
/// middle of a length or of a message.
pub open spec fn decode_batch(bytes: Seq<u8>) -> Option<Seq<Seq<u8>>>
    decreases bytes.len(),
{
    if bytes.len() == 0 {
        Some(Seq::empty())
    } else {
        match frame_end(bytes) {
            None => None,
            Some(end) => match decode_batch(bytes.subrange(end, bytes.len() as int)) {
                Some(rest) => Some(seq![bytes.subrange(4, end)] + rest),
                None => None,
            },
        }
    }
}

/// The size of the largest framed message among `msgs`, zero for none.
pub open spec fn largest_frame(msgs: Seq<Seq<u8>>) -> nat
    decreases msgs.len(),
{
    if msgs.len() == 0 {
        0
    } else {
        let first = 4 + msgs[0].len();
        let rest = largest_frame(msgs.drop_first());
        if first >= rest {
            first
        } else {
            rest
        }
    }
}

/// A framed message decodes to that message, followed by whatever the bytes
/// behind it decode to.
pub proof fn lemma_decode_frame(msg: Seq<u8>, rest: Seq<u8>)
    requires
        fits_frame(msg),
    ensures
        decode_batch(frame(msg) + rest) == match decode_batch(rest) {
            Some(msgs) => Some(seq![msg] + msgs),
            None => None,
        },
{
    let bytes = frame(msg) + rest;
    let end = 4 + msg.len();
    assert(le_u32(bytes) == msg.len());
    assert(bytes.subrange(4, end as int) =~= msg);
    assert(bytes.subrange(end as int, bytes.len() as int) =~= rest);
}

/// Decoding undoes encoding: a batch built from messages that fit their
/// length prefix decodes to exactly those messages, in order.
pub proof fn lemma_batch_round_trip(msgs: Seq<Seq<u8>>)
    requires
        forall|i: int| 0 <= i < msgs.len() ==> fits_frame(#[trigger] msgs[i]),
    ensures
        decode_batch(encode_batch(msgs)) == Some(msgs),
    decreases msgs.len(),
{
    if msgs.len() > 0 {
        let tail = msgs.drop_first();
        lemma_batch_round_trip(tail);
        lemma_decode_frame(msgs[0], encode_batch(tail));
        assert(seq![msgs[0]] + tail =~= msgs);
    }
}

/// Appending a framed message to a well-formed batch appends that message to
/// what the batch decodes to.
pub proof fn lemma_decode_append(bytes: Seq<u8>, msg: Seq<u8>)
    requires
        decode_batch(bytes) is Some,
        fits_frame(msg),
    ensures
        decode_batch(bytes + frame(msg)) == Some(decode_batch(bytes).unwrap().push(msg)),
    decreases bytes.len(),
{
    if bytes.len() == 0 {
        lemma_decode_frame(msg, Seq::empty());
        assert(bytes + frame(msg) =~= frame(msg) + Seq::<u8>::empty());
        assert(seq![msg] + Seq::<Seq<u8>>::empty() =~= Seq::<Seq<u8>>::empty().push(msg));
    } else {
        let end = 4 + le_u32(bytes);
        let rest = bytes.subrange(end, bytes.len() as int);
        let whole = bytes + frame(msg);
        lemma_decode_append(rest, msg);
        assert(le_u32(whole) == le_u32(bytes));
        assert(whole.subrange(4, end) =~= bytes.subrange(4, end));
        assert(whole.subrange(end, whole.len() as int) =~= rest + frame(msg));
        let first = seq![bytes.subrange(4, end)];
        assert(first + decode_batch(rest).unwrap().push(msg) =~= (first + decode_batch(
            rest,
        ).unwrap()).push(msg));
    }
}

/// The largest frame of a batch that got one more message.
pub proof fn lemma_largest_frame_push(msgs: Seq<Seq<u8>>, msg: Seq<u8>)
    ensures
        largest_frame(msgs.push(msg)) >= 4 + msg.len(),
        largest_frame(msgs.push(msg)) >= largest_frame(msgs),
    decreases msgs.len(),
{
    if msgs.len() == 0 {
        assert(msgs.push(msg).drop_first() =~= Seq::<Seq<u8>>::empty());
    } else {
        lemma_largest_frame_push(msgs.drop_first(), msg);
        assert(msgs.push(msg).drop_first() =~= msgs.drop_first().push(msg));
    }
}

/// Appends `msg`, framed, to `batch`: the length of type id and payload,
/// the type id, the payload.
pub fn append_message(batch: &mut Vec<u8>, type_id: u16, payload: &[u8])
    requires
        fits_frame(message(type_id, payload@)),
    ensures
        final(batch)@ == old(batch)@ + frame(message(type_id, payload@)),
{
    let size: usize = TYPE_ID_BYTES + payload.len();
    write_u32_le(batch, size as u32);
    write_u16_le(batch, type_id);
    let mut i: usize = 0;
    while i < payload.len()
        invariant
            i <= payload@.len(),
            batch@ == old(batch)@ + u32_le(size as u32) + u16_le(type_id) + payload@.subrange(
                0,
                i as int,
            ),
        decreases payload@.len() - i,
    {
        batch.push(payload[i]);
        assert(payload@.subrange(0, i + 1) =~= payload@.subrange(0, i as int).push(
            payload@[i as int],
        ));
        i = i + 1;
    }
    assert(payload@.subrange(0, i as int) =~= payload@);
    assert(batch@ =~= old(batch)@ + frame(message(type_id, payload@)));
}

/// Appends the turn marker for `turn`, framed, to `batch`.
pub fn append_turn_marker(batch: &mut Vec<u8>, turn: u32)
    ensures
        final(batch)@ == old(batch)@ + frame(turn_marker(turn)),
{
    write_u32_le(batch, TURN_MARKER_BYTES as u32);
    write_u16_le(batch, 0);
    write_u32_le(batch, turn);
    assert(batch@ =~= old(batch)@ + frame(turn_marker(turn)));
}

/// Finds the framed message that starts at `pos`: hands back the offset
/// behind its last byte, or `None` where `data` ends in the middle of its
/// length or of the message. The message itself starts `LENGTH_BYTES` behind
/// `pos`.
pub fn next_message(data: &[u8], pos: usize) -> (end: Option<usize>)
    requires
        pos <= data@.len(),
    ensures
        match frame_end(data@.subrange(pos as int, data@.len() as int)) {
            Some(e) => end == Some((pos + e) as usize) && pos + e <= data@.len(),
            None => end is None,
        },
{
    let ghost suffix = data@.subrange(pos as int, data@.len() as int);
    if data.len() - pos < LENGTH_BYTES {
        return None;
    }
    let size: u32 = read_u32_le(vstd::slice::slice_subrange(data, pos, pos + LENGTH_BYTES));
    proof {
        assert(data@.subrange(pos as int, pos + 4) =~= suffix.subrange(0, 4));
        assert(le_u32(suffix.subrange(0, 4)) == le_u32(suffix));
    }
    let start: usize = pos + LENGTH_BYTES;
    if data.len() - start < size as usize {
        return None;
    }
    Some(start + size as usize)
}

/// What lies behind the first `pos` bytes of `data`, and how its first
/// framed message sits in `data`.
pub proof fn lemma_suffix_frame(data: Seq<u8>, pos: int)
    requires
        0 <= pos <= data.len(),
        frame_end(data.subrange(pos, data.len() as int)) is Some,
    ensures
        ({
            let suffix = data.subrange(pos, data.len() as int);
            let end = frame_end(suffix).unwrap();
            &&& 4 <= end <= suffix.len()
            &&& suffix.subrange(4, end) == data.subrange(pos + 4, pos + end)
            &&& suffix.subrange(end, suffix.len() as int) == data.subrange(
                pos + end,
                data.len() as int,
            )
        }),
{
    let suffix = data.subrange(pos, data.len() as int);
    let end = frame_end(suffix).unwrap();
    assert(suffix.subrange(4, end) =~= data.subrange(pos + 4, pos + end));
    assert(suffix.subrange(end, suffix.len() as int) =~= data.subrange(
        pos + end,
        data.len() as int,
    ));
}

/// Where the messages of a batch lie: for each message, in order, the offset
/// of its first byte and the offset behind its last. `None` where the batch
/// ends in the middle of a length or of a message.
pub fn split_batch(data: &[u8]) -> (spans: Option<Vec<(usize, usize)>>)
    ensures
        spans is Some <==> decode_batch(data@) is Some,
        spans matches Some(s) ==> spans_cover(data@, s@, decode_batch(data@).unwrap()),
{
    let mut spans: Vec<(usize, usize)> = Vec::new();
    let mut pos: usize = 0;
    let ghost mut seen: Seq<Seq<u8>> = Seq::empty();
    proof {
        assert(data@.subrange(0, data@.len() as int) =~= data@);
        if decode_batch(data@) is Some {
            assert(seen + decode_batch(data@).unwrap() =~= decode_batch(data@).unwrap());
        }
    }
    while pos < data.len()
        invariant
            pos <= data@.len(),
            spans_cover(data@, spans@, seen),
            decode_batch(data@) == match decode_batch(data@.subrange(pos as int, data@.len() as int)) {
                Some(rest) => Some(seen + rest),
                None => None,
            },
        decreases data@.len() - pos,
    {
        let end: usize = match next_message(data, pos) {
            Some(end) => end,
            None => {
                return None;
            },
        };
        proof {
            lemma_suffix_frame(data@, pos as int);
            let msg = data@.subrange(pos + 4, end as int);
            let rest = data@.subrange(end as int, data@.len() as int);
            if decode_batch(rest) is Some {
                assert(seen + (seq![msg] + decode_batch(rest).unwrap()) =~= seen.push(msg)
                    + decode_batch(rest).unwrap());
            }
            seen = seen.push(msg);
        }
        spans.push((pos + LENGTH_BYTES, end));
        pos = end;
    }
    proof {
        assert(data@.subrange(pos as int, data@.len() as int) =~= Seq::<u8>::empty());
        assert(seen + Seq::<Seq<u8>>::empty() =~= seen);
    }
    Some(spans)
}

/// `spans` are the places of `msgs` in `data`.
pub open spec fn spans_cover(data: Seq<u8>, spans: Seq<(usize, usize)>, msgs: Seq<Seq<u8>>) -> bool {
    &&& spans.len() == msgs.len()
    &&& forall|i: int|
        0 <= i < spans.len() ==> {
            &&& (#[trigger] spans[i]).0 <= spans[i].1 <= data.len()
            &&& data.subrange(spans[i].0 as int, spans[i].1 as int) == msgs[i]
        }
}

} // verus!
