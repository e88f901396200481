//! What the messages of a peer do on arrival: a turn marker moves the peer's
//! turn counters, a packet goes to the inbox of the actor type it is
//! addressed to.
use crate::error::NetworkError;
use crate::id::{Packet, RawID, RAW_ID_BYTES};
use crate::inbox::{inboxes_view, Inbox, InboxesView};
use crate::wire::{
    decode_batch, frame_end, le_u16, le_u32, lemma_le_round_trip, lemma_suffix_frame, message,
    next_message, read_u16_le, read_u32_le, turn_marker, u32_le, LENGTH_BYTES, TURN_MARKER_BYTES,
    TYPE_ID_BYTES,
};
use vstd::prelude::*;
use vstd::slice::slice_subrange;

verus! {

/// The number of turn markers of one peer after which, within one turn of
/// this machine, nothing more is read from that peer.
pub const STALL_TURNS: usize = 10;

/// Whether `msg` starts with the zero type id, as a turn marker does.
pub open spec fn is_turn_marker(msg: Seq<u8>) -> bool {
    msg.len() >= 2 && le_u16(msg) == 0
}

/// Whether `msg` is long enough for what its type id announces: a turn marker
/// is exactly the type id and a turn number, a packet holds at least the type
/// id and the recipient.
pub open spec fn well_formed(msg: Seq<u8>) -> bool {
    &&& msg.len() >= 2
    &&& if le_u16(msg) == 0 {
        msg.len() == 6
    } else {
        msg.len() >= 10
    }
}

/// The turn number that the turn marker `msg` carries.
pub open spec fn marker_turn(msg: Seq<u8>) -> int {
    le_u32(msg.subrange(2, 6))
}

/// The recipient that the packet message `msg` names behind its type id.
pub open spec fn recipient(msg: Seq<u8>) -> RawID {
    RawID::from_wire(msg.subrange(2, 10))
}

/// The inbox that the packet message `msg` goes to.
pub open spec fn inbox_index(msg: Seq<u8>) -> int {
    recipient(msg).type_id.index()
}

/// What is wrong with `msg` on a machine with the inboxes `boxes`, if
/// anything.
pub open spec fn fault(boxes: InboxesView, msg: Seq<u8>) -> Option<NetworkError> {
    if !well_formed(msg) {
        Some(NetworkError::MalformedBatch)
    } else if is_turn_marker(msg) {
        None
    } else if inbox_index(msg) < boxes.len() && boxes[inbox_index(msg)] is Some {
        None
    } else {
        Some(NetworkError::UnknownInbox(inbox_index(msg) as usize))
    }
}

/// The messages of the batch `data` that are taken in on a machine with the
/// inboxes `boxes`, in order: all that stand in front of the first fault, be
/// it a message with a fault or the end of the bytes in the middle of a
/// length or of a message.
pub open spec fn taken_in(boxes: InboxesView, data: Seq<u8>) -> Seq<Seq<u8>>
    decreases data.len(),
{
    match frame_end(data) {
        None => Seq::empty(),
        Some(end) => if fault(boxes, data.subrange(4, end)) is Some {
            Seq::empty()
        } else {
            seq![data.subrange(4, end)] + taken_in(boxes, data.subrange(end, data.len() as int))
        },
    }
}

/// The fault at which the taking in of the batch `data` stops, if there is
/// one: `MalformedBatch` where the bytes end in the middle of a length or of
/// a message, and else the fault of the first message that has one.
pub open spec fn batch_fault(boxes: InboxesView, data: Seq<u8>) -> Option<
    NetworkError,
>
    decreases data.len(),
{
    if data.len() == 0 {
        None
    } else {
        match frame_end(data) {
            None => Some(NetworkError::MalformedBatch),
            Some(end) => match fault(boxes, data.subrange(4, end)) {
                Some(e) => Some(e),
                None => batch_fault(boxes, data.subrange(end, data.len() as int)),
            },
        }
    }
}

/// The inboxes after `msg` arrived: a packet is appended to the inbox of its
/// recipient's type, a turn marker leaves the inboxes alone.
pub open spec fn deliver(boxes: InboxesView, msg: Seq<u8>) -> InboxesView {
    if is_turn_marker(msg) || !(0 <= inbox_index(msg) < boxes.len()) || boxes[inbox_index(msg)] is None {
        boxes
    } else {
        boxes.update(inbox_index(msg), Some(boxes[inbox_index(msg)].unwrap().push(msg)))
    }
}

/// The inboxes after all of `msgs` arrived, in order.
pub open spec fn deliver_all(boxes: InboxesView, msgs: Seq<Seq<u8>>) -> InboxesView
    decreases msgs.len(),
{
    if msgs.len() == 0 {
        boxes
    } else {
        deliver(deliver_all(boxes, msgs.drop_last()), msgs.last())
    }
}

/// The turn that a peer is known to have reached after `msgs` arrived: the
/// turn of the last turn marker among them, or `observed` where there is none.
pub open spec fn observed_after(observed: int, msgs: Seq<Seq<u8>>) -> int
    decreases msgs.len(),
{
    if msgs.len() == 0 {
        observed
    } else if is_turn_marker(msgs.last()) {
        marker_turn(msgs.last())
    } else {
        observed_after(observed, msgs.drop_last())
    }
}

/// How many turn markers are among `msgs`.
pub open spec fn count_markers(msgs: Seq<Seq<u8>>) -> nat
    decreases msgs.len(),
{
    if msgs.len() == 0 {
        0
    } else {
        count_markers(msgs.drop_last()) + if is_turn_marker(msgs.last()) {
            1nat
        } else {
            0nat
        }
    }
}

/// Whether a peer that had sent `since` turn markers in the current turn of
/// this machine has, with `msgs`, sent a marker that reaches the limit.
pub open spec fn stalls(since: int, msgs: Seq<Seq<u8>>) -> bool {
    count_markers(msgs) > 0 && since + count_markers(msgs) >= STALL_TURNS
}

/// Whether the same actor types have an inbox in `a` as in `b`.
pub open spec fn same_slots(a: InboxesView, b: InboxesView) -> bool {
    &&& a.len() == b.len()
    &&& forall|t: int| 0 <= t < a.len() ==> ((#[trigger] a[t]) is Some <==> b[t] is Some)
}

/// What is taken in of a batch, and the fault at which that stops, depend on
/// which inboxes exist, not on what waits in them.
pub proof fn lemma_only_slots_matter(
    a: InboxesView,
    b: InboxesView,
    data: Seq<u8>,
)
    requires
        same_slots(a, b),
    ensures
        taken_in(a, data) == taken_in(b, data),
        batch_fault(a, data) == batch_fault(b, data),
    decreases data.len(),
{
    if frame_end(data) is Some {
        let end = frame_end(data).unwrap();
        let msg = data.subrange(4, end);
        assert(fault(a, msg) == fault(b, msg)) by {
            if 0 <= inbox_index(msg) < a.len() {
                assert(a[inbox_index(msg)] is Some <==> b[inbox_index(msg)] is Some);
            }
        }
        lemma_only_slots_matter(a, b, data.subrange(end, data.len() as int));
    }
}

/// A batch without fault is taken in whole: where the taking in of a batch
/// meets no fault, the batch splits into messages, and exactly these are
/// taken in.
pub proof fn lemma_faultless_batch(boxes: InboxesView, data: Seq<u8>)
    requires
        batch_fault(boxes, data) is None,
    ensures
        decode_batch(data) == Some(taken_in(boxes, data)),
    decreases data.len(),
{
    if data.len() > 0 {
        lemma_faultless_batch(boxes, data.subrange(frame_end(data).unwrap(), data.len() as int));
    }
}

/// A batch of sound messages meets no fault: where a batch splits into
/// messages none of which has a fault, all of them are taken in.
pub proof fn lemma_sound_batch(boxes: InboxesView, data: Seq<u8>)
    requires
        decode_batch(data) is Some,
        forall|i: int|
            0 <= i < decode_batch(data).unwrap().len() ==> fault(
                boxes,
                #[trigger] decode_batch(data).unwrap()[i],
            ) is None,
    ensures
        batch_fault(boxes, data) is None,
        taken_in(boxes, data) == decode_batch(data).unwrap(),
    decreases data.len(),
{
    if data.len() > 0 {
        let end = frame_end(data).unwrap();
        let rest = data.subrange(end, data.len() as int);
        let msgs = decode_batch(data).unwrap();
        assert(msgs[0] == data.subrange(4, end));
        assert forall|i: int| 0 <= i < decode_batch(rest).unwrap().len() implies fault(
            boxes,
            #[trigger] decode_batch(rest).unwrap()[i],
        ) is None by {
            assert(decode_batch(rest).unwrap()[i] == msgs[i + 1]);
        }
        lemma_sound_batch(boxes, rest);
    }
}

/// There are no more turn markers than messages.
pub proof fn lemma_count_markers_bound(msgs: Seq<Seq<u8>>)
    ensures
        count_markers(msgs) <= msgs.len(),
    decreases msgs.len(),
{
    if msgs.len() > 0 {
        lemma_count_markers_bound(msgs.drop_last());
    }
}

/// Delivering never adds or removes an inbox.
pub proof fn lemma_deliver_all_keeps_slots(boxes: InboxesView, msgs: Seq<Seq<u8>>)
    ensures
        same_slots(deliver_all(boxes, msgs), boxes),
    decreases msgs.len(),
{
    if msgs.len() > 0 {
        lemma_deliver_all_keeps_slots(boxes, msgs.drop_last());
    }
}

/// The fault of a message, judged by the inboxes that exist.
fn check_message(data: &[u8], inboxes: &Vec<Option<Inbox>>) -> (found: Option<NetworkError>)
    ensures
        found == fault(inboxes_view(inboxes@), data@),
{
    if data.len() < TYPE_ID_BYTES {
        return Some(NetworkError::MalformedBatch);
    }
    let type_id: u16 = read_u16_le(data);
    if type_id == 0 {
        if data.len() == TURN_MARKER_BYTES {
            None
        } else {
            Some(NetworkError::MalformedBatch)
        }
    } else if data.len() < TYPE_ID_BYTES + RAW_ID_BYTES {
        Some(NetworkError::MalformedBatch)
    } else {
        let to: RawID = RawID::read_from(
            slice_subrange(data, TYPE_ID_BYTES, TYPE_ID_BYTES + RAW_ID_BYTES),
        );
        let index: usize = to.type_id.as_usize();
        if index < inboxes.len() && inboxes[index].is_some() {
            None
        } else {
            Some(NetworkError::UnknownInbox(index))
        }
    }
}

/// Takes in one message of a peer. A turn marker sets the turn that the peer
/// is known to have reached and counts as one more marker since this
/// machine's last turn; a packet is queued in the inbox of its recipient's
/// type. Returns whether reading from the peer should stop for now: a turn
/// marker was taken in and the count has reached `STALL_TURNS`.
pub fn dispatch_message(
    data: &[u8],
    inboxes: &mut Vec<Option<Inbox>>,
    n_turns: &mut usize,
    n_turns_since_own_turn: &mut usize,
) -> (wants_to_wait: bool)
    requires
        fault(inboxes_view(old(inboxes)@), data@) is None,
        *old(n_turns_since_own_turn) < usize::MAX,
    ensures
        inboxes_view(final(inboxes)@) == deliver(inboxes_view(old(inboxes)@), data@),
        *final(n_turns) == if is_turn_marker(data@) {
            marker_turn(data@)
        } else {
            *old(n_turns) as int
        },
        *final(n_turns_since_own_turn) == if is_turn_marker(data@) {
            *old(n_turns_since_own_turn) + 1
        } else {
            *old(n_turns_since_own_turn) as int
        },
        wants_to_wait == (is_turn_marker(data@) && *final(n_turns_since_own_turn) >= STALL_TURNS),
{
    let type_id: u16 = read_u16_le(data);
    if type_id == 0 {
        let turn: u32 = read_u32_le(slice_subrange(data, TYPE_ID_BYTES, TURN_MARKER_BYTES));
        *n_turns = turn as usize;
        *n_turns_since_own_turn = *n_turns_since_own_turn + 1;
        *n_turns_since_own_turn >= STALL_TURNS
    } else {
        let to: RawID = RawID::read_from(
            slice_subrange(data, TYPE_ID_BYTES, TYPE_ID_BYTES + RAW_ID_BYTES),
        );
        let index: usize = to.type_id.as_usize();
        match &mut inboxes[index] {
            Some(inbox) => {
                inbox.put_raw(data);
            },
            None => {},
        }
        assert(inboxes_view(inboxes@) =~= deliver(inboxes_view(old(inboxes)@), data@));
        false
    }
}

/// Takes in one batch of a peer, message by message, up to the first fault.
///
/// The batch is walked from its start: a length is read, the message of
/// that length is taken in as `dispatch_message` says, and so on. The walk
/// stops at the first fault: `MalformedBatch` where the bytes end in the
/// middle of a length or of a message or where a message is too short for its
/// type, `UnknownInbox` where a packet is addressed to an actor type without
/// inbox. What stands in front of the fault has been taken in. Without fault
/// the result says whether reading from the peer should stop for now: a turn
/// marker of the batch has brought the count to `STALL_TURNS` or beyond.
pub fn dispatch_batch(
    data: &[u8],
    inboxes: &mut Vec<Option<Inbox>>,
    n_turns: &mut usize,
    n_turns_since_own_turn: &mut usize,
) -> (one_wants_to_wait: Result<bool, NetworkError>)
    requires
        *old(n_turns_since_own_turn) + data@.len() / 4 <= usize::MAX,
    ensures
        inboxes_view(final(inboxes)@) == deliver_all(
            inboxes_view(old(inboxes)@),
            taken_in(inboxes_view(old(inboxes)@), data@),
        ),
        *final(n_turns) == observed_after(
            *old(n_turns) as int,
            taken_in(inboxes_view(old(inboxes)@), data@),
        ),
        *final(n_turns_since_own_turn) == *old(n_turns_since_own_turn) + count_markers(
            taken_in(inboxes_view(old(inboxes)@), data@),
        ),
        one_wants_to_wait == match batch_fault(inboxes_view(old(inboxes)@), data@) {
            Some(e) => Err::<bool, NetworkError>(e),
            None => Ok::<bool, NetworkError>(
                stalls(
                    *old(n_turns_since_own_turn) as int,
                    taken_in(inboxes_view(old(inboxes)@), data@),
                ),
            ),
        },
{
    let ghost boxes = inboxes_view(inboxes@);
    let ghost mut seen: Seq<Seq<u8>> = Seq::empty();
    let mut one_wants_to_wait: bool = false;
    let mut pos: usize = 0;
    proof {
        assert(data@.subrange(0, data@.len() as int) =~= data@);
        assert(seen + taken_in(boxes, data@) =~= taken_in(boxes, data@));
    }
    while pos < data.len()
        invariant
            pos <= data@.len(),
            boxes == inboxes_view(old(inboxes)@),
            *old(n_turns_since_own_turn) + data@.len() / 4 <= usize::MAX,
            4 * seen.len() <= pos,
            taken_in(boxes, data@) == seen + taken_in(
                boxes,
                data@.subrange(pos as int, data@.len() as int),
            ),
            batch_fault(boxes, data@) == batch_fault(
                boxes,
                data@.subrange(pos as int, data@.len() as int),
            ),
            inboxes_view(inboxes@) == deliver_all(boxes, seen),
            *n_turns == observed_after(*old(n_turns) as int, seen),
            *n_turns_since_own_turn == *old(n_turns_since_own_turn) + count_markers(seen),
            one_wants_to_wait == stalls(*old(n_turns_since_own_turn) as int, seen),
        decreases data@.len() - pos,
    {
        let ghost suffix = data@.subrange(pos as int, data@.len() as int);
        proof {
            assert(seen + Seq::<Seq<u8>>::empty() =~= seen);
            lemma_deliver_all_keeps_slots(boxes, seen);
            lemma_count_markers_bound(seen);
        }
        let end: usize = match next_message(data, pos) {
            Some(end) => end,
            None => {
                return Err(NetworkError::MalformedBatch);
            },
        };
        proof {
            lemma_suffix_frame(data@, pos as int);
        }
        let ghost msg = data@.subrange(pos + 4, end as int);
        let found = check_message(slice_subrange(data, pos + LENGTH_BYTES, end), inboxes);
        proof {
            assert(fault(inboxes_view(inboxes@), msg) == fault(boxes, msg)) by {
                if 0 <= inbox_index(msg) < boxes.len() {
                    assert(deliver_all(boxes, seen)[inbox_index(msg)] is Some
                        <==> boxes[inbox_index(msg)] is Some);
                }
            }
        }
        match found {
            Some(e) => {
                return Err(e);
            },
            None => {},
        }
        let wants_to_wait = dispatch_message(
            slice_subrange(data, pos + LENGTH_BYTES, end),
            inboxes,
            n_turns,
            n_turns_since_own_turn,
        );
        proof {
            let rest = data@.subrange(end as int, data@.len() as int);
            assert(seen + (seq![msg] + taken_in(boxes, rest)) =~= seen.push(msg) + taken_in(
                boxes,
                rest,
            ));
            assert(seen.push(msg).drop_last() =~= seen);
            seen = seen.push(msg);
        }
        one_wants_to_wait = one_wants_to_wait || wants_to_wait;
        pos = end;
    }
    proof {
        assert(data@.subrange(pos as int, data@.len() as int) =~= Seq::<u8>::empty());
        assert(seen + Seq::<Seq<u8>>::empty() =~= seen);
    }
    Ok(one_wants_to_wait)
}

/// The packets among `msgs` that go to the inbox `t`, in order.
pub open spec fn packets_for(msgs: Seq<Seq<u8>>, t: int) -> Seq<Seq<u8>>
    decreases msgs.len(),
{
    if msgs.len() == 0 {
        Seq::empty()
    } else if !is_turn_marker(msgs.last()) && inbox_index(msgs.last()) == t {
        packets_for(msgs.drop_last(), t).push(msgs.last())
    } else {
        packets_for(msgs.drop_last(), t)
    }
}

/// A packet survives the wire: the message that carries `packet` under the
/// type id `type_id` starts with that type id, is no turn marker, is long
/// enough, and names the recipient of the packet, so that it goes to the
/// inbox of the recipient's type.
pub proof fn lemma_packet_message(type_id: u16, packet: Packet)
    requires
        type_id != 0,
    ensures
        le_u16(message(type_id, packet.wire())) == type_id,
        !is_turn_marker(message(type_id, packet.wire())),
        well_formed(message(type_id, packet.wire())),
        recipient(message(type_id, packet.wire())) == packet.recipient_id,
        inbox_index(message(type_id, packet.wire())) == packet.recipient_id.type_id.index(),
{
    let msg = message(type_id, packet.wire());
    lemma_le_round_trip(type_id, 0);
    packet.recipient_id.lemma_wire_round_trip(packet.message@);
    packet.recipient_id.lemma_wire_round_trip(Seq::empty());
    assert(msg.subrange(2, 10) =~= packet.recipient_id.wire() + Seq::<u8>::empty());
}

/// A turn marker survives the wire: the marker for `turn` is a turn marker of
/// the right length and carries `turn`.
pub proof fn lemma_turn_marker_message(turn: u32)
    ensures
        is_turn_marker(turn_marker(turn)),
        well_formed(turn_marker(turn)),
        marker_turn(turn_marker(turn)) == turn,
{
    lemma_le_round_trip(0, turn);
    assert(turn_marker(turn).subrange(2, 6) =~= u32_le(turn));
}

/// Messages that arrive one after the other do what they do when they arrive
/// together.
pub proof fn lemma_deliver_all_concat(
    boxes: InboxesView,
    first: Seq<Seq<u8>>,
    then: Seq<Seq<u8>>,
)
    ensures
        deliver_all(boxes, first + then) == deliver_all(deliver_all(boxes, first), then),
    decreases then.len(),
{
    if then.len() == 0 {
        assert(first + then =~= first);
    } else {
        lemma_deliver_all_concat(boxes, first, then.drop_last());
        assert((first + then).drop_last() =~= first + then.drop_last());
    }
}

/// Every inbox gets exactly the packets that are addressed to it, in the
/// order in which they arrive, behind what waited in it before.
pub proof fn lemma_delivery_in_order(boxes: InboxesView, msgs: Seq<Seq<u8>>, t: int)
    requires
        0 <= t < boxes.len(),
        boxes[t] is Some,
    ensures
        deliver_all(boxes, msgs).len() == boxes.len(),
        deliver_all(boxes, msgs)[t] == Some(boxes[t].unwrap() + packets_for(msgs, t)),
    decreases msgs.len(),
{
    if msgs.len() == 0 {
        assert(boxes[t].unwrap() + Seq::<Seq<u8>>::empty() =~= boxes[t].unwrap());
    } else {
        lemma_delivery_in_order(boxes, msgs.drop_last(), t);
        let before = packets_for(msgs.drop_last(), t);
        assert(boxes[t].unwrap() + before.push(msgs.last()) =~= (boxes[t].unwrap() + before).push(
            msgs.last(),
        ));
    }
}

/// The turn that a peer is known to have reached does not go back while the
/// peer does not go back: if no turn marker among `msgs` carries a turn below
/// `observed`, the turn observed after them is not below it either.
pub proof fn lemma_observed_after_monotone(observed: int, msgs: Seq<Seq<u8>>)
    requires
        forall|i: int|
            0 <= i < msgs.len() && is_turn_marker(#[trigger] msgs[i]) ==> marker_turn(msgs[i])
                >= observed,
    ensures
        observed_after(observed, msgs) >= observed,
    decreases msgs.len(),
{
    if msgs.len() > 0 && !is_turn_marker(msgs.last()) {
        lemma_observed_after_monotone(observed, msgs.drop_last());
    }
}

} // verus!
