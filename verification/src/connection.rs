//! One peer, as far as the protocol goes: the batches that wait to be sent to
//! it, the turn it is known to have reached, and how many turn markers it has
//! sent since this machine last finished a turn. The socket itself is the
//! caller's: the connection hands out what is to be sent and is told what
//! arrived.
use crate::dispatch::{
    batch_fault, count_markers, deliver_all, dispatch_batch, fault, lemma_deliver_all_concat,
    lemma_deliver_all_keeps_slots, lemma_delivery_in_order, lemma_only_slots_matter,
    lemma_sound_batch, observed_after, packets_for, taken_in, STALL_TURNS,
};
use crate::error::NetworkError;
use crate::id::ShortTypeId;
use crate::inbox::{inboxes_view, Inbox, InboxesView};
use crate::wire::{
    append_message, decode_batch, fits_frame, frame, largest_frame, lemma_decode_append,
    lemma_decode_frame, lemma_largest_frame_push, message, TYPE_ID_BYTES,
};
use vstd::prelude::*;

verus! {

/// The kind of transport a machine runs on.
#[derive(Clone, Copy, Debug, PartialEq, Eq, Structural)]
pub enum Backend {
    /// Sockets that are polled: peers with a larger id connect to the
    /// listener of this machine, and this machine connects to the peers with
    /// a smaller id and announces itself at once.
    Server,
    /// Sockets that open in the background: this machine connects to every
    /// peer, queues its announcement as the first thing to send, and drops
    /// the first frame that a peer sends.
    Browser,
}

/// What came of one attempt to read a frame from a peer.
#[derive(Debug)]
pub enum Received {
    /// A binary frame: one batch.
    Frame(Vec<u8>),
    /// A frame that is not binary.
    NonBinary,
    /// Nothing is there to be read for now.
    WouldBlock,
    /// The peer closed the connection.
    Closed,
    /// The transport failed.
    Failed,
}

/// What came of sending frames to a peer.
#[derive(Clone, Copy, Debug, PartialEq, Eq, Structural)]
pub enum Sent {
    /// The transport took the frames.
    Done,
    /// The transport took the frames and will put them on the wire later.
    WouldBlock,
    /// The peer closed the connection.
    Closed,
    /// The transport failed.
    Failed,
}

impl Sent {
    /// The error that an outcome of sending stands for: none where the
    /// transport took the frames, be it for later.
    pub open spec fn error(self) -> Option<NetworkError> {
        match self {
            Sent::Done => None,
            Sent::WouldBlock => None,
            Sent::Closed => Some(NetworkError::TransportClosed),
            Sent::Failed => Some(NetworkError::TransportIo),
        }
    }

    /// The error that an outcome of sending stands for, if it is one.
    pub fn as_error(&self) -> (e: Option<NetworkError>)
        ensures
            e == self.error(),
    {
        match self {
            Sent::Done => None,
            Sent::WouldBlock => None,
            Sent::Closed => Some(NetworkError::TransportClosed),
            Sent::Failed => Some(NetworkError::TransportIo),
        }
    }
}

/// The bytes of each of `frames`.
pub open spec fn bytes_of(frames: Seq<Vec<u8>>) -> Seq<Seq<u8>> {
    frames.map_values(|f: Vec<u8>| f@)
}

/// The messages that `batches` hold, in order.
pub open spec fn messages_of(batches: Seq<Seq<u8>>) -> Seq<Seq<u8>>
    decreases batches.len(),
{
    if batches.len() == 0 {
        Seq::empty()
    } else {
        messages_of(batches.drop_last()) + match decode_batch(batches.last()) {
            Some(msgs) => msgs,
            None => Seq::empty(),
        }
    }
}

/// Those of `batches` that hold at least one byte, in order.
pub open spec fn nonempty(batches: Seq<Seq<u8>>) -> Seq<Seq<u8>>
    decreases batches.len(),
{
    if batches.len() == 0 {
        Seq::empty()
    } else if batches.last().len() == 0 {
        nonempty(batches.drop_last())
    } else {
        nonempty(batches.drop_last()).push(batches.last())
    }
}

/// Whether `batch` splits into messages and is no longer than the soft cap
/// `cap` plus its largest framed message.
pub open spec fn within_cap(batch: Seq<u8>, cap: nat) -> bool {
    &&& decode_batch(batch) is Some
    &&& batch.len() <= cap + largest_frame(decode_batch(batch).unwrap())
}

/// What a connection is, to the protocol.
pub struct ConnectionView {
    /// The largest turn that the peer has reported.
    pub observed_turns: nat,
    /// The turn markers of the peer that were taken in since this machine
    /// last finished a turn.
    pub turns_since_own_turn: nat,
    /// The batches that wait to be sent, oldest first. The last is the one
    /// that new messages go to.
    pub batches: Seq<Seq<u8>>,
    /// The soft cap on the size of a batch.
    pub cap: nat,
    /// The machine id that is still to be announced to the peer, in a frame
    /// of its own, before any batch.
    pub announcement: Option<u8>,
    /// Whether the first frame of the peer is still to come. It holds no
    /// batch and is dropped.
    pub awaits_first_frame: bool,
    /// Whether the transport is ready to take frames.
    pub open: bool,
}

impl ConnectionView {
    /// What always holds of a connection: there is a batch for new messages
    /// to go to, and every batch splits into messages and respects the cap.
    pub open spec fn wf(self) -> bool {
        &&& self.batches.len() >= 1
        &&& forall|i: int| 0 <= i < self.batches.len() ==> within_cap(#[trigger] self.batches[i], self.cap)
    }

    /// The messages that wait to be sent, oldest first.
    pub open spec fn pending_messages(self) -> Seq<Seq<u8>> {
        messages_of(self.batches)
    }

    /// The frames that the transport is to carry next, in order: the
    /// announcement, if one is due, in a frame of its own, then each batch
    /// that is not empty.
    pub open spec fn pending_frames(self) -> Seq<Seq<u8>> {
        match self.announcement {
            Some(id) => seq![seq![id]] + nonempty(self.batches),
            None => nonempty(self.batches),
        }
    }

    /// Whether the peer may be read from: it has not sent `STALL_TURNS` turn
    /// markers since this machine last finished a turn.
    pub open spec fn ready(self) -> bool {
        self.turns_since_own_turn < STALL_TURNS
    }

    /// Whether a message of `size` bytes goes to the last batch: the batch is
    /// shorter than the cap less the size of the message.
    pub open spec fn takes(self, size: nat) -> bool {
        self.batches.last().len() < self.cap - size
    }

    /// The connection after `msg` was queued: framed and appended to the last
    /// batch where that takes it, in a new batch behind the others where not.
    pub open spec fn enqueued(self, msg: Seq<u8>) -> ConnectionView {
        ConnectionView {
            batches: if self.takes(msg.len()) {
                self.batches.update(self.batches.len() - 1, self.batches.last() + frame(msg))
            } else {
                self.batches.push(frame(msg))
            },
            ..self
        }
    }

    /// The connection after all that waited was handed to the transport.
    pub open spec fn flushed(self) -> ConnectionView {
        ConnectionView { batches: seq![Seq::<u8>::empty()], announcement: None, ..self }
    }

    /// The connection after the messages `msgs` of the peer were taken in.
    pub open spec fn received(self, msgs: Seq<Seq<u8>>) -> ConnectionView {
        ConnectionView {
            observed_turns: observed_after(self.observed_turns as int, msgs) as nat,
            turns_since_own_turn: self.turns_since_own_turn + count_markers(msgs),
            ..self
        }
    }

    /// What one attempt to read from the peer leads to: the connection and the
    /// inboxes after it, and whether to read on (`Ok(true)`), to leave the
    /// peer alone for now (`Ok(false)`), or to give the connection up.
    ///
    /// A frame is a batch. The first frame of a peer on the browser backend
    /// holds none and is dropped. Any other is taken in message by message, up
    /// to its first fault: a fault is an error, and without fault reading
    /// goes on while the peer stays below `STALL_TURNS` turn markers. A frame
    /// that is not binary, a closed connection and a failed transport are
    /// errors; that nothing is there to be read ends the reading without
    /// error.
    pub open spec fn taken(self, received: Received, boxes: InboxesView) -> (
        ConnectionView,
        InboxesView,
        Result<bool, NetworkError>,
    ) {
        match received {
            Received::Frame(data) => if self.awaits_first_frame {
                (ConnectionView { awaits_first_frame: false, ..self }, boxes, Ok(true))
            } else {
                let msgs = taken_in(boxes, data@);
                (
                    self.received(msgs),
                    deliver_all(boxes, msgs),
                    match batch_fault(boxes, data@) {
                        Some(e) => Err(e),
                        None => Ok(self.received(msgs).ready()),
                    },
                )
            },
            Received::NonBinary => (self, boxes, Err(NetworkError::NonBinaryFrame)),
            Received::WouldBlock => (self, boxes, Ok(false)),
            Received::Closed => (self, boxes, Err(NetworkError::TransportClosed)),
            Received::Failed => (self, boxes, Err(NetworkError::TransportIo)),
        }
    }

    /// Queueing a message keeps the connection well formed and puts the
    /// message behind all that wait. A batch that has reached the cap gets no
    /// further message: the next one starts a new batch.
    pub proof fn lemma_enqueued(self, msg: Seq<u8>)
        requires
            self.wf(),
            fits_frame(msg),
        ensures
            self.enqueued(msg).wf(),
            self.enqueued(msg).pending_messages() == self.pending_messages().push(msg),
            self.batches.last().len() >= self.cap ==> self.enqueued(msg).batches
                == self.batches.push(frame(msg)),
    {
        let after = self.enqueued(msg);
        let last = self.batches.len() - 1;
        let tail = self.batches.last();
        assert(within_cap(self.batches[last], self.cap));
        lemma_decode_frame(msg, Seq::empty());
        assert(frame(msg) + Seq::<u8>::empty() =~= frame(msg));
        assert(seq![msg] + Seq::<Seq<u8>>::empty() =~= seq![msg]);
        assert(seq![msg].drop_first() =~= Seq::<Seq<u8>>::empty());
        assert(largest_frame(Seq::<Seq<u8>>::empty()) == 0);
        assert(largest_frame(seq![msg]) == 4 + msg.len());
        if self.takes(msg.len()) {
            lemma_decode_append(tail, msg);
            lemma_largest_frame_push(decode_batch(tail).unwrap(), msg);
            assert(after.batches.drop_last() =~= self.batches.drop_last());
            assert(messages_of(self.batches.drop_last()) + decode_batch(tail).unwrap().push(msg)
                =~= (messages_of(self.batches.drop_last()) + decode_batch(tail).unwrap()).push(
                msg,
            ));
            assert forall|i: int| 0 <= i < after.batches.len() implies within_cap(
                #[trigger] after.batches[i],
                after.cap,
            ) by {
                if i < last {
                    assert(within_cap(self.batches[i], self.cap));
                }
            }
        } else {
            assert(after.batches.drop_last() =~= self.batches);
            assert(messages_of(self.batches) + seq![msg] =~= messages_of(self.batches).push(msg));
            assert forall|i: int| 0 <= i < after.batches.len() implies within_cap(
                #[trigger] after.batches[i],
                after.cap,
            ) by {
                if i <= last {
                    assert(within_cap(self.batches[i], self.cap));
                }
            }
        }
    }
}

/// Batches without bytes hold no messages: leaving them out loses nothing.
pub proof fn lemma_nonempty_keeps_messages(batches: Seq<Seq<u8>>)
    ensures
        messages_of(nonempty(batches)) == messages_of(batches),
    decreases batches.len(),
{
    if batches.len() > 0 {
        lemma_nonempty_keeps_messages(batches.drop_last());
        if batches.last().len() > 0 {
            assert(nonempty(batches).drop_last() =~= nonempty(batches.drop_last()));
        } else {
            assert(messages_of(batches.drop_last()) + Seq::<Seq<u8>>::empty() =~= messages_of(
                batches.drop_last(),
            ));
        }
    }
}

/// Every batch that is handed out is one of the batches that waited, and
/// none is empty.
pub proof fn lemma_nonempty_members(batches: Seq<Seq<u8>>, k: int)
    requires
        0 <= k < nonempty(batches).len(),
    ensures
        nonempty(batches)[k].len() > 0,
        exists|i: int| 0 <= i < batches.len() && batches[i] == nonempty(batches)[k],
    decreases batches.len(),
{
    if batches.len() > 0 {
        let rest = batches.drop_last();
        if batches.last().len() > 0 && k == nonempty(rest).len() {
            assert(batches[batches.len() - 1] == nonempty(batches)[k]);
        } else {
            lemma_nonempty_members(rest, k);
            let i = choose|i: int| 0 <= i < rest.len() && rest[i] == nonempty(rest)[k];
            assert(batches[i] == nonempty(batches)[k]);
        }
    }
}

/// The inboxes after the batches `batches` were taken in, one after the
/// other, each up to its first fault.
pub open spec fn deliver_batches(boxes: InboxesView, batches: Seq<Seq<u8>>) -> InboxesView
    decreases batches.len(),
{
    if batches.len() == 0 {
        boxes
    } else {
        let before = deliver_batches(boxes, batches.drop_last());
        deliver_all(before, taken_in(before, batches.last()))
    }
}

/// Batches of sound messages that are taken in one after the other do what
/// their messages do when they arrive in one sequence, and none of them meets
/// a fault.
pub proof fn lemma_deliver_batches(boxes: InboxesView, batches: Seq<Seq<u8>>)
    requires
        forall|k: int| 0 <= k < batches.len() ==> decode_batch(#[trigger] batches[k]) is Some,
        forall|i: int|
            0 <= i < messages_of(batches).len() ==> fault(boxes, #[trigger] messages_of(batches)[i])
                is None,
    ensures
        deliver_batches(boxes, batches) == deliver_all(boxes, messages_of(batches)),
        forall|k: int| 0 <= k < batches.len() ==> batch_fault(boxes, #[trigger] batches[k]) is None,
    decreases batches.len(),
{
    if batches.len() > 0 {
        let init = batches.drop_last();
        let last = batches.last();
        let msgs = decode_batch(last).unwrap();
        assert(decode_batch(batches[batches.len() - 1]) is Some);
        assert forall|k: int| 0 <= k < init.len() implies decode_batch(#[trigger] init[k])
            is Some by {
            assert(init[k] == batches[k]);
        }
        assert forall|i: int| 0 <= i < messages_of(init).len() implies fault(
            boxes,
            #[trigger] messages_of(init)[i],
        ) is None by {
            assert(messages_of(init)[i] == messages_of(batches)[i]);
        }
        assert forall|i: int| 0 <= i < msgs.len() implies fault(boxes, #[trigger] msgs[i])
            is None by {
            assert(msgs[i] == messages_of(batches)[messages_of(init).len() + i]);
        }
        lemma_deliver_batches(boxes, init);
        let before = deliver_batches(boxes, init);
        lemma_deliver_all_keeps_slots(boxes, messages_of(init));
        lemma_only_slots_matter(before, boxes, last);
        lemma_sound_batch(boxes, last);
        lemma_deliver_all_concat(boxes, messages_of(init), msgs);
        assert forall|k: int| 0 <= k < batches.len() implies batch_fault(
            boxes,
            #[trigger] batches[k],
        ) is None by {
            if k < init.len() {
                assert(init[k] == batches[k]);
            }
        }
    }
}

/// What is queued arrives, in order. Let every message that waits on a
/// connection be sound for the peer: long enough for its type and, if a
/// packet, addressed to an actor type that has an inbox there. When the peer
/// takes in, one after the other, the batches that the connection hands out
/// to be sent, then no batch meets a fault, and every inbox of the peer gets
/// exactly the packets that were queued for it on the connection, in the
/// order in which they were queued, behind what waited in it before.
pub proof fn lemma_round_trip(c: ConnectionView, boxes: InboxesView, t: int)
    requires
        c.wf(),
        forall|i: int|
            0 <= i < c.pending_messages().len() ==> fault(boxes, #[trigger] c.pending_messages()[i])
                is None,
        0 <= t < boxes.len(),
        boxes[t] is Some,
    ensures
        messages_of(nonempty(c.batches)) == c.pending_messages(),
        forall|k: int|
            0 <= k < nonempty(c.batches).len() ==> batch_fault(
                boxes,
                #[trigger] nonempty(c.batches)[k],
            ) is None,
        deliver_batches(boxes, nonempty(c.batches))[t] == Some(
            boxes[t].unwrap() + packets_for(c.pending_messages(), t),
        ),
{
    lemma_nonempty_keeps_messages(c.batches);
    assert forall|k: int| 0 <= k < nonempty(c.batches).len() implies decode_batch(
        #[trigger] nonempty(c.batches)[k],
    ) is Some by {
        lemma_batches_within_cap(c, k);
    }
    assert forall|i: int| 0 <= i < messages_of(nonempty(c.batches)).len() implies fault(
        boxes,
        #[trigger] messages_of(nonempty(c.batches))[i],
    ) is None by {
        assert(messages_of(nonempty(c.batches))[i] == c.pending_messages()[i]);
    }
    lemma_deliver_batches(boxes, nonempty(c.batches));
    lemma_delivery_in_order(boxes, c.pending_messages(), t);
}

/// No batch goes out empty or beyond the cap: every batch that a connection
/// hands out to be sent holds at least one byte, splits into messages, and
/// is no longer than the soft cap plus its largest framed message.
pub proof fn lemma_batches_within_cap(c: ConnectionView, k: int)
    requires
        c.wf(),
        0 <= k < nonempty(c.batches).len(),
    ensures
        nonempty(c.batches)[k].len() > 0,
        within_cap(nonempty(c.batches)[k], c.cap),
{
    lemma_nonempty_members(c.batches, k);
    let i = choose|i: int| 0 <= i < c.batches.len() && c.batches[i] == nonempty(c.batches)[k];
    assert(within_cap(c.batches[i], c.cap));
}

/// The state that the protocol keeps of one peer.
#[derive(Debug)]
pub struct Connection {
    n_turns: usize,
    n_turns_since_own_turn: usize,
    out_batches: Vec<Vec<u8>>,
    batch_message_bytes: usize,
    announcement: Option<u8>,
    got_machine_id: bool,
    open: bool,
}

impl View for Connection {
    type V = ConnectionView;

    closed spec fn view(&self) -> ConnectionView {
        ConnectionView {
            observed_turns: self.n_turns as nat,
            turns_since_own_turn: self.n_turns_since_own_turn as nat,
            batches: bytes_of(self.out_batches@),
            cap: self.batch_message_bytes as nat,
            announcement: self.announcement,
            awaits_first_frame: !self.got_machine_id,
            open: self.open,
        }
    }
}

impl Connection {
    /// A connection to a peer that has just been reached. Nothing waits to be
    /// sent and no turn of the peer is known. On the server backend the
    /// transport is open and the peer's first frame has been dealt with; on
    /// the browser backend the transport has yet to open and the peer's first
    /// frame is still to come.
    pub fn new(backend: Backend, batch_message_bytes: usize) -> (connection: Connection)
        ensures
            connection@.wf(),
            connection@ == (ConnectionView {
                observed_turns: 0,
                turns_since_own_turn: 0,
                batches: seq![Seq::<u8>::empty()],
                cap: batch_message_bytes as nat,
                announcement: None,
                awaits_first_frame: backend == Backend::Browser,
                open: backend == Backend::Server,
            }),
    {
        let mut out_batches: Vec<Vec<u8>> = Vec::new();
        out_batches.push(Vec::with_capacity(batch_message_bytes));
        let server: bool = match backend {
            Backend::Server => true,
            Backend::Browser => false,
        };
        let connection = Connection {
            n_turns: 0,
            n_turns_since_own_turn: 0,
            out_batches,
            batch_message_bytes,
            announcement: None,
            got_machine_id: server,
            open: server,
        };
        proof {
            assert(connection@.batches =~= seq![Seq::<u8>::empty()]);
            assert(decode_batch(Seq::<u8>::empty()) == Some(Seq::<Seq<u8>>::empty()));
        }
        connection
    }

    /// Puts the announcement of `machine_id` in front of all that waits to be
    /// sent: it will leave in a frame of its own, before any batch.
    pub fn announce(&mut self, machine_id: u8)
        ensures
            final(self)@ == (ConnectionView { announcement: Some(machine_id), ..old(self)@ }),
    {
        self.announcement = Some(machine_id);
    }

    /// Records whether the transport is ready to take frames.
    pub fn set_open(&mut self, open: bool)
        ensures
            final(self)@ == (ConnectionView { open, ..old(self)@ }),
    {
        self.open = open;
    }

    /// Whether the transport is ready to take frames.
    pub fn is_open(&self) -> (open: bool)
        ensures
            open == self@.open,
    {
        self.open
    }

    /// The largest turn that the peer has reported.
    pub fn observed_turns(&self) -> (turns: usize)
        ensures
            turns == self@.observed_turns,
    {
        self.n_turns
    }

    /// The number of turn markers taken in from the peer since this machine
    /// last finished a turn.
    pub fn turns_since_own_turn(&self) -> (turns: usize)
        ensures
            turns == self@.turns_since_own_turn,
    {
        self.n_turns_since_own_turn
    }

    /// Starts counting the peer's turn markers anew, as this machine has
    /// finished a turn.
    pub fn reset_turns_since_own_turn(&mut self)
        ensures
            final(self)@ == (ConnectionView { turns_since_own_turn: 0, ..old(self)@ }),
    {
        self.n_turns_since_own_turn = 0;
    }

    /// Whether the peer may be read from.
    pub fn ready_to_receive(&self) -> (ready: bool)
        ensures
            ready == self@.ready(),
    {
        self.n_turns_since_own_turn < STALL_TURNS
    }

    /// Queues the message of type `type_id` with the payload `payload` for
    /// the peer, framed. It goes to the last batch if that is shorter than
    /// the cap less the size of the message, and else to a new batch behind
    /// it: a batch overshoots the cap by less than one message.
    pub fn enqueue_in_batch(&mut self, type_id: ShortTypeId, payload: &[u8])
        requires
            old(self)@.wf(),
            fits_frame(message(type_id.0, payload@)),
        ensures
            final(self)@ == old(self)@.enqueued(message(type_id.0, payload@)),
            final(self)@.wf(),
            final(self)@.pending_messages() == old(self)@.pending_messages().push(
                message(type_id.0, payload@),
            ),
    {
        let message_size: usize = TYPE_ID_BYTES + payload.len();
        let tail: usize = self.out_batches.len() - 1;
        let takes: bool = message_size < self.batch_message_bytes && self.out_batches[tail].len()
            < self.batch_message_bytes - message_size;
        if !takes {
            self.out_batches.push(Vec::with_capacity(self.batch_message_bytes));
        }
        let tail: usize = self.out_batches.len() - 1;
        append_message(&mut self.out_batches[tail], type_id.0, payload);
        proof {
            let msg = message(type_id.0, payload@);
            assert(self@.batches =~= old(self)@.enqueued(msg).batches);
            old(self)@.lemma_enqueued(msg);
        }
    }

    /// Hands out all that waits to be sent, and starts anew with one empty
    /// batch. The frames are to be sent in order, one binary frame each.
    /// While the transport is not open nothing is handed out and nothing
    /// changes.
    ///
    /// No frame is empty. The announcement, if one was due, comes first; every
    /// frame behind it is a batch within the cap.
    pub fn try_send_pending(&mut self) -> (frames: Vec<Vec<u8>>)
        requires
            old(self)@.wf(),
        ensures
            final(self)@.wf(),
            !old(self)@.open ==> final(self)@ == old(self)@ && frames@.len() == 0,
            old(self)@.open ==> final(self)@ == old(self)@.flushed() && bytes_of(frames@) == old(
                self,
            )@.pending_frames(),
            forall|k: int| 0 <= k < frames@.len() ==> (#[trigger] frames@[k])@.len() > 0,
            forall|k: int|
                (if old(self)@.announcement is Some {
                    1int
                } else {
                    0int
                }) <= k < frames@.len() ==> within_cap((#[trigger] frames@[k])@, old(self)@.cap),
    {
        let mut frames: Vec<Vec<u8>> = Vec::new();
        if !self.open {
            return frames;
        }
        match self.announcement {
            Some(id) => {
                let mut hello: Vec<u8> = Vec::new();
                hello.push(id);
                frames.push(hello);
            },
            None => {},
        }
        self.announcement = None;
        let ghost head = bytes_of(frames@);
        let mut batches: Vec<Vec<u8>> = Vec::new();
        batches.push(Vec::with_capacity(self.batch_message_bytes));
        core::mem::swap(&mut self.out_batches, &mut batches);
        let ghost waiting = bytes_of(batches@);
        proof {
            assert(waiting == old(self)@.batches);
            assert(self@.batches =~= seq![Seq::<u8>::empty()]);
            assert(decode_batch(Seq::<u8>::empty()) == Some(Seq::<Seq<u8>>::empty()));
            assert(head =~= match old(self)@.announcement {
                Some(id) => seq![seq![id]],
                None => Seq::empty(),
            });
            assert(bytes_of(frames@) =~= head + nonempty(waiting.take(0)));
        }
        let mut i: usize = 0;
        let n: usize = batches.len();
        while i < n
            invariant
                i <= n,
                n == batches@.len(),
                waiting.len() == n,
                forall|j: int| i <= j < n ==> (#[trigger] batches@[j])@ == waiting[j],
                bytes_of(frames@) == head + nonempty(waiting.take(i as int)),
            decreases n - i,
        {
            proof {
                assert(waiting.take(i + 1).drop_last() =~= waiting.take(i as int));
                assert(waiting.take(i + 1).last() == waiting[i as int]);
            }
            if batches[i].len() > 0 {
                let ghost sent = bytes_of(frames@);
                let mut batch: Vec<u8> = Vec::new();
                core::mem::swap(&mut batches[i], &mut batch);
                frames.push(batch);
                proof {
                    assert(batch@ == waiting[i as int]);
                    assert(bytes_of(frames@) =~= sent.push(waiting[i as int]));
                    assert(sent.push(waiting[i as int]) =~= head + nonempty(waiting.take(i + 1)));
                }
            }
            i = i + 1;
        }
        proof {
            assert(waiting.take(n as int) =~= waiting);
            let first: int = if old(self)@.announcement is Some {
                1
            } else {
                0
            };
            assert(head.len() == first);
            assert forall|k: int| 0 <= k < frames@.len() implies (#[trigger] frames@[k])@.len()
                > 0 by {
                assert(bytes_of(frames@)[k] == frames@[k]@);
                if k >= first {
                    lemma_nonempty_members(waiting, k - first);
                }
            }
            assert forall|k: int| first <= k < frames@.len() implies within_cap(
                (#[trigger] frames@[k])@,
                old(self)@.cap,
            ) by {
                assert(bytes_of(frames@)[k] == frames@[k]@);
                lemma_nonempty_members(waiting, k - first);
                let j = choose|j: int|
                    0 <= j < waiting.len() && waiting[j] == nonempty(waiting)[k - first];
                assert(within_cap(old(self)@.batches[j], old(self)@.cap));
            }
        }
        frames
    }

    /// Takes in what one attempt to read from the peer gave, as `taken` says,
    /// and says whether to read on: `Ok(true)` to read again, `Ok(false)` to
    /// leave the peer alone for now, an error to give the connection up.
    ///
    /// A peer that has reached `STALL_TURNS` is not to be read from, so no
    /// frame of it can arrive.
    pub fn try_receive(&mut self, received: Received, inboxes: &mut Vec<Option<Inbox>>) -> (more:
        Result<bool, NetworkError>)
        requires
            old(self)@.wf(),
            received is Frame ==> old(self)@.ready(),
        ensures
            final(self)@.wf(),
            (final(self)@, inboxes_view(final(inboxes)@), more) == old(self)@.taken(
                received,
                inboxes_view(old(inboxes)@),
            ),
            !(received is Frame) || old(self)@.awaits_first_frame ==> *final(inboxes) == *old(
                inboxes,
            ),
    {
        match received {
            Received::Frame(data) => {
                if !self.got_machine_id {
                    self.got_machine_id = true;
                    return Ok(true);
                }
                assert(data@.len() <= usize::MAX);
                match dispatch_batch(
                    data.as_slice(),
                    inboxes,
                    &mut self.n_turns,
                    &mut self.n_turns_since_own_turn,
                ) {
                    Ok(blocked) => Ok(!blocked),
                    Err(e) => Err(e),
                }
            },
            Received::NonBinary => Err(NetworkError::NonBinaryFrame),
            Received::WouldBlock => Ok(false),
            Received::Closed => Err(NetworkError::TransportClosed),
            Received::Failed => Err(NetworkError::TransportIo),
        }
    }
}

} // verus!
