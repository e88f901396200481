//! The protocol between the machines of a network, as a model: what the
//! network of one machine is, how queueing a message, finishing a turn and
//! each step of a round change it, and what holds of these changes.
use crate::connection::{bytes_of, Backend, ConnectionView, Received, Sent};
use crate::dispatch::{is_turn_marker, lemma_observed_after_monotone, marker_turn, taken_in};
use crate::error::NetworkError;
use crate::id::BROADCAST_MACHINE;
use crate::text::{decimal, url_parse, ws_address};
use crate::wire::{decode_batch, fits_frame, turn_marker};
use crate::inbox::InboxesView;
use vstd::prelude::*;

verus! {

/// By how many turns the peers have to be ahead for a machine on the browser
/// backend to jump forward to them.
pub const CATCH_UP_TURNS: usize = 1000;

/// What the network is, to the protocol.
pub struct NetworkingView {
    /// The index of this machine among the peers.
    pub machine_id: u8,
    /// The turn that this machine is in.
    pub n_turns: nat,
    /// The soft cap on the size of a batch.
    pub cap: nat,
    /// By how many turns a peer may lag behind before this machine is asked
    /// to slow down.
    pub acceptable_turn_distance: nat,
    /// The number of turns of lag, beyond the acceptable, that make for one
    /// millisecond of sleep.
    pub sleep_ratio: nat,
    /// The address of each peer, by machine id, this machine included.
    pub addresses: Seq<Seq<char>>,
    /// The connection to each peer, by machine id, where there is one.
    pub connections: Seq<Option<ConnectionView>>,
    /// The kind of transport this machine runs on.
    pub backend: Backend,
}

impl NetworkingView {
    /// What always holds of the network: there is a slot for every peer, the
    /// slot of this machine is empty, and every connection is well formed
    /// and batches by the cap of the network.
    pub open spec fn wf(self) -> bool {
        &&& self.connections.len() == self.addresses.len()
        &&& self.machine_id < self.connections.len()
        &&& self.connections[self.machine_id as int] is None
        &&& forall|i: int|
            0 <= i < self.connections.len() && (#[trigger] self.connections[i]) is Some ==> {
                &&& self.connections[i].unwrap().wf()
                &&& self.connections[i].unwrap().cap == self.cap
            }
    }

    /// The network with `connections` in place of its own.
    pub open spec fn with_connections(self, connections: Seq<Option<ConnectionView>>) -> NetworkingView {
        NetworkingView { connections, ..self }
    }

    /// Whether a message for the machine `to` goes to the peer `i`: to every
    /// peer, where `to` is the broadcast id, and else to the peer `to`.
    pub open spec fn addresses_peer(to: u8, i: int) -> bool {
        to == BROADCAST_MACHINE || i == to
    }

    /// The network after `msg` was queued for the machine `to`: it is queued
    /// on every connection that there is to a peer it goes to.
    pub open spec fn enqueued(self, to: u8, msg: Seq<u8>) -> NetworkingView {
        NetworkingView {
            connections: Seq::new(
                self.connections.len(),
                |i: int|
                    match self.connections[i] {
                        Some(c) => if Self::addresses_peer(to, i) {
                            Some(c.enqueued(msg))
                        } else {
                            Some(c)
                        },
                        None => None,
                    },
            ),
            ..self
        }
    }

    /// By how many turns the peer behind `c` lags behind this machine, beyond
    /// what is acceptable.
    pub open spec fn excess_lag(self, c: ConnectionView) -> int {
        self.n_turns - self.acceptable_turn_distance - c.observed_turns
    }

    /// The largest excess lag among the connected peers below `upto`, or zero
    /// where none of them lags beyond the acceptable.
    pub open spec fn max_lag(self, upto: int) -> int
        decreases upto,
    {
        if upto <= 0 {
            0
        } else {
            let rest = self.max_lag(upto - 1);
            match self.connections[upto - 1] {
                Some(c) => if self.excess_lag(c) > rest {
                    self.excess_lag(c)
                } else {
                    rest
                },
                None => rest,
            }
        }
    }

    /// The largest excess lag among all connected peers.
    pub open spec fn slowest_lag(self) -> int {
        self.max_lag(self.connections.len() as int)
    }

    /// For how many milliseconds this machine should sleep before its next
    /// turn: the excess lag of its slowest peer, divided by the sleep ratio;
    /// `None` where no peer lags beyond the acceptable.
    pub open spec fn sleep_hint(self) -> Option<u64> {
        if self.slowest_lag() > 0 {
            Some((self.slowest_lag() / self.sleep_ratio as int) as u64)
        } else {
            None
        }
    }

    /// The turn number that goes on the wire for the turn `turn`: its lowest
    /// 32 bits.
    pub open spec fn wire_turn(turn: nat) -> u32 {
        (turn % 0x1_0000_0000) as u32
    }

    /// The network after this machine finished its turn: it is in the next
    /// turn, and every connected peer has a marker for that turn queued and
    /// its count of turn markers set back to zero.
    pub open spec fn turn_finished(self) -> NetworkingView {
        NetworkingView {
            n_turns: self.n_turns + 1,
            connections: Seq::new(
                self.connections.len(),
                |i: int|
                    match self.connections[i] {
                        Some(c) => Some(
                            ConnectionView {
                                turns_since_own_turn: 0,
                                ..c.enqueued(turn_marker(Self::wire_turn(self.n_turns + 1)))
                            },
                        ),
                        None => None,
                    },
            ),
            ..self
        }
    }

    /// The turn that the report shows for the slot `i`: the turn of this
    /// machine for its own slot, the turn that the peer has reported for a
    /// connected peer, and `-1` for a peer without connection.
    pub open spec fn debug_turn(self, i: int) -> Seq<char> {
        if i == self.machine_id {
            decimal(self.n_turns)
        } else {
            match self.connections[i] {
                Some(c) => decimal(c.observed_turns),
                None => "-1"@,
            }
        }
    }

    /// The line of the report for the slot `i`: the slot, a colon, a space,
    /// the turn.
    pub open spec fn debug_line(self, i: int) -> Seq<char> {
        decimal(i as nat) + ": "@ + self.debug_turn(i)
    }

    /// The report on the slots below `upto`: one line for each, in order, with
    /// a comma and a line break between two lines.
    pub open spec fn debug_text(self, upto: int) -> Seq<char>
        decreases upto,
    {
        if upto <= 0 {
            Seq::empty()
        } else if upto == 1 {
            self.debug_line(0)
        } else {
            self.debug_text(upto - 1) + ",\n"@ + self.debug_line(upto - 1)
        }
    }
}

/// What the caller of `connect` or `send_and_receive` did for the network,
/// and what came of it.
#[derive(Debug)]
pub enum Event {
    /// Nothing yet: a round begins.
    Begin,
    /// A peer connected to the listener and sent `hello` as its first binary
    /// frame.
    Accepted { hello: Vec<u8> },
    /// No peer waited at the listener, or none that got as far as its first
    /// binary frame.
    NothingAccepted,
    /// The peer `machine_id` was dialed, as asked.
    Dialed { machine_id: usize },
    /// The frames for the peer `machine_id` went to the transport, with this
    /// outcome: that of the first frame that met an error, or else that of
    /// flushing the transport behind the last.
    Sent { machine_id: usize, outcome: Sent },
    /// The transport of the peer `machine_id` was asked for a frame.
    Received { machine_id: usize, received: Received },
}

/// What the caller of `connect` or `send_and_receive` is to do next. It
/// answers each with the event that belongs to it, in a call of the same
/// function.
#[derive(Debug)]
pub enum Action {
    /// Poll the listener once. If a peer waits, upgrade its stream to a
    /// WebSocket and read up to its first binary frame. Answer with
    /// `Accepted` or `NothingAccepted`.
    Accept,
    /// Open a WebSocket to the peer `machine_id` at `url`, and send
    /// `announce`, if there is one, as a binary frame of one byte. Failing to
    /// do so is fatal. Answer with `Dialed`.
    Dial { machine_id: usize, url: String, announce: Option<u8> },
    /// Send each of `frames` to the peer `machine_id` as one binary frame,
    /// in order and up to the first error, then flush the transport. Answer
    /// with `Sent`.
    Send { machine_id: usize, frames: Vec<Vec<u8>> },
    /// Ask the transport of the peer `machine_id` for one frame. Answer with
    /// `Received`.
    Receive { machine_id: usize },
    /// Stop: the network cannot go on.
    Fail(NetworkError),
    /// Nothing more is to be done in this round.
    Done,
}

/// An action, to the protocol.
pub enum ActionView {
    Accept,
    Dial { machine_id: int, url: Seq<char>, announce: Option<u8> },
    Send { machine_id: int, frames: Seq<Seq<u8>> },
    Receive { machine_id: int },
    Fail(NetworkError),
    Done,
}

impl View for Action {
    type V = ActionView;

    open spec fn view(&self) -> ActionView {
        match *self {
            Action::Accept => ActionView::Accept,
            Action::Dial { machine_id, url, announce } => ActionView::Dial {
                machine_id: machine_id as int,
                url: url@,
                announce,
            },
            Action::Send { machine_id, frames } => ActionView::Send {
                machine_id: machine_id as int,
                frames: bytes_of(frames@),
            },
            Action::Receive { machine_id } => ActionView::Receive { machine_id: machine_id as int },
            Action::Fail(e) => ActionView::Fail(e),
            Action::Done => ActionView::Done,
        }
    }
}

impl Event {
    /// Whether the event is one of bringing up connections.
    pub open spec fn connecting(self) -> bool {
        self is Begin || self is Accepted || self is NothingAccepted || self is Dialed
    }

    /// The messages of the peer `j` that are taken in with the event, on a
    /// machine with the inboxes `boxes`: those of the batch up to its first
    /// fault, where the event is a frame of that peer, and none otherwise.
    pub open spec fn arriving(self, j: int, boxes: InboxesView) -> Seq<Seq<u8>> {
        match self {
            Event::Received { machine_id, received: Received::Frame(data) } => if machine_id == j {
                taken_in(boxes, data@)
            } else {
                Seq::empty()
            },
            _ => Seq::empty(),
        }
    }
}

impl NetworkingView {
    /// The network with `c` as the connection to the peer `i`.
    pub open spec fn with_connection(self, i: int, c: ConnectionView) -> NetworkingView {
        self.with_connections(self.connections.update(i, Some(c)))
    }

    /// The network after the transport to the peer `i` was found open, or not:
    /// the connection to that peer, if there is one, takes note of it.
    pub open spec fn opened(self, i: int, open: bool) -> NetworkingView {
        if 0 <= i < self.connections.len() && self.connections[i] is Some {
            self.with_connection(i, ConnectionView { open, ..self.connections[i].unwrap() })
        } else {
            self
        }
    }

    /// The network without a connection to the peer `i`.
    pub open spec fn closed(self, i: int) -> NetworkingView {
        self.with_connections(self.connections.update(i, None))
    }

    /// A connection that has just come about: nothing waits on it and no turn
    /// of the peer is known. On the browser backend its transport has yet to
    /// open and the peer's first frame is still to come, and where this
    /// machine dialed, its announcement waits to be sent first.
    pub open spec fn fresh_connection(self, dialed: bool) -> ConnectionView {
        ConnectionView {
            observed_turns: 0,
            turns_since_own_turn: 0,
            batches: seq![Seq::<u8>::empty()],
            cap: self.cap,
            announcement: if dialed && self.backend == Backend::Browser {
                Some(self.machine_id)
            } else {
                None
            },
            awaits_first_frame: self.backend == Backend::Browser,
            open: self.backend == Backend::Server,
        }
    }

    /// The announcement that goes out at once when this machine dials: its
    /// machine id on the server backend, nothing on the browser backend,
    /// where the announcement is queued on the connection.
    pub open spec fn announces(self) -> Option<u8> {
        if self.backend == Backend::Server {
            Some(self.machine_id)
        } else {
            None
        }
    }

    /// Whether this machine is the one to dial the peer `i`, and has yet to:
    /// on the server backend a machine dials the peers with a smaller id, on
    /// the browser backend every other machine.
    pub open spec fn needs_dial(self, i: int) -> bool {
        &&& 0 <= i < self.connections.len()
        &&& self.connections[i] is None
        &&& if self.backend == Backend::Server {
            i < self.machine_id
        } else {
            i != self.machine_id
        }
    }

    /// The first peer from `from` on that this machine has yet to dial, or the
    /// number of peers where there is none.
    pub open spec fn next_dial(self, from: int) -> int
        decreases self.connections.len() - from,
    {
        if from < 0 || from >= self.connections.len() {
            self.connections.len() as int
        } else if self.needs_dial(from) {
            from
        } else {
            self.next_dial(from + 1)
        }
    }

    /// Whether this machine waits for a peer to connect to it: on the server
    /// backend, while a peer with a larger id has no connection.
    pub open spec fn wants_accept(self) -> bool {
        &&& self.backend == Backend::Server
        &&& exists|i: int|
            self.machine_id < i < self.connections.len() && (#[trigger] self.connections[i]) is None
    }

    /// The peer that announces itself with `hello`: the machine whose id is
    /// the first byte, if that is another machine of the network.
    pub open spec fn announced(self, hello: Seq<u8>) -> Option<usize> {
        if hello.len() > 0 && hello[0] < self.connections.len() && hello[0] != self.machine_id {
            Some(hello[0] as usize)
        } else {
            None
        }
    }

    /// What is to be done about the peer `i` that is to be dialed, given the
    /// URL that its address gave: to dial it, or to stop where there is no
    /// URL.
    pub open spec fn dial(i: int, url: Option<Seq<char>>, announce: Option<u8>) -> ActionView {
        match url {
            Some(url) => ActionView::Dial { machine_id: i, url, announce },
            None => ActionView::Fail(NetworkError::OutboundDialFailure(i as usize)),
        }
    }

    /// What is to be done to go on connecting from the peer `from` on: to dial
    /// the first peer that is yet to be dialed, at the WebSocket URL of its
    /// address, or nothing more.
    pub open spec fn dial_from(self, from: int) -> ActionView {
        let i = self.next_dial(from);
        if i < self.connections.len() {
            Self::dial(i, url_parse(ws_address(self.addresses[i])), self.announces())
        } else {
            ActionView::Done
        }
    }

    /// One step of bringing up connections: the network after `event`, and
    /// what is to be done next.
    ///
    /// A round begins with one poll of the listener, where this machine waits
    /// for a peer. A peer that was accepted gets the slot it announces, if it
    /// announces one. Then the peers that this machine has to dial are
    /// dialed, in order, and each gets its slot once it was dialed.
    pub open spec fn connect_step(self, event: Event) -> (NetworkingView, ActionView) {
        match event {
            Event::Begin => if self.wants_accept() {
                (self, ActionView::Accept)
            } else {
                (self, self.dial_from(0))
            },
            Event::Accepted { hello } => {
                let after = match self.announced(hello@) {
                    Some(i) => self.with_connection(i as int, self.fresh_connection(false)),
                    None => self,
                };
                (after, after.dial_from(0))
            },
            Event::Dialed { machine_id } => {
                let after = self.with_connection(machine_id as int, self.fresh_connection(true));
                (after, after.dial_from(machine_id + 1))
            },
            _ => (self, self.dial_from(0)),
        }
    }

    /// The first peer from `from` on to which there is a connection, or the
    /// number of peers where there is none.
    pub open spec fn next_peer(self, from: int) -> int
        decreases self.connections.len() - from,
    {
        if from < 0 || from >= self.connections.len() {
            self.connections.len() as int
        } else if self.connections[from] is Some {
            from
        } else {
            self.next_peer(from + 1)
        }
    }

    /// The largest turn that a connected peer below `upto` has reported, zero
    /// where there is none.
    pub open spec fn max_observed(self, upto: int) -> nat
        decreases upto,
    {
        if upto <= 0 {
            0
        } else {
            let rest = self.max_observed(upto - 1);
            match self.connections[upto - 1] {
                Some(c) => if c.observed_turns > rest {
                    c.observed_turns
                } else {
                    rest
                },
                None => rest,
            }
        }
    }

    /// The network at the end of a round: on the browser backend a machine
    /// whose peers are more than `CATCH_UP_TURNS` turns ahead of it jumps to
    /// the turn of the peer that is furthest.
    pub open spec fn caught_up(self) -> NetworkingView {
        let furthest = self.max_observed(self.connections.len() as int);
        if self.backend == Backend::Browser && furthest > CATCH_UP_TURNS + self.n_turns {
            NetworkingView { n_turns: furthest, ..self }
        } else {
            self
        }
    }

    /// What is to be done to go on with the peers from `from` on, and the
    /// network after it: all that waits for the first connected peer is
    /// handed out to be sent, if the transport to it is open; where no peer
    /// is left, the round ends.
    pub open spec fn serve_from(self, from: int) -> (NetworkingView, ActionView) {
        let i = self.next_peer(from);
        if i < self.connections.len() {
            let c = self.connections[i].unwrap();
            if c.open {
                (
                    self.with_connection(i, c.flushed()),
                    ActionView::Send { machine_id: i, frames: c.pending_frames() },
                )
            } else {
                (self, ActionView::Send { machine_id: i, frames: Seq::empty() })
            }
        } else {
            (self.caught_up(), ActionView::Done)
        }
    }

    /// What is to be done to read from the connected peer `i`, or to go on
    /// behind it: the peer is read from unless it has sent `STALL_TURNS` turn
    /// markers since this machine last finished a turn.
    pub open spec fn read_from(self, i: int) -> (NetworkingView, ActionView) {
        if self.connections[i].unwrap().ready() {
            (self, ActionView::Receive { machine_id: i })
        } else {
            self.serve_from(i + 1)
        }
    }

    /// Whether `event` can come about in this state of the network: it speaks
    /// of a slot that exists, no peer is dialed in the slot of this machine,
    /// and no frame arrives from a peer that is not to be read from.
    pub open spec fn expects(self, event: Event) -> bool {
        match event {
            Event::Dialed { machine_id } => machine_id < self.connections.len() && machine_id
                != self.machine_id,
            Event::Sent { machine_id, .. } => machine_id < self.connections.len(),
            Event::Received { machine_id, received } => {
                &&& machine_id < self.connections.len()
                &&& received is Frame && self.connections[machine_id as int] is Some
                    ==> self.connections[machine_id as int].unwrap().ready()
            },
            _ => true,
        }
    }

    /// One step of a round of sending and receiving: the network and the
    /// inboxes after `event`, and what is to be done next.
    ///
    /// A round first brings up connections, as `connect_step` says. Then it
    /// takes the connected peers in order. For each, all that waits is handed
    /// out to be sent. If sending fails, the connection is given up; if not,
    /// the peer is read from, frame by frame, until nothing is there, the
    /// peer has to be left alone, or an error ends the connection. A packet
    /// for an actor type without inbox stops the network. Behind the last
    /// peer the round ends as `caught_up` says.
    pub open spec fn step(self, event: Event, boxes: InboxesView) -> (
        NetworkingView,
        InboxesView,
        ActionView,
    ) {
        match event {
            Event::Sent { machine_id, outcome } => if self.connections[machine_id as int] is None {
                (self.serve_from(machine_id + 1).0, boxes, self.serve_from(machine_id + 1).1)
            } else if outcome.error() is Some {
                let after = self.closed(machine_id as int);
                (after.serve_from(machine_id + 1).0, boxes, after.serve_from(machine_id + 1).1)
            } else {
                (self.read_from(machine_id as int).0, boxes, self.read_from(machine_id as int).1)
            },
            Event::Received { machine_id, received } => if self.connections[machine_id as int]
                is None {
                (self.serve_from(machine_id + 1).0, boxes, self.serve_from(machine_id + 1).1)
            } else {
                let (c, delivered, more) = self.connections[machine_id as int].unwrap().taken(
                    received,
                    boxes,
                );
                let after = self.with_connection(machine_id as int, c);
                match more {
                    Ok(true) => (after, delivered, ActionView::Receive { machine_id: machine_id as int }),
                    Ok(false) => (
                        after.serve_from(machine_id + 1).0,
                        delivered,
                        after.serve_from(machine_id + 1).1,
                    ),
                    Err(e) => if e.fatal() {
                        (after, delivered, ActionView::Fail(e))
                    } else {
                        let after = self.closed(machine_id as int);
                        (
                            after.serve_from(machine_id + 1).0,
                            delivered,
                            after.serve_from(machine_id + 1).1,
                        )
                    },
                }
            },
            _ => {
                let (after, action) = self.connect_step(event);
                if action is Done {
                    (after.serve_from(0).0, boxes, after.serve_from(0).1)
                } else {
                    (after, boxes, action)
                }
            },
        }
    }
}

impl NetworkingView {
    /// A message reaches the peers it is meant for, once each, and no other:
    /// on every connection to a peer that the message goes to it is queued
    /// behind all that waited, the same message on each, and every other
    /// connection is left as it was. A broadcast goes to every connected
    /// peer. No connection comes about or goes away.
    pub proof fn lemma_enqueue_fanout(self, to: u8, msg: Seq<u8>, i: int)
        requires
            self.wf(),
            fits_frame(msg),
            0 <= i < self.connections.len(),
        ensures
            self.enqueued(to, msg).wf(),
            self.enqueued(to, msg).connections.len() == self.connections.len(),
            match self.connections[i] {
                Some(c) => {
                    &&& self.enqueued(to, msg).connections[i] is Some
                    &&& if Self::addresses_peer(to, i) {
                        self.enqueued(to, msg).connections[i].unwrap().pending_messages()
                            == c.pending_messages().push(msg)
                    } else {
                        self.enqueued(to, msg).connections[i] == Some(c)
                    }
                },
                None => self.enqueued(to, msg).connections[i] is None,
            },
    {
        assert forall|j: int|
            0 <= j < self.connections.len() && (#[trigger] self.enqueued(to, msg).connections[j])
                is Some implies {
            &&& self.enqueued(to, msg).connections[j].unwrap().wf()
            &&& self.enqueued(to, msg).connections[j].unwrap().cap == self.cap
        } by {
            assert(self.connections[j] is Some);
            self.connections[j].unwrap().lemma_enqueued(msg);
        }
        if self.connections[i] is Some {
            self.connections[i].unwrap().lemma_enqueued(msg);
        }
    }

    /// Nothing is ever queued for this machine itself: its own slot stays
    /// empty whatever is queued, and in a network of one machine queueing
    /// changes nothing at all.
    pub proof fn lemma_never_to_self(self, to: u8, msg: Seq<u8>)
        requires
            self.wf(),
        ensures
            self.enqueued(to, msg).connections[self.machine_id as int] is None,
            self.connections.len() == 1 ==> self.enqueued(to, msg) == self,
    {
        if self.connections.len() == 1 {
            assert(self.enqueued(to, msg).connections =~= self.connections);
        }
    }

    /// The slowest peer sets the lag: the largest excess lag is not negative,
    /// no connected peer lags by more, and where it is positive some
    /// connected peer lags by exactly that much.
    pub proof fn lemma_max_lag(self, upto: int)
        requires
            0 <= upto <= self.connections.len(),
        ensures
            self.max_lag(upto) >= 0,
            forall|i: int|
                0 <= i < upto && (#[trigger] self.connections[i]) is Some ==> self.excess_lag(
                    self.connections[i].unwrap(),
                ) <= self.max_lag(upto),
            self.max_lag(upto) > 0 ==> exists|i: int|
                0 <= i < upto && (#[trigger] self.connections[i]) is Some && self.excess_lag(
                    self.connections[i].unwrap(),
                ) == self.max_lag(upto),
        decreases upto,
    {
        if upto > 0 {
            self.lemma_max_lag(upto - 1);
            if self.max_lag(upto) > 0 {
                if self.max_lag(upto) == self.max_lag(upto - 1) {
                    let i = choose|i: int|
                        0 <= i < upto - 1 && (#[trigger] self.connections[i]) is Some
                            && self.excess_lag(self.connections[i].unwrap()) == self.max_lag(
                            upto - 1,
                        );
                    assert(self.connections[i] is Some);
                } else {
                    assert(self.connections[upto - 1] is Some);
                }
            }
        }
    }

    /// No hint without lag: there is no hint to sleep exactly if no connected
    /// peer has reported a turn that, with the acceptable distance added, is
    /// below the turn of this machine; and a hint is the excess lag of the
    /// slowest peer divided by the sleep ratio.
    pub proof fn lemma_sleep_hint(self)
        ensures
            self.sleep_hint() is None <==> forall|i: int|
                0 <= i < self.connections.len() && (#[trigger] self.connections[i]) is Some
                    ==> self.connections[i].unwrap().observed_turns
                    + self.acceptable_turn_distance >= self.n_turns,
            self.sleep_hint() matches Some(ms) ==> ms == (self.slowest_lag()
                / self.sleep_ratio as int) as u64,
    {
        self.lemma_max_lag(self.connections.len() as int);
        if self.slowest_lag() > 0 {
            let i = choose|i: int|
                0 <= i < self.connections.len() && (#[trigger] self.connections[i]) is Some
                    && self.excess_lag(self.connections[i].unwrap()) == self.slowest_lag();
            assert(self.connections[i].unwrap().observed_turns + self.acceptable_turn_distance
                < self.n_turns);
        }
    }

    /// Going on with the peers never asks to read: it hands out what is to be
    /// sent, or ends the round. It changes no connection but by handing out
    /// what waited on it, and does not turn back the turn of this machine.
    pub proof fn lemma_serve_from(self, from: int)
        requires
            self.wf(),
        ensures
            self.serve_from(from).0.wf(),
            self.serve_from(from).1 is Send || self.serve_from(from).1 is Done,
            self.serve_from(from).0.n_turns >= self.n_turns,
            self.serve_from(from).0.connections.len() == self.connections.len(),
            forall|j: int|
                0 <= j < self.connections.len() ==> match (#[trigger] self.connections[j]) {
                    Some(c) => self.serve_from(from).0.connections[j] == Some(c)
                        || self.serve_from(from).0.connections[j] == Some(c.flushed()),
                    None => self.serve_from(from).0.connections[j] is None,
                },
    {
        self.lemma_next_peer(from);
        let i = self.next_peer(from);
        if i < self.connections.len() {
            let c = self.connections[i].unwrap();
            assert(c.wf());
            assert(decode_batch(Seq::<u8>::empty()) == Some(Seq::<Seq<u8>>::empty()));
            assert(c.flushed().wf());
        }
    }

    /// The next connected peer is a connected peer, where there is one.
    pub proof fn lemma_next_peer(self, from: int)
        ensures
            self.next_peer(from) == self.connections.len() || (0 <= from <= self.next_peer(from)
                < self.connections.len() && self.connections[self.next_peer(from)] is Some),
        decreases self.connections.len() - from,
    {
        if 0 <= from < self.connections.len() && self.connections[from] is None {
            self.lemma_next_peer(from + 1);
        }
    }

    /// A peer that has to be left alone is left alone: whenever a round asks
    /// to read from a peer, there is a connection to that peer and the peer
    /// has sent fewer than `STALL_TURNS` turn markers since this machine last
    /// finished a turn. Finishing a turn sets the count back to zero, so that
    /// every peer may be read from again.
    pub proof fn lemma_turn_stall(self, event: Event, boxes: InboxesView)
        requires
            self.wf(),
            self.expects(event),
        ensures
            self.step(event, boxes).2 matches ActionView::Receive { machine_id } ==> {
                &&& 0 <= machine_id < self.step(event, boxes).0.connections.len()
                &&& self.step(event, boxes).0.connections[machine_id] matches Some(c) && c.ready()
            },
            forall|i: int|
                0 <= i < self.connections.len() && (#[trigger] self.turn_finished().connections[i])
                    is Some ==> self.turn_finished().connections[i].unwrap().ready(),
    {
        match event {
            Event::Sent { machine_id, outcome } => {
                self.lemma_serve_from(machine_id + 1);
                self.closed(machine_id as int).lemma_serve_from(machine_id + 1);
                if self.connections[machine_id as int] is Some {
                    self.lemma_serve_from(machine_id + 1);
                }
            },
            Event::Received { machine_id, received } => {
                self.lemma_serve_from(machine_id + 1);
                self.closed(machine_id as int).lemma_serve_from(machine_id + 1);
                if self.connections[machine_id as int] is Some {
                    let taken = self.connections[machine_id as int].unwrap().taken(received, boxes);
                    self.with_connection(machine_id as int, taken.0).lemma_serve_from(
                        machine_id + 1,
                    );
                }
            },
            _ => {
                let (after, action) = self.connect_step(event);
                self.lemma_connect_step(event);
                after.lemma_serve_from(0);
            },
        }
    }

    /// Bringing up connections keeps the network well formed and asks for
    /// nothing but to accept, to dial, to stop, or nothing more.
    pub proof fn lemma_connect_step(self, event: Event)
        requires
            self.wf(),
            self.expects(event),
        ensures
            self.connect_step(event).0.wf(),
            self.connect_step(event).0.n_turns == self.n_turns,
            !(self.connect_step(event).1 is Receive),
            !(self.connect_step(event).1 is Send),
    {
        assert(decode_batch(Seq::<u8>::empty()) == Some(Seq::<Seq<u8>>::empty()));
        assert(self.fresh_connection(true).wf());
        assert(self.fresh_connection(false).wf());
    }

    /// The turn of this machine never goes back: not in a step of a round,
    /// and not when a turn is finished or a message queued.
    pub proof fn lemma_own_turn_monotone(
        self,
        event: Event,
        boxes: InboxesView,
        to: u8,
        msg: Seq<u8>,
    )
        requires
            self.wf(),
            self.expects(event),
        ensures
            self.step(event, boxes).0.n_turns >= self.n_turns,
            self.connect_step(event).0.n_turns == self.n_turns,
            self.turn_finished().n_turns == self.n_turns + 1,
            self.enqueued(to, msg).n_turns == self.n_turns,
    {
        match event {
            Event::Sent { machine_id, outcome } => {
                self.lemma_serve_from(machine_id + 1);
                self.closed(machine_id as int).lemma_serve_from(machine_id + 1);
            },
            Event::Received { machine_id, received } => {
                self.lemma_serve_from(machine_id + 1);
                self.closed(machine_id as int).lemma_serve_from(machine_id + 1);
                if self.connections[machine_id as int] is Some {
                    let taken = self.connections[machine_id as int].unwrap().taken(received, boxes);
                    self.with_connection(machine_id as int, taken.0).lemma_serve_from(
                        machine_id + 1,
                    );
                }
            },
            _ => {
                self.lemma_connect_step(event);
                self.connect_step(event).0.lemma_serve_from(0);
            },
        }
    }

    /// Finishing a turn and queueing a message leave alone the turns that the
    /// peers have reported, and the connections that there are.
    pub proof fn lemma_observed_turns_kept(self, to: u8, msg: Seq<u8>, j: int)
        requires
            0 <= j < self.connections.len(),
        ensures
            match self.connections[j] {
                Some(c) => {
                    &&& self.turn_finished().connections[j] matches Some(after)
                        && after.observed_turns == c.observed_turns
                    &&& self.enqueued(to, msg).connections[j] matches Some(after)
                        && after.observed_turns == c.observed_turns
                },
                None => {
                    &&& self.turn_finished().connections[j] is None
                    &&& self.enqueued(to, msg).connections[j] is None
                },
            },
    {
    }

    /// The turn that a peer is known to have reached never goes back while
    /// the connection lasts and the peer does not go back itself. If no turn
    /// marker that is taken in carries a turn below the one that its sender
    /// had reported before, then after a step of a round every peer
    /// that keeps its connection has an observed turn no smaller than before.
    pub proof fn lemma_observed_turns_monotone(
        self,
        event: Event,
        boxes: InboxesView,
        j: int,
    )
        requires
            self.wf(),
            self.expects(event),
            0 <= j < self.connections.len(),
            self.connections[j] is Some,
            self.step(event, boxes).0.connections[j] is Some,
            !(event matches Event::Dialed { machine_id } && machine_id == j),
            !(event matches Event::Accepted { hello } && self.announced(hello@) == Some(j as usize)),
            forall|k: int|
                0 <= k < event.arriving(j, boxes).len() && is_turn_marker(
                    #[trigger] event.arriving(j, boxes)[k],
                ) ==> marker_turn(event.arriving(j, boxes)[k])
                    >= self.connections[j].unwrap().observed_turns,
        ensures
            self.step(event, boxes).0.connections[j].unwrap().observed_turns
                >= self.connections[j].unwrap().observed_turns,
    {
        match event {
            Event::Sent { machine_id, outcome } => {
                self.lemma_serve_from(machine_id + 1);
                self.closed(machine_id as int).lemma_serve_from(machine_id + 1);
                assert(self.connections[j] is Some);
                if machine_id != j {
                    assert(self.closed(machine_id as int).connections[j] is Some);
                }
            },
            Event::Received { machine_id, received } => {
                self.lemma_serve_from(machine_id + 1);
                self.closed(machine_id as int).lemma_serve_from(machine_id + 1);
                assert(self.connections[j] is Some);
                if machine_id != j {
                    assert(self.closed(machine_id as int).connections[j] is Some);
                }
                if self.connections[machine_id as int] is Some {
                    let taken = self.connections[machine_id as int].unwrap().taken(received, boxes);
                    let after = self.with_connection(machine_id as int, taken.0);
                    after.lemma_serve_from(machine_id + 1);
                    assert(after.connections[j] is Some);
                    if machine_id == j {
                        match received {
                            Received::Frame(data) => {
                                assert(event.arriving(j, boxes) == taken_in(boxes, data@));
                                lemma_observed_after_monotone(
                                    self.connections[j].unwrap().observed_turns as int,
                                    event.arriving(j, boxes),
                                );
                            },
                            _ => {},
                        }
                    }
                }
            },
            _ => {
                self.lemma_connect_step(event);
                let after = self.connect_step(event).0;
                after.lemma_serve_from(0);
                assert(after.connections[j] == self.connections[j]);
                assert(after.connections[j] is Some);
            },
        }
    }
}

} // verus!
