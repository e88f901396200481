//! The network as one machine keeps it: its peers, the messages that wait to
//! be sent to them, and the turn that each is known to have reached. The
//! sockets are the caller's: in every round the network says what is to be
//! done with them and is told what came of it.
use crate::connection::{bytes_of, Backend, Connection, ConnectionView};
use crate::error::NetworkError;
use crate::id::{MachineID, Packet, ShortTypeId, BROADCAST_MACHINE};
use crate::inbox::{inboxes_view, Inbox};
use crate::protocol::{Action, Event, NetworkingView, CATCH_UP_TURNS};
use crate::text::{push_decimal, text_of, ws_url};
use crate::wire::{fits_frame, message, turn_marker, u32_le, write_u32_le};
use vstd::prelude::*;

verus! {

/// The networking state of one machine.
#[derive(Debug)]
pub struct Networking {
    machine_id: MachineID,
    batch_message_bytes: usize,
    n_turns: usize,
    acceptable_turn_distance: usize,
    turn_sleep_distance_ratio: usize,
    network: Vec<String>,
    network_connections: Vec<Option<Connection>>,
    backend: Backend,
}

/// The text of each of `strings`.
pub open spec fn texts_of(strings: Seq<String>) -> Seq<Seq<char>> {
    strings.map_values(|s: String| s@)
}

/// What each of `slots` holds, to the protocol.
pub open spec fn views_of(slots: Seq<Option<Connection>>) -> Seq<Option<ConnectionView>> {
    slots.map_values(
        |slot: Option<Connection>|
            match slot {
                Some(c) => Some(c@),
                None => None,
            },
    )
}

impl View for Networking {
    type V = NetworkingView;

    closed spec fn view(&self) -> NetworkingView {
        NetworkingView {
            machine_id: self.machine_id.0,
            n_turns: self.n_turns as nat,
            cap: self.batch_message_bytes as nat,
            acceptable_turn_distance: self.acceptable_turn_distance as nat,
            sleep_ratio: self.turn_sleep_distance_ratio as nat,
            addresses: texts_of(self.network@),
            connections: views_of(self.network_connections@),
            backend: self.backend,
        }
    }
}

impl Networking {
    /// The network of the machine `machine_id` among the peers at the
    /// addresses `network`, this machine's own among them. No peer is
    /// connected yet and the machine is in turn zero.
    pub fn new(
        machine_id: u8,
        network: Vec<String>,
        batch_message_bytes: usize,
        acceptable_turn_distance: usize,
        turn_sleep_distance_ratio: usize,
        backend: Backend,
    ) -> (networking: Networking)
        requires
            machine_id < network@.len(),
        ensures
            networking@.wf(),
            networking@ == (NetworkingView {
                machine_id,
                n_turns: 0,
                cap: batch_message_bytes as nat,
                acceptable_turn_distance: acceptable_turn_distance as nat,
                sleep_ratio: turn_sleep_distance_ratio as nat,
                addresses: texts_of(network@),
                connections: Seq::new(network@.len(), |i: int| None::<ConnectionView>),
                backend,
            }),
    {
        let mut network_connections: Vec<Option<Connection>> = Vec::new();
        let mut i: usize = 0;
        while i < network.len()
            invariant
                i <= network@.len(),
                network_connections@.len() == i,
                forall|j: int| 0 <= j < i ==> (#[trigger] network_connections@[j]) is None,
            decreases network@.len() - i,
        {
            network_connections.push(None);
            i = i + 1;
        }
        let networking = Networking {
            machine_id: MachineID(machine_id),
            batch_message_bytes,
            n_turns: 0,
            acceptable_turn_distance,
            turn_sleep_distance_ratio,
            network,
            network_connections,
            backend,
        };
        assert(networking@.connections =~= Seq::new(
            network@.len(),
            |i: int| None::<ConnectionView>,
        ));
        networking
    }

    /// The index of this machine within the network of peers.
    pub fn machine_id(&self) -> (id: MachineID)
        ensures
            id == MachineID(self@.machine_id),
    {
        self.machine_id
    }

    /// The turn that this machine is in: it tells whether the machine lags
    /// behind its peers or runs ahead of them.
    pub fn n_turns(&self) -> (turns: usize)
        ensures
            turns == self@.n_turns,
    {
        self.n_turns
    }

    /// How many peers the network has, this machine included.
    pub fn n_peers(&self) -> (n: usize)
        ensures
            n == self@.connections.len(),
    {
        self.network_connections.len()
    }

    /// Whether there is a connection to the peer `machine_id`.
    pub fn is_connected(&self, machine_id: usize) -> (connected: bool)
        ensures
            connected == (machine_id < self@.connections.len()
                && self@.connections[machine_id as int] is Some),
    {
        machine_id < self.network_connections.len() && self.network_connections[machine_id].is_some()
    }

    /// The largest turn that the peer `machine_id` has reported, where there
    /// is a connection to it.
    pub fn observed_turns(&self, machine_id: usize) -> (turns: Option<usize>)
        ensures
            turns == (if machine_id < self@.connections.len() {
                match self@.connections[machine_id as int] {
                    Some(c) => Some(c.observed_turns as usize),
                    None => None,
                }
            } else {
                None
            }),
    {
        if machine_id < self.network_connections.len() {
            match &self.network_connections[machine_id] {
                Some(c) => Some(c.observed_turns()),
                None => None,
            }
        } else {
            None
        }
    }

    /// Queues `msg`, of type `type_id`, on the connection to the peer `i`, if
    /// there is one.
    fn enqueue_to(&mut self, i: usize, type_id: ShortTypeId, payload: &[u8])
        requires
            old(self)@.wf(),
            i < old(self)@.connections.len(),
            fits_frame(message(type_id.0, payload@)),
        ensures
            final(self)@.wf(),
            final(self)@ == (NetworkingView {
                connections: old(self)@.connections.update(
                    i as int,
                    match old(self)@.connections[i as int] {
                        Some(c) => Some(c.enqueued(message(type_id.0, payload@))),
                        None => None,
                    },
                ),
                ..old(self)@
            }),
    {
        match &mut self.network_connections[i] {
            Some(connection) => {
                connection.enqueue_in_batch(type_id, payload);
            },
            None => {},
        }
        proof {
            assert(self@.connections =~= old(self)@.connections.update(
                i as int,
                match old(self)@.connections[i as int] {
                    Some(c) => Some(c.enqueued(message(type_id.0, payload@))),
                    None => None,
                },
            ));
        }
    }

    /// Queues a packet for its recipient's machine: for every connected peer,
    /// where the recipient's machine is the broadcast id, and else for that
    /// machine, if there is a connection to it. The message that is queued
    /// is the type id followed by the packet.
    ///
    /// Nothing is ever queued for this machine itself, and nothing at all in a
    /// network of one.
    pub fn enqueue(&mut self, message_type_id: ShortTypeId, packet: Packet)
        requires
            old(self)@.wf(),
            message_type_id.0 != 0,
            fits_frame(message(message_type_id.0, packet.wire())),
            packet.recipient_id.machine.0 == BROADCAST_MACHINE || packet.recipient_id.machine.0
                < old(self)@.connections.len(),
        ensures
            final(self)@.wf(),
            final(self)@ == old(self)@.enqueued(
                packet.recipient_id.machine.0,
                message(message_type_id.0, packet.wire()),
            ),
    {
        let ghost msg = message(message_type_id.0, packet.wire());
        let to: u8 = packet.recipient_id.machine.0;
        if self.network.len() == 1 {
            assert(self@.connections =~= old(self)@.enqueued(to, msg).connections);
            return ;
        }
        let mut payload: Vec<u8> = Vec::new();
        packet.recipient_id.write_to(&mut payload);
        let mut k: usize = 0;
        while k < packet.message.len()
            invariant
                k <= packet.message@.len(),
                payload@ == packet.recipient_id.wire() + packet.message@.subrange(0, k as int),
            decreases packet.message@.len() - k,
        {
            payload.push(packet.message[k]);
            assert(packet.message@.subrange(0, k + 1) =~= packet.message@.subrange(0, k as int).push(
                packet.message@[k as int],
            ));
            k = k + 1;
        }
        assert(packet.message@.subrange(0, k as int) =~= packet.message@);
        assert(payload@ == packet.wire());
        if to == BROADCAST_MACHINE {
            let n: usize = self.network_connections.len();
            let mut i: usize = 0;
            while i < n
                invariant
                    i <= n,
                    n == old(self)@.connections.len(),
                    to == BROADCAST_MACHINE,
                    msg == message(message_type_id.0, payload@),
                    fits_frame(msg),
                    self@.wf(),
                    self@ == old(self)@.with_connections(self@.connections),
                    self@.connections == Seq::new(
                        n as nat,
                        |j: int|
                            if j < i {
                                old(self)@.enqueued(to, msg).connections[j]
                            } else {
                                old(self)@.connections[j]
                            },
                    ),
                decreases n - i,
            {
                self.enqueue_to(i, message_type_id, payload.as_slice());
                proof {
                    assert(self@.connections =~= Seq::new(
                        n as nat,
                        |j: int|
                            if j < i + 1 {
                                old(self)@.enqueued(to, msg).connections[j]
                            } else {
                                old(self)@.connections[j]
                            },
                    ));
                }
                i = i + 1;
            }
            assert(self@.connections =~= old(self)@.enqueued(to, msg).connections);
        } else {
            proof {
                assert(old(self)@.connections =~= Seq::new(
                    old(self)@.connections.len(),
                    |j: int| old(self)@.connections[j],
                ));
            }
            self.enqueue_to(to as usize, message_type_id, payload.as_slice());
            assert(self@.connections =~= old(self)@.enqueued(to, msg).connections);
        }
    }

    /// By how many turns the slowest connected peer lags behind this machine,
    /// beyond what is acceptable; zero where no peer does.
    pub fn slowest_lag(&self) -> (lag: usize)
        ensures
            lag == self@.slowest_lag(),
    {
        let n: usize = self.network_connections.len();
        let mut lag: usize = 0;
        let mut i: usize = 0;
        while i < n
            invariant
                i <= n,
                n == self@.connections.len(),
                lag == self@.max_lag(i as int),
            decreases n - i,
        {
            match &self.network_connections[i] {
                Some(connection) => {
                    let observed: usize = connection.observed_turns();
                    if self.acceptable_turn_distance < self.n_turns && observed < self.n_turns
                        - self.acceptable_turn_distance {
                        let behind: usize = self.n_turns - self.acceptable_turn_distance - observed;
                        if behind > lag {
                            lag = behind;
                        }
                    }
                },
                None => {},
            }
            i = i + 1;
        }
        lag
    }

    /// Finishes the turn of this machine and says for how long the machine
    /// should sleep to let its peers catch up.
    ///
    /// The hint is taken first, from the turn that ends: a peer lags where the
    /// turn it has reported, plus the acceptable distance, is below the turn
    /// of this machine; the hint is the excess lag of the slowest peer divided
    /// by the sleep ratio, in milliseconds, and `None` where no peer lags.
    /// Then the machine enters its next turn, queues a marker for that turn
    /// for every connected peer, and starts counting the peers' markers anew.
    pub fn finish_turn(&mut self) -> (should_sleep: Option<u64>)
        requires
            old(self)@.wf(),
            old(self)@.n_turns < usize::MAX,
            old(self)@.slowest_lag() > 0 ==> old(self)@.sleep_ratio > 0,
        ensures
            final(self)@.wf(),
            should_sleep == old(self)@.sleep_hint(),
            final(self)@ == old(self)@.turn_finished(),
    {
        let n: usize = self.network_connections.len();
        let lag: usize = self.slowest_lag();
        let should_sleep: Option<u64> = if lag > 0 {
            Some((lag / self.turn_sleep_distance_ratio) as u64)
        } else {
            None
        };
        self.n_turns = self.n_turns + 1;
        let turn: u32 = (self.n_turns as u64 % 0x1_0000_0000u64) as u32;
        let mut marker: Vec<u8> = Vec::new();
        write_u32_le(&mut marker, turn);
        let zero: ShortTypeId = ShortTypeId(0);
        proof {
            assert(marker@ =~= u32_le(turn));
            assert(message(0, marker@) == turn_marker(turn));
        }
        let mut i: usize = 0;
        while i < n
            invariant
                i <= n,
                n == old(self)@.connections.len(),
                zero.0 == 0,
                marker@ == u32_le(turn),
                turn == NetworkingView::wire_turn(old(self)@.n_turns + 1),
                old(self)@.wf(),
                self@.connections.len() == n,
                forall|j: int|
                    0 <= j < n && (#[trigger] self@.connections[j]) is Some ==> {
                        &&& self@.connections[j].unwrap().wf()
                        &&& self@.connections[j].unwrap().cap == self@.cap
                    },
                self@ == old(self)@.turn_finished().with_connections(self@.connections),
                self@.connections == Seq::new(
                    n as nat,
                    |j: int|
                        if j < i {
                            old(self)@.turn_finished().connections[j]
                        } else {
                            old(self)@.connections[j]
                        },
                ),
            decreases n - i,
        {
            let ghost before = self@;
            proof {
                assert(before.connections[i as int] == old(self)@.connections[i as int]);
            }
            match &mut self.network_connections[i] {
                Some(connection) => {
                    connection.enqueue_in_batch(zero, marker.as_slice());
                    connection.reset_turns_since_own_turn();
                },
                None => {},
            }
            proof {
                assert(self@.connections =~= before.connections.update(
                    i as int,
                    match before.connections[i as int] {
                        Some(c) => Some(
                            ConnectionView {
                                turns_since_own_turn: 0,
                                ..c.enqueued(turn_marker(turn))
                            },
                        ),
                        None => None,
                    },
                ));
                if before.connections[i as int] is Some {
                    before.connections[i as int].unwrap().lemma_enqueued(turn_marker(turn));
                }
                assert(self@.connections =~= Seq::new(
                    n as nat,
                    |j: int|
                        if j < i + 1 {
                            old(self)@.turn_finished().connections[j]
                        } else {
                            old(self)@.connections[j]
                        },
                ));
            }
            i = i + 1;
        }
        assert(self@.connections =~= old(self)@.turn_finished().connections);
        should_sleep
    }

    /// The report on the turns of all peers, as this machine knows them: for
    /// each slot, in order, the slot and the turn, as `debug_line` says, with
    /// a comma and a line break between two lines.
    pub fn debug_all_n_turns(&self) -> (report: String)
        ensures
            report@ == self@.debug_text(self@.connections.len() as int),
    {
        let mut report: String = String::new();
        let n: usize = self.network_connections.len();
        let mut i: usize = 0;
        while i < n
            invariant
                i <= n,
                n == self@.connections.len(),
                report@ == self@.debug_text(i as int),
            decreases n - i,
        {
            if i > 0 {
                report.append(",\n");
            }
            push_decimal(&mut report, i);
            report.append(": ");
            if i == self.machine_id.0 as usize {
                push_decimal(&mut report, self.n_turns);
            } else {
                match &self.network_connections[i] {
                    Some(connection) => {
                        push_decimal(&mut report, connection.observed_turns());
                    },
                    None => {
                        report.append("-1");
                    },
                }
            }
            proof {
                let line = self@.debug_line(i as int);
                if i == 0 {
                    assert(report@ =~= line);
                } else {
                    assert(report@ =~= self@.debug_text(i as int) + ",\n"@ + line);
                }
            }
            i = i + 1;
        }
        report
    }

    /// The peer that announces itself with `hello`, the first binary frame of
    /// a peer that connected: the machine whose id is the first byte, if that
    /// is another machine of the network.
    pub fn announced_peer(&self, hello: &[u8]) -> (peer: Option<usize>)
        ensures
            peer == self@.announced(hello@),
    {
        if hello.len() > 0 && (hello[0] as usize) < self.network_connections.len() && hello[0]
            != self.machine_id.0 {
            Some(hello[0] as usize)
        } else {
            None
        }
    }

    /// Records whether the transport to the peer `machine_id` is ready to take
    /// frames, where there is a connection to that peer.
    pub fn set_open(&mut self, machine_id: usize, open: bool)
        requires
            old(self)@.wf(),
        ensures
            final(self)@.wf(),
            final(self)@ == old(self)@.opened(machine_id as int, open),
    {
        if machine_id >= self.network_connections.len() {
            return ;
        }
        match &mut self.network_connections[machine_id] {
            Some(connection) => {
                connection.set_open(open);
            },
            None => {},
        }
        proof {
            assert(self@.connections =~= old(self)@.opened(machine_id as int, open).connections);
        }
    }

    /// Puts a fresh connection in the slot of the peer `i`.
    fn install(&mut self, i: usize, dialed: bool)
        requires
            old(self)@.wf(),
            i < old(self)@.connections.len(),
            i != old(self)@.machine_id,
        ensures
            final(self)@.wf(),
            final(self)@ == old(self)@.with_connection(
                i as int,
                old(self)@.fresh_connection(dialed),
            ),
    {
        let mut connection = Connection::new(self.backend, self.batch_message_bytes);
        match self.backend {
            Backend::Browser => {
                if dialed {
                    connection.announce(self.machine_id.0);
                }
            },
            Backend::Server => {},
        }
        self.network_connections[i] = Some(connection);
        proof {
            assert(self@.connections =~= old(self)@.connections.update(
                i as int,
                Some(old(self)@.fresh_connection(dialed)),
            ));
        }
    }

    /// Gives up the connection to the peer `i`.
    fn close(&mut self, i: usize)
        requires
            old(self)@.wf(),
            i < old(self)@.connections.len(),
        ensures
            final(self)@.wf(),
            final(self)@ == old(self)@.closed(i as int),
    {
        self.network_connections[i] = None;
        proof {
            assert(self@.connections =~= old(self)@.connections.update(i as int, None));
        }
    }

    /// Whether a peer with a larger id has no connection.
    fn wants_accept(&self) -> (wanted: bool)
        requires
            self@.wf(),
        ensures
            wanted == self@.wants_accept(),
    {
        match self.backend {
            Backend::Browser => {
                return false;
            },
            Backend::Server => {},
        }
        let n: usize = self.network_connections.len();
        let mut i: usize = self.machine_id.0 as usize + 1;
        while i < n
            invariant
                self@.backend == Backend::Server,
                self@.machine_id < i <= n,
                n == self@.connections.len(),
                forall|j: int| self@.machine_id < j < i ==> (#[trigger] self@.connections[j]) is Some,
            decreases n - i,
        {
            if self.network_connections[i].is_none() {
                assert(self@.connections[i as int] is None);
                return true;
            }
            i = i + 1;
        }
        false
    }

    /// What is to be done to go on connecting from the peer `from` on.
    fn dial_from(&self, from: usize) -> (action: Action)
        requires
            self@.wf(),
        ensures
            action@ == self@.dial_from(from as int),
    {
        let n: usize = self.network_connections.len();
        let me: usize = self.machine_id.0 as usize;
        let mut i: usize = from;
        while i < n
            invariant
                self@.wf(),
                from <= i,
                n == self@.connections.len(),
                n == self.network@.len(),
                me == self@.machine_id,
                self@.next_dial(from as int) == self@.next_dial(i as int),
            decreases n - i,
        {
            let mine: bool = match self.backend {
                Backend::Server => i < me,
                Backend::Browser => i != me,
            };
            if mine && self.network_connections[i].is_none() {
                let announce: Option<u8> = match self.backend {
                    Backend::Server => Some(self.machine_id.0),
                    Backend::Browser => None,
                };
                assert(self@.addresses[i as int] == self.network@[i as int]@);
                return dial_action(i, ws_url(self.network[i].as_str()), announce);
            }
            i = i + 1;
        }
        Action::Done
    }

    /// Brings up connections, one step at a time, as `connect_step` says:
    /// takes in what came of the last action and says what is to be done
    /// next, `Done` once every peer that is to be dialed has been dialed. The
    /// first call of a round takes `Begin`.
    pub fn connect(&mut self, event: Event) -> (action: Action)
        requires
            old(self)@.wf(),
            old(self)@.expects(event),
            event.connecting(),
        ensures
            final(self)@.wf(),
            (final(self)@, action@) == old(self)@.connect_step(event),
            final(self)@.n_turns == old(self)@.n_turns,
    {
        match event {
            Event::Begin => {
                if self.wants_accept() {
                    Action::Accept
                } else {
                    self.dial_from(0)
                }
            },
            Event::Accepted { hello } => {
                match self.announced_peer(hello.as_slice()) {
                    Some(i) => {
                        self.install(i, false);
                    },
                    None => {},
                }
                self.dial_from(0)
            },
            Event::Dialed { machine_id } => {
                let n: usize = self.network_connections.len();
                assert(machine_id < n);
                self.install(machine_id, true);
                self.dial_from(machine_id + 1)
            },
            _ => self.dial_from(0),
        }
    }

    /// Jumps forward to the peers at the end of a round, as `caught_up` says.
    fn catch_up(&mut self)
        requires
            old(self)@.wf(),
        ensures
            final(self)@.wf(),
            final(self)@ == old(self)@.caught_up(),
            final(self)@.n_turns >= old(self)@.n_turns,
    {
        match self.backend {
            Backend::Server => {
                return ;
            },
            Backend::Browser => {},
        }
        let n: usize = self.network_connections.len();
        let mut furthest: usize = 0;
        let mut i: usize = 0;
        while i < n
            invariant
                i <= n,
                n == self@.connections.len(),
                furthest == self@.max_observed(i as int),
            decreases n - i,
        {
            match &self.network_connections[i] {
                Some(connection) => {
                    let observed: usize = connection.observed_turns();
                    if observed > furthest {
                        furthest = observed;
                    }
                },
                None => {},
            }
            i = i + 1;
        }
        if furthest > CATCH_UP_TURNS && furthest - CATCH_UP_TURNS > self.n_turns {
            self.n_turns = furthest;
        }
    }

    /// Goes on with the peers from `from` on, as `serve_from` says.
    fn serve_from(&mut self, from: usize) -> (action: Action)
        requires
            old(self)@.wf(),
        ensures
            final(self)@.wf(),
            (final(self)@, action@) == old(self)@.serve_from(from as int),
            final(self)@.n_turns >= old(self)@.n_turns,
    {
        let n: usize = self.network_connections.len();
        let mut i: usize = from;
        while i < n
            invariant
                self@.wf(),
                from <= i,
                n == self@.connections.len(),
                self@.next_peer(from as int) == self@.next_peer(i as int),
                *self == *old(self),
            decreases n - i,
        {
            if self.network_connections[i].is_some() {
                assert(self@.next_peer(from as int) == i);
                let mut frames: Vec<Vec<u8>> = Vec::new();
                match &mut self.network_connections[i] {
                    Some(connection) => {
                        frames = connection.try_send_pending();
                    },
                    None => {},
                }
                proof {
                    let c = old(self)@.connections[i as int].unwrap();
                    if c.open {
                        assert(self@.connections =~= old(self)@.connections.update(
                            i as int,
                            Some(c.flushed()),
                        ));
                    } else {
                        assert(self@.connections =~= old(self)@.connections);
                        assert(bytes_of(frames@) =~= Seq::<Seq<u8>>::empty());
                    }
                }
                return Action::Send { machine_id: i, frames };
            }
            i = i + 1;
        }
        self.catch_up();
        Action::Done
    }

    /// Reads from the connected peer `i`, or goes on behind it, as `read_from`
    /// says.
    fn read_from(&mut self, i: usize) -> (action: Action)
        requires
            old(self)@.wf(),
            i < old(self)@.connections.len(),
            old(self)@.connections[i as int] is Some,
        ensures
            final(self)@.wf(),
            (final(self)@, action@) == old(self)@.read_from(i as int),
            final(self)@.n_turns >= old(self)@.n_turns,
    {
        let ready: bool = match &self.network_connections[i] {
            Some(connection) => connection.ready_to_receive(),
            None => false,
        };
        if ready {
            Action::Receive { machine_id: i }
        } else {
            let n: usize = self.network_connections.len();
            assert(i < n);
            self.serve_from(i + 1)
        }
    }

    /// Sends what waits to be sent and takes in what the peers sent, one step
    /// at a time, as `step` says: takes in what came of the last action and
    /// says what is to be done next, `Done` once the round is over. The first
    /// call of a round takes `Begin`.
    ///
    /// The turn of this machine never goes back.
    pub fn send_and_receive(&mut self, event: Event, inboxes: &mut Vec<Option<Inbox>>) -> (action:
        Action)
        requires
            old(self)@.wf(),
            old(self)@.expects(event),
        ensures
            final(self)@.wf(),
            (final(self)@, inboxes_view(final(inboxes)@), action@) == old(self)@.step(
                event,
                inboxes_view(old(inboxes)@),
            ),
            final(self)@.n_turns >= old(self)@.n_turns,
    {
        match event {
            Event::Sent { machine_id, outcome } => {
                let n: usize = self.network_connections.len();
                assert(machine_id < n);
                if self.network_connections[machine_id].is_none() {
                    self.serve_from(machine_id + 1)
                } else if outcome.as_error().is_some() {
                    self.close(machine_id);
                    self.serve_from(machine_id + 1)
                } else {
                    self.read_from(machine_id)
                }
            },
            Event::Received { machine_id, received } => {
                let n: usize = self.network_connections.len();
                assert(machine_id < n);
                if self.network_connections[machine_id].is_none() {
                    return self.serve_from(machine_id + 1);
                }
                let mut more: Result<bool, NetworkError> = Ok(false);
                match &mut self.network_connections[machine_id] {
                    Some(connection) => {
                        more = connection.try_receive(received, inboxes);
                    },
                    None => {},
                }
                proof {
                    let taken = old(self)@.connections[machine_id as int].unwrap().taken(
                        received,
                        inboxes_view(old(inboxes)@),
                    );
                    assert(self@.connections =~= old(self)@.connections.update(
                        machine_id as int,
                        Some(taken.0),
                    ));
                }
                match more {
                    Ok(true) => Action::Receive { machine_id },
                    Ok(false) => self.serve_from(machine_id + 1),
                    Err(e) => {
                        if e.is_fatal() {
                            Action::Fail(e)
                        } else {
                            self.close(machine_id);
                            proof {
                                assert(self@.connections =~= old(self)@.closed(
                                    machine_id as int,
                                ).connections);
                            }
                            self.serve_from(machine_id + 1)
                        }
                    },
                }
            },
            _ => {
                let action = self.connect(event);
                match action {
                    Action::Done => self.serve_from(0),
                    _ => action,
                }
            },
        }
    }
}

/// What is to be done about the peer `machine_id` that is to be dialed,
/// given the URL that its address gave: to dial it there, or to stop where
/// there is no URL.
pub fn dial_action(machine_id: usize, url: Option<String>, announce: Option<u8>) -> (action: Action)
    ensures
        action@ == NetworkingView::dial(machine_id as int, text_of(url), announce),
{
    match url {
        Some(url) => Action::Dial { machine_id, url, announce },
        None => Action::Fail(NetworkError::OutboundDialFailure(machine_id)),
    }
}

} // verus!
