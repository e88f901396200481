use actor_networking::connection::{Backend, Received, Sent};
use actor_networking::id::{broadcast_machine_id, MachineID, Packet, RawID, ShortTypeId};
use actor_networking::inbox::Inbox;
use actor_networking::networking::Networking;
use actor_networking::protocol::{Action, Event};
use actor_networking::wire::append_turn_marker;
use std::collections::VecDeque;

/// Machines on the server backend, joined by wires that hold what was sent
/// until it is read.
struct Cluster {
    machines: Vec<Networking>,
    inboxes: Vec<Vec<Option<Inbox>>>,
    /// `wires[from][to]`: the frames on their way.
    wires: Vec<Vec<VecDeque<Vec<u8>>>>,
    /// `listeners[at]`: the announcements of the peers that dialed `at`.
    listeners: Vec<VecDeque<Vec<u8>>>,
    /// `dialed[at]`: the URLs that `at` was asked to dial.
    dialed: Vec<Vec<String>>,
}

impl Cluster {
    fn new(addresses: &[&str], n_inboxes: usize) -> Cluster {
        let n = addresses.len();
        let network: Vec<String> = addresses.iter().map(|a| a.to_string()).collect();
        Cluster {
            machines: (0..n)
                .map(|id| Networking::new(id as u8, network.clone(), 65536, 30, 5, Backend::Server))
                .collect(),
            inboxes: (0..n).map(|_| (0..n_inboxes).map(|_| Some(Inbox::new())).collect()).collect(),
            wires: (0..n).map(|_| (0..n).map(|_| VecDeque::new()).collect()).collect(),
            listeners: (0..n).map(|_| VecDeque::new()).collect(),
            dialed: (0..n).map(|_| Vec::new()).collect(),
        }
    }

    fn answer(&mut self, me: usize, action: Action) -> Option<Event> {
        Some(match action {
            Action::Accept => match self.listeners[me].pop_front() {
                Some(hello) => Event::Accepted { hello },
                None => Event::NothingAccepted,
            },
            Action::Dial { machine_id, url, announce } => {
                self.dialed[me].push(url);
                if let Some(id) = announce {
                    self.listeners[machine_id].push_back(vec![id]);
                }
                Event::Dialed { machine_id }
            }
            Action::Send { machine_id, frames } => {
                self.wires[me][machine_id].extend(frames);
                Event::Sent { machine_id, outcome: Sent::Done }
            }
            Action::Receive { machine_id } => Event::Received {
                machine_id,
                received: match self.wires[machine_id][me].pop_front() {
                    Some(frame) => Received::Frame(frame),
                    None => Received::WouldBlock,
                },
            },
            Action::Fail(e) => panic!("machine {} failed: {:?}", me, e),
            Action::Done => return None,
        })
    }

    fn connect(&mut self, me: usize) {
        let mut event = Event::Begin;
        loop {
            let action = self.machines[me].connect(event);
            match self.answer(me, action) {
                Some(next) => event = next,
                None => break,
            }
        }
    }

    fn send_and_receive(&mut self, me: usize) {
        let mut event = Event::Begin;
        loop {
            let mut boxes = std::mem::take(&mut self.inboxes[me]);
            let action = self.machines[me].send_and_receive(event, &mut boxes);
            self.inboxes[me] = boxes;
            match self.answer(me, action) {
                Some(next) => event = next,
                None => break,
            }
        }
    }

    fn delivered(&self, me: usize) -> usize {
        self.inboxes[me].iter().map(|b| b.as_ref().unwrap().len()).sum()
    }
}

fn packet(machine: u8, type_id: u16, body: Vec<u8>) -> Packet {
    Packet {
        recipient_id: RawID { instance_id: 77, type_id: ShortTypeId(type_id), machine: MachineID(machine), version: 1 },
        message: body,
    }
}

fn marker_batch(turn: u32) -> Vec<u8> {
    let mut batch = Vec::new();
    append_turn_marker(&mut batch, turn);
    batch
}

#[test]
fn two_node_loopback() {
    let mut cluster = Cluster::new(&["127.0.0.1:9000", "127.0.0.1:9001"], 4);
    cluster.connect(1);
    cluster.connect(0);
    assert_eq!(cluster.dialed[1], vec![String::from("ws://127.0.0.1:9000/")]);
    assert!(cluster.dialed[0].is_empty());
    assert!(cluster.machines[0].is_connected(1));
    assert!(cluster.machines[1].is_connected(0));
    // type id, recipient and 22 bytes of message: a raw payload of 32 bytes
    cluster.machines[0].enqueue(ShortTypeId(7), packet(1, 3, vec![0x5A; 22]));
    cluster.send_and_receive(0);
    cluster.send_and_receive(1);
    let inbox = cluster.inboxes[1][3].as_ref().unwrap();
    assert_eq!(inbox.len(), 1);
    assert_eq!(inbox.packets[0].len(), 32);
    assert_eq!(&inbox.packets[0][..2], &[0x07, 0x00]);
    assert_eq!(RawID::read_from(&inbox.packets[0][2..]), packet(1, 3, vec![]).recipient_id);
    assert_eq!(&inbox.packets[0][10..], &[0x5A; 22]);
    assert_eq!(cluster.delivered(1), 1);
    assert_eq!(cluster.delivered(0), 0);
}

#[test]
fn connect_is_idempotent() {
    let mut cluster = Cluster::new(&["127.0.0.1:9000", "127.0.0.1:9001"], 1);
    for _ in 0..3 {
        cluster.connect(1);
        cluster.connect(0);
    }
    assert_eq!(cluster.dialed[1].len(), 1);
    assert!(cluster.listeners[0].is_empty());
}

#[test]
fn broadcast() {
    let mut cluster = Cluster::new(&["10.0.0.1:7000", "10.0.0.2:7000", "10.0.0.3:7000"], 2);
    for me in [2, 1, 0, 1, 0] {
        cluster.connect(me);
    }
    for a in 0..3 {
        for b in 0..3 {
            assert_eq!(cluster.machines[a].is_connected(b), a != b);
        }
    }
    cluster.machines[0].enqueue(ShortTypeId(9), packet(broadcast_machine_id().0, 1, vec![1, 2, 3]));
    for me in 0..3 {
        cluster.send_and_receive(me);
    }
    assert_eq!(cluster.delivered(0), 0);
    assert_eq!(cluster.delivered(1), 1);
    assert_eq!(cluster.delivered(2), 1);
    assert_eq!(
        cluster.inboxes[1][1].as_ref().unwrap().packets,
        cluster.inboxes[2][1].as_ref().unwrap().packets
    );
    assert_eq!(
        cluster.inboxes[1][1].as_ref().unwrap().packets[0],
        vec![9, 0, 77, 0, 0, 0, 1, 0, 255, 1, 1, 2, 3]
    );
}

#[test]
fn packets_arrive_in_the_order_in_which_they_were_queued() {
    let mut cluster = Cluster::new(&["a:1", "b:1", "c:1"], 3);
    for me in [2, 1, 0, 1, 0] {
        cluster.connect(me);
    }
    for k in 0..200u16 {
        let to = 1 + (k % 2) as u8;
        let inbox = k % 3;
        cluster.machines[0].enqueue(ShortTypeId(1 + k), packet(to, inbox, vec![k as u8; (k % 50) as usize]));
        if k % 40 == 39 {
            cluster.machines[0].finish_turn();
            cluster.send_and_receive(0);
        }
    }
    for me in 0..3 {
        cluster.send_and_receive(me);
    }
    for me in 1..3usize {
        for inbox in 0..3u16 {
            let expected: Vec<u16> =
                (0..200u16).filter(|k| 1 + (k % 2) as usize == me && k % 3 == inbox).map(|k| 1 + k).collect();
            let got: Vec<u16> = cluster.inboxes[me][inbox as usize]
                .as_ref()
                .unwrap()
                .packets
                .iter()
                .map(|p| u16::from_le_bytes([p[0], p[1]]))
                .collect();
            assert_eq!(got, expected);
            for p in &cluster.inboxes[me][inbox as usize].as_ref().unwrap().packets {
                let to = RawID::read_from(&p[2..]);
                assert_eq!(to.machine, MachineID(me as u8));
                assert_eq!(to.type_id, ShortTypeId(inbox));
            }
        }
    }
    assert_eq!(cluster.machines[1].observed_turns(0), Some(5));
    assert_eq!(cluster.machines[2].observed_turns(0), Some(5));
}

#[test]
fn turn_marker_framing() {
    let mut cluster = Cluster::new(&["a:1", "b:1", "c:1"], 0);
    for me in [2, 1, 0, 1, 0] {
        cluster.connect(me);
    }
    for _ in 0..4 {
        cluster.machines[0].finish_turn();
        cluster.send_and_receive(0);
    }
    cluster.wires[0][1].clear();
    cluster.wires[0][2].clear();
    cluster.machines[0].finish_turn();
    assert_eq!(cluster.machines[0].n_turns(), 5);
    cluster.send_and_receive(0);
    let marker = vec![0x06, 0x00, 0x00, 0x00, 0x00, 0x00, 0x05, 0x00, 0x00, 0x00];
    assert_eq!(cluster.wires[0][1], VecDeque::from(vec![marker.clone()]));
    assert_eq!(cluster.wires[0][2], VecDeque::from(vec![marker]));
}

#[test]
fn lag_hint() {
    let mut net = Networking::new(0, vec![String::from("a:1"), String::from("b:1")], 65536, 10, 2, Backend::Server);
    let mut boxes = vec![];
    assert!(matches!(net.connect(Event::Begin), Action::Accept));
    assert!(matches!(net.connect(Event::Accepted { hello: vec![1] }), Action::Done));
    for _ in 0..100 {
        net.finish_turn();
    }
    assert_eq!(net.n_turns(), 100);
    assert!(matches!(net.send_and_receive(Event::Begin, &mut boxes), Action::Send { machine_id: 1, .. }));
    assert!(matches!(
        net.send_and_receive(Event::Sent { machine_id: 1, outcome: Sent::Done }, &mut boxes),
        Action::Receive { machine_id: 1 }
    ));
    assert!(matches!(
        net.send_and_receive(
            Event::Received { machine_id: 1, received: Received::Frame(marker_batch(80)) },
            &mut boxes
        ),
        Action::Receive { machine_id: 1 }
    ));
    assert!(matches!(
        net.send_and_receive(Event::Received { machine_id: 1, received: Received::WouldBlock }, &mut boxes),
        Action::Done
    ));
    assert_eq!(net.observed_turns(1), Some(80));
    assert_eq!(net.finish_turn(), Some(5));
    assert_eq!(net.n_turns(), 101);
}

#[test]
fn receive_stall_ends_the_reading_for_the_turn() {
    let mut cluster = Cluster::new(&["a:1", "b:1"], 0);
    cluster.connect(1);
    cluster.connect(0);
    for _ in 0..12 {
        cluster.machines[1].finish_turn();
        cluster.send_and_receive(1);
    }
    assert_eq!(cluster.wires[1][0].len(), 12);
    cluster.send_and_receive(0);
    assert_eq!(cluster.machines[0].observed_turns(1), Some(10));
    assert_eq!(cluster.wires[1][0].len(), 2);
    cluster.send_and_receive(0);
    assert_eq!(cluster.machines[0].observed_turns(1), Some(10));
    assert_eq!(cluster.wires[1][0].len(), 2);
    cluster.machines[0].finish_turn();
    cluster.send_and_receive(0);
    assert_eq!(cluster.machines[0].observed_turns(1), Some(12));
    assert!(cluster.wires[1][0].is_empty());
}

#[test]
fn browser_clock_jump() {
    let mut net = Networking::new(
        1,
        vec![String::from("server.example:9000"), String::from("browser.invalid:1")],
        65536,
        30,
        5,
        Backend::Browser,
    );
    match net.connect(Event::Begin) {
        Action::Dial { machine_id, url, announce } => {
            assert_eq!((machine_id, announce), (0, None));
            assert_eq!(url, "ws://server.example:9000/");
        }
        other => panic!("unexpected {:?}", other),
    }
    assert!(matches!(net.connect(Event::Dialed { machine_id: 0 }), Action::Done));
    net.set_open(0, true);
    assert_eq!(net.n_turns(), 0);
    let mut boxes = vec![];
    match net.send_and_receive(Event::Begin, &mut boxes) {
        Action::Send { machine_id, frames } => {
            assert_eq!(machine_id, 0);
            assert_eq!(frames, vec![vec![1]]);
        }
        other => panic!("unexpected {:?}", other),
    }
    assert!(matches!(
        net.send_and_receive(Event::Sent { machine_id: 0, outcome: Sent::Done }, &mut boxes),
        Action::Receive { machine_id: 0 }
    ));
    // the first frame of the peer is dropped, whatever it holds
    assert!(matches!(
        net.send_and_receive(Event::Received { machine_id: 0, received: Received::Frame(vec![0]) }, &mut boxes),
        Action::Receive { machine_id: 0 }
    ));
    assert!(matches!(
        net.send_and_receive(
            Event::Received { machine_id: 0, received: Received::Frame(marker_batch(5000)) },
            &mut boxes
        ),
        Action::Receive { machine_id: 0 }
    ));
    assert_eq!(net.n_turns(), 0);
    assert!(matches!(
        net.send_and_receive(Event::Received { machine_id: 0, received: Received::WouldBlock }, &mut boxes),
        Action::Done
    ));
    assert_eq!(net.n_turns(), 5000);
    assert_eq!(net.observed_turns(0), Some(5000));
}
