use actor_networking::connection::{Backend, Connection, Received, Sent};
use actor_networking::error::NetworkError;
use actor_networking::id::{MachineID, RawID, ShortTypeId};
use actor_networking::inbox::Inbox;
use actor_networking::wire::{append_message, append_turn_marker, split_batch};

fn marker_batch(turn: u32) -> Vec<u8> {
    let mut batch = Vec::new();
    append_turn_marker(&mut batch, turn);
    batch
}

fn packet_batch(type_id: u16, to_type: u16, body: &[u8]) -> Vec<u8> {
    let to = RawID { instance_id: 1, type_id: ShortTypeId(to_type), machine: MachineID(0), version: 0 };
    let mut payload = Vec::new();
    to.write_to(&mut payload);
    payload.extend_from_slice(body);
    let mut batch = Vec::new();
    append_message(&mut batch, type_id, &payload);
    batch
}

#[test]
fn server_connection_starts_open_and_idle() {
    let mut c = Connection::new(Backend::Server, 64);
    assert!(c.is_open());
    assert!(c.ready_to_receive());
    assert_eq!(c.observed_turns(), 0);
    assert_eq!(c.turns_since_own_turn(), 0);
    assert_eq!(c.try_send_pending(), Vec::<Vec<u8>>::new());
}

#[test]
fn browser_connection_starts_closed() {
    let c = Connection::new(Backend::Browser, 64);
    assert!(!c.is_open());
    assert!(c.ready_to_receive());
}

#[test]
fn messages_share_a_batch_while_it_is_below_the_cap_less_the_message() {
    let mut c = Connection::new(Backend::Server, 32);
    for k in 0..4u8 {
        c.enqueue_in_batch(ShortTypeId(1), &[k; 4]);
    }
    let frames = c.try_send_pending();
    assert_eq!(frames.len(), 2);
    assert_eq!(frames[0].len(), 30);
    assert_eq!(frames[1], vec![6, 0, 0, 0, 1, 0, 3, 3, 3, 3]);
    assert_eq!(split_batch(&frames[0]), Some(vec![(4, 10), (14, 20), (24, 30)]));
}

#[test]
fn batch_at_exactly_the_cap_less_the_message_is_not_used() {
    let mut c = Connection::new(Backend::Server, 16);
    c.enqueue_in_batch(ShortTypeId(1), &[1; 4]);
    c.enqueue_in_batch(ShortTypeId(2), &[2; 4]);
    let frames = c.try_send_pending();
    assert_eq!(frames, vec![vec![6, 0, 0, 0, 1, 0, 1, 1, 1, 1], vec![6, 0, 0, 0, 2, 0, 2, 2, 2, 2]]);
}

#[test]
fn batch_one_below_the_limit_is_used() {
    let mut c = Connection::new(Backend::Server, 17);
    c.enqueue_in_batch(ShortTypeId(1), &[1; 4]);
    c.enqueue_in_batch(ShortTypeId(2), &[2; 4]);
    let frames = c.try_send_pending();
    assert_eq!(frames.len(), 1);
    assert_eq!(frames[0].len(), 20);
}

#[test]
fn message_beyond_the_cap_gets_a_batch_of_its_own_and_no_empty_batch_is_sent() {
    let mut c = Connection::new(Backend::Server, 4);
    c.enqueue_in_batch(ShortTypeId(9), &[5; 10]);
    c.enqueue_in_batch(ShortTypeId(9), &[6; 10]);
    let frames = c.try_send_pending();
    assert_eq!(frames.len(), 2);
    assert_eq!(frames[0].len(), 16);
    assert_eq!(frames[1].len(), 16);
    assert_eq!(&frames[0][..6], &[12, 0, 0, 0, 9, 0]);
}

#[test]
fn every_batch_stays_within_cap_plus_one_message() {
    let cap = 50usize;
    let mut c = Connection::new(Backend::Server, cap);
    let mut largest = 0;
    for k in 0..40usize {
        let payload = vec![k as u8; (k * 7) % 23];
        largest = largest.max(4 + 2 + payload.len());
        c.enqueue_in_batch(ShortTypeId(1 + k as u16), &payload);
    }
    let frames = c.try_send_pending();
    assert!(frames.len() > 1);
    let mut seen = 0u16;
    for frame in &frames {
        assert!(!frame.is_empty());
        assert!(frame.len() <= cap + largest);
        for (start, _) in split_batch(frame).unwrap() {
            seen += 1;
            assert_eq!(&frame[start..start + 2], &seen.to_le_bytes());
        }
    }
    assert_eq!(seen, 40);
}

#[test]
fn sending_empties_the_connection() {
    let mut c = Connection::new(Backend::Server, 64);
    c.enqueue_in_batch(ShortTypeId(1), &[1]);
    assert_eq!(c.try_send_pending().len(), 1);
    assert_eq!(c.try_send_pending().len(), 0);
    c.enqueue_in_batch(ShortTypeId(2), &[2]);
    assert_eq!(c.try_send_pending(), vec![vec![3, 0, 0, 0, 2, 0, 2]]);
}

#[test]
fn nothing_is_sent_while_the_transport_is_not_open() {
    let mut c = Connection::new(Backend::Browser, 64);
    c.announce(4);
    c.enqueue_in_batch(ShortTypeId(1), &[1]);
    assert_eq!(c.try_send_pending(), Vec::<Vec<u8>>::new());
    c.set_open(true);
    assert_eq!(c.try_send_pending(), vec![vec![4], vec![3, 0, 0, 0, 1, 0, 1]]);
    assert_eq!(c.try_send_pending(), Vec::<Vec<u8>>::new());
}

#[test]
fn announcement_goes_out_alone_too() {
    let mut c = Connection::new(Backend::Browser, 64);
    c.announce(200);
    c.set_open(true);
    assert_eq!(c.try_send_pending(), vec![vec![200]]);
}

#[test]
fn frame_is_taken_in_and_reading_goes_on() {
    let mut c = Connection::new(Backend::Server, 64);
    let mut boxes = vec![None, Some(Inbox::new())];
    let frame = packet_batch(5, 1, &[1, 2, 3]);
    assert_eq!(c.try_receive(Received::Frame(frame.clone()), &mut boxes), Ok(true));
    assert_eq!(boxes[1].as_ref().unwrap().packets, vec![frame[4..].to_vec()]);
    assert_eq!(c.try_receive(Received::Frame(marker_batch(17)), &mut boxes), Ok(true));
    assert_eq!(c.observed_turns(), 17);
    assert_eq!(c.turns_since_own_turn(), 1);
}

#[test]
fn nothing_to_read_ends_the_reading() {
    let mut c = Connection::new(Backend::Server, 64);
    let mut boxes = vec![];
    assert_eq!(c.try_receive(Received::WouldBlock, &mut boxes), Ok(false));
}

#[test]
fn transport_trouble_gives_the_connection_up() {
    let mut c = Connection::new(Backend::Server, 64);
    let mut boxes = vec![];
    assert_eq!(c.try_receive(Received::NonBinary, &mut boxes), Err(NetworkError::NonBinaryFrame));
    assert_eq!(c.try_receive(Received::Closed, &mut boxes), Err(NetworkError::TransportClosed));
    assert_eq!(c.try_receive(Received::Failed, &mut boxes), Err(NetworkError::TransportIo));
}

#[test]
fn faulty_frame_gives_its_fault() {
    let mut c = Connection::new(Backend::Server, 64);
    let mut boxes = vec![Some(Inbox::new())];
    let mut frame = marker_batch(3);
    frame.extend_from_slice(&[9, 9]);
    assert_eq!(c.try_receive(Received::Frame(frame), &mut boxes), Err(NetworkError::MalformedBatch));
    // what stood in front of the fault was taken in
    assert_eq!((c.observed_turns(), c.turns_since_own_turn()), (3, 1));
    let frame = packet_batch(5, 1, &[]);
    assert_eq!(c.try_receive(Received::Frame(frame), &mut boxes), Err(NetworkError::UnknownInbox(1)));
    assert_eq!(boxes[0].as_ref().unwrap().len(), 0);
    assert_eq!((c.observed_turns(), c.turns_since_own_turn()), (3, 1));
}

#[test]
fn receive_stall() {
    let mut c = Connection::new(Backend::Server, 64);
    let mut boxes = vec![];
    for turn in 1..10u32 {
        assert!(c.ready_to_receive());
        assert_eq!(c.try_receive(Received::Frame(marker_batch(turn)), &mut boxes), Ok(true));
    }
    assert!(c.ready_to_receive());
    assert_eq!(c.try_receive(Received::Frame(marker_batch(10)), &mut boxes), Ok(false));
    assert!(!c.ready_to_receive());
    assert_eq!(c.turns_since_own_turn(), 10);
    assert_eq!(c.observed_turns(), 10);
    c.reset_turns_since_own_turn();
    assert!(c.ready_to_receive());
    assert_eq!(c.observed_turns(), 10);
}

#[test]
fn one_batch_with_many_markers_stalls_at_its_end() {
    let mut c = Connection::new(Backend::Server, 64);
    let mut boxes = vec![];
    let mut frame = Vec::new();
    for turn in 1..=12u32 {
        append_turn_marker(&mut frame, turn);
    }
    assert_eq!(c.try_receive(Received::Frame(frame), &mut boxes), Ok(false));
    assert_eq!(c.turns_since_own_turn(), 12);
    assert_eq!(c.observed_turns(), 12);
}

#[test]
fn browser_drops_the_first_frame_of_a_peer() {
    let mut c = Connection::new(Backend::Browser, 64);
    let mut boxes = vec![];
    assert_eq!(c.try_receive(Received::Frame(vec![3]), &mut boxes), Ok(true));
    assert_eq!((c.observed_turns(), c.turns_since_own_turn()), (0, 0));
    assert_eq!(c.try_receive(Received::Frame(marker_batch(8)), &mut boxes), Ok(true));
    assert_eq!((c.observed_turns(), c.turns_since_own_turn()), (8, 1));
}

#[test]
fn server_takes_the_first_frame_as_a_batch() {
    let mut c = Connection::new(Backend::Server, 64);
    let mut boxes = vec![];
    assert_eq!(c.try_receive(Received::Frame(vec![3]), &mut boxes), Err(NetworkError::MalformedBatch));
}

#[test]
fn would_block_counts_as_sent() {
    assert_eq!(Sent::Done.as_error(), None);
    assert_eq!(Sent::WouldBlock.as_error(), None);
    assert_eq!(Sent::Closed.as_error(), Some(NetworkError::TransportClosed));
    assert_eq!(Sent::Failed.as_error(), Some(NetworkError::TransportIo));
}

#[test]
fn observed_turn_follows_the_last_marker() {
    let mut c = Connection::new(Backend::Server, 64);
    let mut boxes = vec![];
    let mut frame = Vec::new();
    append_turn_marker(&mut frame, 5);
    append_turn_marker(&mut frame, 3);
    assert_eq!(c.try_receive(Received::Frame(frame), &mut boxes), Ok(true));
    assert_eq!(c.observed_turns(), 3);
}
