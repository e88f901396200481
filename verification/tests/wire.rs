use actor_networking::dispatch::{dispatch_batch, dispatch_message, STALL_TURNS};
use actor_networking::error::NetworkError;
use actor_networking::id::{broadcast_machine_id, MachineID, RawID, ShortTypeId, RAW_ID_BYTES};
use actor_networking::inbox::Inbox;
use actor_networking::text::{push_decimal, ws_url};
use actor_networking::wire::{append_message, append_turn_marker, split_batch};

fn actor(type_id: u16, machine: u8) -> RawID {
    RawID { instance_id: 0x0403_0201, type_id: ShortTypeId(type_id), machine: MachineID(machine), version: 9 }
}

fn packet_payload(to: RawID, body: &[u8]) -> Vec<u8> {
    let mut payload = Vec::new();
    to.write_to(&mut payload);
    payload.extend_from_slice(body);
    payload
}

fn inboxes(present: &[bool]) -> Vec<Option<Inbox>> {
    present.iter().map(|p| if *p { Some(Inbox::new()) } else { None }).collect()
}

#[test]
fn message_is_framed_with_little_endian_length_and_type() {
    let mut batch = vec![0xAA];
    append_message(&mut batch, 0x0107, &[1, 2, 3]);
    assert_eq!(batch, vec![0xAA, 5, 0, 0, 0, 0x07, 0x01, 1, 2, 3]);
}

#[test]
fn long_message_length_uses_all_four_bytes() {
    let payload = vec![7u8; 0x0001_0203 - 2];
    let mut batch = Vec::new();
    append_message(&mut batch, 1, &payload);
    assert_eq!(&batch[..6], &[0x03, 0x02, 0x01, 0x00, 1, 0]);
    assert_eq!(batch.len(), 4 + 0x0001_0203);
}

#[test]
fn turn_marker_is_ten_bytes() {
    let mut batch = Vec::new();
    append_turn_marker(&mut batch, 5);
    assert_eq!(batch, vec![6, 0, 0, 0, 0, 0, 5, 0, 0, 0]);
    let mut batch = Vec::new();
    append_turn_marker(&mut batch, 0x0A0B_0C0D);
    assert_eq!(batch, vec![6, 0, 0, 0, 0, 0, 0x0D, 0x0C, 0x0B, 0x0A]);
}

#[test]
fn empty_batch_splits_into_nothing() {
    assert_eq!(split_batch(&[]), Some(vec![]));
}

#[test]
fn batch_splits_where_the_lengths_say() {
    let mut batch = Vec::new();
    append_message(&mut batch, 3, &[9, 9]);
    append_turn_marker(&mut batch, 1);
    append_message(&mut batch, 4, &[]);
    assert_eq!(split_batch(&batch), Some(vec![(4, 8), (12, 18), (22, 24)]));
}

#[test]
fn zero_length_message_is_framing_wise_fine() {
    assert_eq!(split_batch(&[0, 0, 0, 0]), Some(vec![(4, 4)]));
}

#[test]
fn batch_that_ends_in_a_length_is_malformed() {
    assert_eq!(split_batch(&[6, 0, 0]), None);
}

#[test]
fn batch_that_ends_in_a_message_is_malformed() {
    assert_eq!(split_batch(&[6, 0, 0, 0, 0, 0, 5, 0, 0]), None);
    let mut batch = Vec::new();
    append_turn_marker(&mut batch, 1);
    batch.extend_from_slice(&[1, 0, 0, 0]);
    assert_eq!(split_batch(&batch), None);
}

#[test]
fn what_is_appended_is_what_is_split() {
    let messages: Vec<(u16, Vec<u8>)> = vec![(1, vec![]), (700, vec![1, 2, 3, 4, 5]), (0xFFFF, vec![0; 300])];
    let mut batch = Vec::new();
    for (type_id, payload) in &messages {
        append_message(&mut batch, *type_id, payload);
    }
    let spans = split_batch(&batch).unwrap();
    assert_eq!(spans.len(), messages.len());
    for ((start, end), (type_id, payload)) in spans.iter().zip(&messages) {
        let msg = &batch[*start..*end];
        assert_eq!(&msg[..2], &type_id.to_le_bytes());
        assert_eq!(&msg[2..], &payload[..]);
    }
}

#[test]
fn raw_id_has_a_fixed_layout() {
    let id = RawID { instance_id: 0x0403_0201, type_id: ShortTypeId(0x0605), machine: MachineID(7), version: 8 };
    let mut bytes = Vec::new();
    id.write_to(&mut bytes);
    assert_eq!(bytes, vec![1, 2, 3, 4, 5, 6, 7, 8]);
    assert_eq!(bytes.len(), RAW_ID_BYTES);
}

#[test]
fn raw_id_reads_back() {
    let id = RawID { instance_id: 0xFFEE_DDCC, type_id: ShortTypeId(0xABCD), machine: MachineID(255), version: 0 };
    let mut bytes = Vec::new();
    id.write_to(&mut bytes);
    bytes.extend_from_slice(&[42, 43]);
    assert_eq!(RawID::read_from(&bytes), id);
}

#[test]
fn broadcast_is_the_largest_machine_id() {
    assert_eq!(broadcast_machine_id(), MachineID(255));
}

#[test]
fn short_type_id_indexes_from_its_number() {
    assert_eq!(ShortTypeId(513).as_usize(), 513);
}

#[test]
fn packet_goes_to_the_inbox_of_its_recipients_type() {
    let mut boxes = inboxes(&[true, true, true, true]);
    let mut n_turns = 4;
    let mut since = 2;
    let mut msg = vec![7, 0];
    msg.extend_from_slice(&packet_payload(actor(3, 1), &[0xEE; 5]));
    let wait = dispatch_message(&msg, &mut boxes, &mut n_turns, &mut since);
    assert!(!wait);
    assert_eq!((n_turns, since), (4, 2));
    assert_eq!(boxes[3].as_ref().unwrap().packets, vec![msg.clone()]);
    for t in [0, 1, 2] {
        assert_eq!(boxes[t].as_ref().unwrap().len(), 0);
    }
}

#[test]
fn turn_marker_moves_the_counters() {
    let mut boxes = inboxes(&[true]);
    let mut n_turns = 4;
    let mut since = 2;
    let wait = dispatch_message(&[0, 0, 0x10, 0x27, 0, 0], &mut boxes, &mut n_turns, &mut since);
    assert!(!wait);
    assert_eq!((n_turns, since), (10000, 3));
    assert_eq!(boxes[0].as_ref().unwrap().len(), 0);
}

#[test]
fn tenth_turn_marker_asks_to_wait() {
    let mut boxes = inboxes(&[]);
    let mut n_turns = 0;
    let mut since = 0;
    for k in 1..STALL_TURNS {
        assert!(!dispatch_message(&[0, 0, k as u8, 0, 0, 0], &mut boxes, &mut n_turns, &mut since));
    }
    assert!(dispatch_message(&[0, 0, 10, 0, 0, 0], &mut boxes, &mut n_turns, &mut since));
    assert_eq!((n_turns, since), (10, 10));
    assert!(dispatch_message(&[0, 0, 11, 0, 0, 0], &mut boxes, &mut n_turns, &mut since));
}

#[test]
fn batch_is_taken_in_order() {
    let mut boxes = inboxes(&[false, true, true]);
    let first = packet_payload(actor(2, 0), &[1]);
    let second = packet_payload(actor(1, 0), &[2]);
    let third = packet_payload(actor(2, 0), &[3]);
    let mut batch = Vec::new();
    append_message(&mut batch, 10, &first);
    append_turn_marker(&mut batch, 8);
    append_message(&mut batch, 11, &second);
    append_turn_marker(&mut batch, 9);
    append_message(&mut batch, 12, &third);
    let mut n_turns = 1;
    let mut since = 0;
    assert_eq!(dispatch_batch(&batch, &mut boxes, &mut n_turns, &mut since), Ok(false));
    assert_eq!((n_turns, since), (9, 2));
    let to_two = &boxes[2].as_ref().unwrap().packets;
    assert_eq!(to_two.len(), 2);
    assert_eq!(&to_two[0][..2], &[10, 0]);
    assert_eq!(*to_two[0].last().unwrap(), 1);
    assert_eq!(&to_two[1][..2], &[12, 0]);
    assert_eq!(*to_two[1].last().unwrap(), 3);
    let to_one = &boxes[1].as_ref().unwrap().packets;
    assert_eq!(to_one.len(), 1);
    assert_eq!(&to_one[0][2..10], &[1, 2, 3, 4, 1, 0, 0, 9]);
}

#[test]
fn batch_reports_the_stall_of_any_of_its_markers() {
    let mut boxes = inboxes(&[true]);
    let mut batch = Vec::new();
    append_turn_marker(&mut batch, 3);
    append_message(&mut batch, 1, &packet_payload(actor(0, 0), &[]));
    let mut n_turns = 0;
    let mut since = 9;
    assert_eq!(dispatch_batch(&batch, &mut boxes, &mut n_turns, &mut since), Ok(true));
    assert_eq!((n_turns, since), (3, 10));
    assert_eq!(boxes[0].as_ref().unwrap().len(), 1);
}

#[test]
fn batch_without_marker_never_stalls() {
    let mut boxes = inboxes(&[true]);
    let mut batch = Vec::new();
    append_message(&mut batch, 1, &packet_payload(actor(0, 0), &[]));
    let mut n_turns = 0;
    let mut since = 9;
    assert_eq!(dispatch_batch(&batch, &mut boxes, &mut n_turns, &mut since), Ok(false));
}

#[test]
fn truncated_batch_is_taken_in_up_to_the_truncation() {
    let mut boxes = inboxes(&[true]);
    let mut batch = Vec::new();
    append_turn_marker(&mut batch, 7);
    append_message(&mut batch, 1, &packet_payload(actor(0, 0), &[1]));
    append_turn_marker(&mut batch, 3);
    batch.pop();
    let mut n_turns = 2;
    let mut since = 1;
    assert_eq!(
        dispatch_batch(&batch, &mut boxes, &mut n_turns, &mut since),
        Err(NetworkError::MalformedBatch)
    );
    assert_eq!((n_turns, since), (7, 2));
    assert_eq!(boxes[0].as_ref().unwrap().len(), 1);
}

#[test]
fn batch_that_starts_with_a_fault_changes_nothing() {
    let mut boxes = inboxes(&[true]);
    let mut batch = vec![3, 0, 0];
    append_turn_marker(&mut batch, 3);
    let mut n_turns = 2;
    let mut since = 1;
    assert_eq!(
        dispatch_batch(&batch, &mut boxes, &mut n_turns, &mut since),
        Err(NetworkError::MalformedBatch)
    );
    assert_eq!((n_turns, since), (2, 1));
    assert_eq!(boxes[0].as_ref().unwrap().len(), 0);
}

#[test]
fn packet_without_inbox_stops_the_batch_and_names_its_type() {
    let mut boxes = inboxes(&[true, false]);
    let mut batch = Vec::new();
    append_message(&mut batch, 1, &packet_payload(actor(0, 0), &[1]));
    append_message(&mut batch, 1, &packet_payload(actor(1, 0), &[1]));
    append_message(&mut batch, 1, &packet_payload(actor(0, 0), &[2]));
    let mut n_turns = 2;
    let mut since = 1;
    assert_eq!(
        dispatch_batch(&batch, &mut boxes, &mut n_turns, &mut since),
        Err(NetworkError::UnknownInbox(1))
    );
    assert_eq!(boxes[0].as_ref().unwrap().len(), 1);
    let mut batch = Vec::new();
    append_message(&mut batch, 1, &packet_payload(actor(700, 0), &[1]));
    assert_eq!(
        dispatch_batch(&batch, &mut boxes, &mut n_turns, &mut since),
        Err(NetworkError::UnknownInbox(700))
    );
}

#[test]
fn messages_too_short_for_their_type_are_malformed() {
    let mut boxes = inboxes(&[true]);
    let mut n_turns = 0;
    let mut since = 0;
    // no type id
    assert_eq!(
        dispatch_batch(&[1, 0, 0, 0, 5], &mut boxes, &mut n_turns, &mut since),
        Err(NetworkError::MalformedBatch)
    );
    // a turn marker with a turn of three bytes, and one of five
    assert_eq!(
        dispatch_batch(&[5, 0, 0, 0, 0, 0, 1, 0, 0], &mut boxes, &mut n_turns, &mut since),
        Err(NetworkError::MalformedBatch)
    );
    assert_eq!(
        dispatch_batch(&[7, 0, 0, 0, 0, 0, 1, 0, 0, 0, 0], &mut boxes, &mut n_turns, &mut since),
        Err(NetworkError::MalformedBatch)
    );
    // a packet that ends within its recipient
    assert_eq!(
        dispatch_batch(&[9, 0, 0, 0, 1, 0, 1, 2, 3, 4, 0, 0, 0], &mut boxes, &mut n_turns, &mut since),
        Err(NetworkError::MalformedBatch)
    );
    assert_eq!((n_turns, since), (0, 0));
}

#[test]
fn the_first_fault_in_a_batch_is_the_one_reported() {
    let mut boxes = inboxes(&[false]);
    let mut n_turns = 0;
    let mut since = 0;
    let mut batch = Vec::new();
    append_message(&mut batch, 1, &packet_payload(actor(0, 0), &[]));
    batch.extend_from_slice(&[1, 0, 0, 0, 5]);
    assert_eq!(
        dispatch_batch(&batch, &mut boxes, &mut n_turns, &mut since),
        Err(NetworkError::UnknownInbox(0))
    );
    let mut batch = vec![1, 0, 0, 0, 5];
    append_message(&mut batch, 1, &packet_payload(actor(0, 0), &[]));
    assert_eq!(
        dispatch_batch(&batch, &mut boxes, &mut n_turns, &mut since),
        Err(NetworkError::MalformedBatch)
    );
}

#[test]
fn fatal_errors_are_those_that_stop_the_network() {
    assert!(NetworkError::UnknownInbox(3).is_fatal());
    assert!(NetworkError::OutboundDialFailure(0).is_fatal());
    assert!(!NetworkError::MalformedBatch.is_fatal());
    assert!(!NetworkError::NonBinaryFrame.is_fatal());
    assert!(!NetworkError::TransportClosed.is_fatal());
    assert!(!NetworkError::TransportIo.is_fatal());
}

#[test]
fn inbox_keeps_arrival_order() {
    let mut inbox = Inbox::new();
    assert_eq!(inbox.len(), 0);
    inbox.put_raw(&[1, 2]);
    inbox.put_raw(&[]);
    inbox.put_raw(&[3]);
    assert_eq!(inbox.len(), 3);
    assert_eq!(inbox.packets, vec![vec![1, 2], vec![], vec![3]]);
}

#[test]
fn decimal_digits_are_appended() {
    let mut text = String::from("n=");
    push_decimal(&mut text, 0);
    text.push(' ');
    push_decimal(&mut text, 7);
    text.push(' ');
    push_decimal(&mut text, 10);
    text.push(' ');
    push_decimal(&mut text, 4_294_967_295);
    assert_eq!(text, "n=0 7 10 4294967295");
}

#[test]
fn peer_address_becomes_a_websocket_url() {
    assert_eq!(ws_url("127.0.0.1:9000"), Some(String::from("ws://127.0.0.1:9000/")));
    assert_eq!(ws_url("example.org:80"), Some(String::from("ws://example.org/")));
    assert_eq!(ws_url("LOCALHOST:9001/path"), Some(String::from("ws://localhost:9001/path")));
}

#[test]
fn address_that_is_no_url_gives_none() {
    assert_eq!(ws_url("127.0.0.1:notaport"), None);
    assert_eq!(ws_url(""), None);
}
