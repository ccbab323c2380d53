use mwatch_core::application_manager::Error;
use mwatch_core::msgmgr::{Message, MessageManager, MessageType, MSG_COUNT, MSG_SIZE};

const STX: u8 = 0x02;
const ETX: u8 = 0x03;
const DELIM: u8 = 0x1F;

fn make_manager() -> MessageManager {
    let mut msgs: Vec<Message> = Vec::new();
    for _ in 0..MSG_COUNT {
        msgs.push(Message::new(vec![0u8; MSG_SIZE]));
    }
    MessageManager::new(msgs, heapless::spsc::Queue::new())
}

fn frame(type_byte: u8, payload: &[u8]) -> Vec<u8> {
    let mut f = vec![STX, 0x00, type_byte, DELIM];
    f.extend_from_slice(payload);
    f.push(ETX);
    f
}

fn slot_payload(mm: &MessageManager, index: usize) -> Vec<u8> {
    let msg = mm.peek_message(index);
    msg.payload[..msg.payload_idx].to_vec()
}

#[test]
fn message_starts_unknown() {
    let msg = Message::new(vec![0u8; MSG_SIZE]);
    assert_eq!(msg.payload_idx, 0);
    assert_eq!(msg.get_type(), MessageType::Unknown);
}

#[test]
fn notification_frame_hi() {
    let mut mm = make_manager();
    mm.write(&[STX, 0x00, b'N', DELIM, b'h', b'i', ETX]);
    mm.process().unwrap();
    let msg = mm.peek_message(0);
    assert_eq!(msg.msg_type, MessageType::Notification);
    assert_eq!(msg.payload_idx, 2);
    assert_eq!(&msg.payload[..2], b"hi");
    assert_eq!(mm.msg_count(), 1);
}

#[test]
fn weather_frame_10() {
    let mut mm = make_manager();
    mm.write(&[0x02, 0x00, b'W', 0x1F, b'1', b'0', 0x03]);
    mm.process().unwrap();
    let msg = mm.peek_message(0);
    assert_eq!(msg.msg_type, MessageType::Weather);
    assert_eq!(slot_payload(&mm, 0), b"10".to_vec());
}

#[test]
fn type_byte_mapping() {
    let cases = [
        (b'N', MessageType::Notification),
        (b'W', MessageType::Weather),
        (b'D', MessageType::Date),
        (b'M', MessageType::Music),
        (b'X', MessageType::Unknown),
        (b'n', MessageType::Unknown),
        (0x00, MessageType::Unknown),
        (0xFF, MessageType::Unknown),
    ];
    for (byte, expected) in cases {
        let mut mm = make_manager();
        mm.write(&frame(byte, b"p"));
        mm.process().unwrap();
        assert_eq!(mm.peek_message(0).msg_type, expected);
    }
}

#[test]
fn garbage_before_first_stx_is_discarded() {
    let mut mm = make_manager();
    // No STX anywhere in the garbage; ETX and DELIM outside a frame are no-ops.
    mm.write(&[0xAA, ETX, b'Q', DELIM, 0x55]);
    mm.process().unwrap();
    assert_eq!(mm.msg_count(), 0);
    mm.write(&frame(b'N', b"hi"));
    mm.process().unwrap();
    let msg = mm.peek_message(0);
    assert_eq!(msg.msg_type, MessageType::Notification);
    assert_eq!(slot_payload(&mm, 0), b"hi".to_vec());
    assert_eq!(mm.msg_count(), 1);
}

#[test]
fn stx_restarts_a_partial_frame() {
    let mut mm = make_manager();
    let mut bytes = vec![STX, 0x00, b'D', DELIM, b'x', b'y'];
    bytes.extend_from_slice(&frame(b'N', b"ok"));
    mm.write(&bytes);
    mm.process().unwrap();
    // The second STX restarted slot 0; only the complete frame survives.
    assert_eq!(mm.peek_message(0).msg_type, MessageType::Notification);
    assert_eq!(slot_payload(&mm, 0), b"ok".to_vec());
    assert_eq!(mm.msg_count(), 1);
}

#[test]
fn nine_frames_wrap_to_slot_zero() {
    let mut mm = make_manager();
    for k in 1..=(MSG_COUNT + 1) {
        mm.write(&frame(b'N', format!("f{}", k).as_bytes()));
        mm.process().unwrap();
    }
    // Slots filled 0..7, then the ninth frame wrapped to slot 0.
    assert_eq!(slot_payload(&mm, 0), b"f9".to_vec());
    assert_eq!(slot_payload(&mm, 1), b"f2".to_vec());
    assert_eq!(mm.msg_count(), 1);
}

#[test]
fn round_robin_fills_successive_slots() {
    let mut mm = make_manager();
    mm.write(&frame(b'W', b"w1"));
    mm.write(&frame(b'D', b"d2"));
    mm.process().unwrap();
    assert_eq!(mm.peek_message(0).msg_type, MessageType::Weather);
    assert_eq!(mm.peek_message(1).msg_type, MessageType::Date);
    assert_eq!(slot_payload(&mm, 1), b"d2".to_vec());
    assert_eq!(mm.msg_count(), 2);
}

#[test]
fn queue_overflow_drops_newest() {
    let mut mm = make_manager();
    let data: Vec<u8> = (0..300u32).map(|i| (i % 256) as u8).collect();
    let dropped = mm.write(&data);
    // The queue keeps 255 bytes; the newest 45 are dropped, never blocking.
    assert_eq!(dropped, 45);
    let drained = mm.drain_rb();
    assert_eq!(drained.len(), 255);
    assert_eq!(drained[..], data[..255]);
}

#[test]
fn drain_rb_empties_the_queue() {
    let mut mm = make_manager();
    assert_eq!(mm.write(b"abc"), 0);
    assert_eq!(mm.drain_rb(), b"abc".to_vec());
    assert_eq!(mm.drain_rb(), Vec::<u8>::new());
    // Drained bytes are gone: processing afterwards parses nothing.
    mm.process().unwrap();
    assert_eq!(mm.msg_count(), 0);
}

#[test]
fn payload_overflow_faults_and_resynchronizes() {
    let mut mm = make_manager();
    // Stream a frame whose payload would exceed MSG_SIZE, in queue-sized steps.
    let mut header = vec![STX, 0x00, b'N', DELIM];
    header.extend_from_slice(&[b'a'; 251]);
    assert_eq!(mm.write(&header), 0);
    mm.process().unwrap();
    assert_eq!(mm.write(&[b'b'; 6]), 0);
    // Payload bytes 252..=256 fit; the 257th faults.
    assert!(matches!(mm.process(), Err(Error::PayloadOverflow)));
    assert_eq!(mm.msg_count(), 0);
    // Parsing self-heals: the next complete frame lands in the same slot.
    mm.write(&frame(b'M', b"song"));
    mm.process().unwrap();
    assert_eq!(mm.peek_message(0).msg_type, MessageType::Music);
    assert_eq!(slot_payload(&mm, 0), b"song".to_vec());
    assert_eq!(mm.msg_count(), 1);
}

#[test]
fn delim_inside_payload_is_data() {
    let mut mm = make_manager();
    mm.write(&frame(b'N', &[b'a', DELIM, b'b']));
    mm.process().unwrap();
    assert_eq!(slot_payload(&mm, 0), vec![b'a', DELIM, b'b']);
}

#[test]
fn partial_frame_carries_across_process_calls() {
    let mut mm = make_manager();
    mm.write(&[STX, 0x00, b'W', DELIM, b'2']);
    mm.process().unwrap();
    assert_eq!(mm.msg_count(), 0);
    mm.write(&[b'5', ETX]);
    mm.process().unwrap();
    assert_eq!(mm.peek_message(0).msg_type, MessageType::Weather);
    assert_eq!(slot_payload(&mm, 0), b"25".to_vec());
    assert_eq!(mm.msg_count(), 1);
}
