use kernel_core::ipc::{Message, MessageQueue, MessageType, MAX_MESSAGES, MESSAGE_DATA_SIZE};
use kernel_core::utils::{align_down, align_up, decimal_digits, is_aligned};

#[test]
fn message_compaction_order() {
    let a: u32 = 10;
    let b: u32 = 20;
    let mut q = MessageQueue::new();
    assert!(q.send_message(MessageType::Data, 1, a, b"first"));
    assert!(q.send_message(MessageType::Data, 1, b, b"middle"));
    assert!(q.send_message(MessageType::Signal, 2, a, b"second"));
    assert_eq!(q.get_count(), 3);
    let m = q.receive_message(a).unwrap();
    assert_eq!(m.payload(), b"first".to_vec());
    assert_eq!(q.get_count(), 2);
    let m = q.receive_message(b).unwrap();
    assert_eq!(m.payload(), b"middle".to_vec());
    let m = q.receive_message(a).unwrap();
    assert_eq!(m.payload(), b"second".to_vec());
    assert_eq!(m.msg_type(), MessageType::Signal);
    assert_eq!(m.sender_pid(), 2);
    assert_eq!(m.receiver_pid(), a);
    assert!(q.receive_message(a).is_none());
    assert_eq!(q.get_count(), 0);
}

#[test]
fn message_queue_full() {
    let mut q = MessageQueue::new();
    for k in 0..MAX_MESSAGES {
        assert!(q.send_message(MessageType::Data, 1, k as u32, &[k as u8]));
    }
    assert!(!q.send_message(MessageType::Data, 1, 7, b"x"));
    assert_eq!(q.get_count(), MAX_MESSAGES);
    let m = q.receive_message(30).unwrap();
    assert_eq!(m.payload(), vec![30u8]);
    assert!(q.send_message(MessageType::Data, 1, 99, b"y"));
    // order of the rest is kept: 31 is still ahead of 99
    assert_eq!(q.receive_message(31).unwrap().payload(), vec![31u8]);
    assert_eq!(q.receive_message(99).unwrap().payload(), b"y".to_vec());
}

#[test]
fn message_payload_truncated() {
    let mut q = MessageQueue::new();
    let data: Vec<u8> = (0..200).map(|k| k as u8).collect();
    assert!(q.send_message(MessageType::Data, 3, 4, &data));
    let m = q.receive_message(4).unwrap();
    assert_eq!(m.data_length(), MESSAGE_DATA_SIZE);
    assert_eq!(m.payload(), data[..128].to_vec());
}

#[test]
fn message_has_message_for() {
    let mut q = MessageQueue::new();
    assert!(!q.has_message_for(5));
    assert!(q.send_message(MessageType::Empty, 1, 5, b""));
    assert!(q.has_message_for(5));
    assert!(!q.has_message_for(6));
    let m = q.receive_message(5).unwrap();
    assert_eq!(m.data_length(), 0);
    assert!(!q.has_message_for(5));
    assert!(q.receive_message(6).is_none());
}

#[test]
fn message_type_codes() {
    assert_eq!(MessageType::from_code(0), MessageType::Empty);
    assert_eq!(MessageType::from_code(1), MessageType::Data);
    assert_eq!(MessageType::from_code(2), MessageType::Signal);
    assert_eq!(MessageType::from_code(3), MessageType::Empty);
    assert_eq!(MessageType::from_code(255), MessageType::Empty);
}

#[test]
fn blank_message() {
    let m = Message::new();
    assert_eq!(m.msg_type(), MessageType::Empty);
    assert_eq!(m.sender_pid(), 0);
    assert_eq!(m.receiver_pid(), 0);
    assert_eq!(m.data_length(), 0);
    assert!(m.payload().is_empty());
}

#[test]
fn alignment_helpers() {
    assert_eq!(align_up(5, 4), 8);
    assert_eq!(align_up(8, 4), 8);
    assert_eq!(align_up(0x1001, 0x1000), 0x2000);
    assert_eq!(align_up(7, 0), 7);
    assert_eq!(align_down(7, 4), 4);
    assert_eq!(align_down(0x1fff, 0x1000), 0x1000);
    assert_eq!(align_down(7, 0), 7);
    assert!(is_aligned(8, 4));
    assert!(!is_aligned(6, 4));
    assert!(is_aligned(3, 0));
    assert!(is_aligned(0x3000, 0x1000));
}

#[test]
fn decimal_rendering() {
    assert_eq!(decimal_digits(0), b"0".to_vec());
    assert_eq!(decimal_digits(7), b"7".to_vec());
    assert_eq!(decimal_digits(10), b"10".to_vec());
    assert_eq!(decimal_digits(1024), b"1024".to_vec());
    assert_eq!(decimal_digits(u32::MAX), b"4294967295".to_vec());
}
