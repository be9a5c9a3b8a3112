use iso_tp::frame::{FlowKind, Frame, Kind};

#[test]
fn single_round_trips_short_payloads() {
    for len in 0..=7usize {
        let data: Vec<u8> = (0..len as u8).map(|b| b.wrapping_add(40)).collect();
        let frame = Frame::single(&data).expect("fits in one frame");
        assert_eq!(frame.kind(), Some(Kind::Single));
        assert_eq!(frame.single_len() as usize, len);
        assert_eq!(frame.single_data(), data);
    }
}

#[test]
fn single_refuses_long_payloads() {
    let data = [0u8; 8];
    assert!(Frame::single(&data).is_none());
}

#[test]
fn single_of_five_bytes_matches_wire_layout() {
    let frame = Frame::single(b"hello").unwrap();
    let bytes = frame.as_bytes();
    assert_eq!(bytes, [0x05, b'h', b'e', b'l', b'l', b'o', 0, 0]);
}

#[test]
fn first_encodes_length_nibble_then_byte() {
    let msg: Vec<u8> = (0..12u8).collect();
    let (frame, used) = Frame::first(&msg);
    assert_eq!(used, 6);
    let bytes = frame.as_bytes();
    assert_eq!(bytes[0], 0x10);
    assert_eq!(bytes[1], 0x0C);
    assert_eq!(&bytes[2..8], &msg[0..6]);
    assert_eq!(frame.kind(), Some(Kind::First));
    assert_eq!(frame.first_len(), 12);
    assert_eq!(frame.first_data(), msg[0..6].to_vec());
}

#[test]
fn first_encodes_twelve_bit_lengths() {
    let msg = vec![0xABu8; 300];
    let (frame, _) = Frame::first(&msg);
    let bytes = frame.as_bytes();
    // 300 = 0x12C: high nibble 1 beside the PCI type, low byte 0x2C.
    assert_eq!(bytes[0], 0x11);
    assert_eq!(bytes[1], 0x2C);
    assert_eq!(frame.first_len(), 300);

    let msg = vec![0u8; 4095];
    let (frame, _) = Frame::first(&msg);
    assert_eq!(frame.as_bytes()[0], 0x1F);
    assert_eq!(frame.as_bytes()[1], 0xFF);
    assert_eq!(frame.first_len(), 4095);
}

#[test]
fn consecutive_carries_sequence_number_and_data() {
    let data = b"World!";
    let (frame, used) = Frame::consecutive(1, data);
    assert_eq!(used, 6);
    let bytes = frame.as_bytes();
    assert_eq!(bytes[0], 0x21);
    assert_eq!(&bytes[1..7], data);
    assert_eq!(bytes[7], 0);
    assert_eq!(frame.kind(), Some(Kind::Consecutive));
    assert_eq!(frame.consecutive_sn(), 1);

    let long = [9u8; 10];
    let (frame, used) = Frame::consecutive(15, &long);
    assert_eq!(used, 7);
    assert_eq!(frame.as_bytes()[0], 0x2F);
    assert_eq!(frame.consecutive_data(), vec![9u8; 7]);
}

#[test]
fn flow_encodes_command_block_size_and_separation_time() {
    let frame = Frame::flow(FlowKind::Continue, 10, 0);
    assert_eq!(frame.as_bytes(), [0x30, 10, 0, 0, 0, 0, 0, 0]);
    assert_eq!(frame.kind(), Some(Kind::Flow));
    assert_eq!(frame.flow_kind(), Some(FlowKind::Continue));
    assert_eq!(frame.flow_len(), 10);
    assert_eq!(frame.flow_st(), 0);

    let frame = Frame::flow(FlowKind::Wait, 0, 5);
    assert_eq!(frame.as_bytes()[0], 0x31);
    assert_eq!(frame.flow_kind(), Some(FlowKind::Wait));
    assert_eq!(frame.flow_st(), 5);

    let frame = Frame::flow(FlowKind::Abort, 0, 0);
    assert_eq!(frame.as_bytes()[0], 0x32);
    assert_eq!(frame.flow_kind(), Some(FlowKind::Abort));
}

#[test]
fn reserved_flow_commands_decode_as_none() {
    let frame = Frame::from_bytes(&[0x33, 0, 0, 0, 0, 0, 0, 0]);
    assert_eq!(frame.kind(), Some(Kind::Flow));
    assert_eq!(frame.flow_kind(), None);
}

#[test]
fn kind_rejects_reserved_pci_nibbles() {
    for nibble in 4..=15u8 {
        let frame = Frame::from_bytes(&[nibble << 4, 0, 0, 0, 0, 0, 0, 0]);
        assert_eq!(frame.kind(), None);
    }
}

#[test]
fn from_bytes_pads_and_truncates_to_eight() {
    let frame = Frame::from_bytes(&[1, 2, 3]);
    assert_eq!(frame.as_bytes(), [1, 2, 3, 0, 0, 0, 0, 0]);

    let frame = Frame::from_bytes(&[9, 8, 7, 6, 5, 4, 3, 2, 1, 0]);
    assert_eq!(frame.as_bytes(), [9, 8, 7, 6, 5, 4, 3, 2]);
}

#[test]
fn frames_compare_by_their_bytes() {
    let a = Frame::single(b"abc").unwrap();
    let b = Frame::from_bytes(&[0x03, b'a', b'b', b'c', 0, 0, 0, 0]);
    assert_eq!(a, b);
    let c = Frame::single(b"abd").unwrap();
    assert_ne!(a, c);
}
