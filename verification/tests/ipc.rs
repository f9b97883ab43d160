use stele_undead::ipc::{
    action_for, byte_order_of, encode, get_tree_request, native_byte_order, subscribe_request, ByteOrder,
    IpcAction, MessageBuffer, PayloadType, HEADER_SIZE, MAX_BUFFER_SIZE,
};

fn header(len: u32, code: u32, order: ByteOrder) -> Vec<u8> {
    let mut out = b"i3-ipc".to_vec();
    match order {
        ByteOrder::Little => {
            out.extend_from_slice(&len.to_le_bytes());
            out.extend_from_slice(&code.to_le_bytes());
        },
        ByteOrder::Big => {
            out.extend_from_slice(&len.to_be_bytes());
            out.extend_from_slice(&code.to_be_bytes());
        },
    }
    out
}

#[test]
fn payload_type_from_numbers() {
    assert_eq!(PayloadType::from(2u32), PayloadType::Subscribe);
    assert_eq!(PayloadType::from(4u32), PayloadType::GetTree);
    assert_eq!(PayloadType::from(0x80000000u32), PayloadType::EventWorkspace);
    assert_eq!(PayloadType::from(0x80000003u32), PayloadType::EventWindow);
    assert_eq!(PayloadType::from(3u32), PayloadType::Unknown);
    assert_eq!(PayloadType::from(u32::MAX), PayloadType::Unknown);
}

#[test]
fn payload_type_codes_roundtrip() {
    for t in [
        PayloadType::Subscribe,
        PayloadType::GetTree,
        PayloadType::EventWorkspace,
        PayloadType::EventWindow,
        PayloadType::Unknown,
    ] {
        assert_eq!(PayloadType::from(t.code()), t);
    }
    assert_eq!(PayloadType::Unknown.code(), u32::MAX);
}

#[test]
fn payload_type_as_bytes() {
    assert_eq!(PayloadType::GetTree.as_bytes(ByteOrder::Little), vec![4, 0, 0, 0]);
    assert_eq!(PayloadType::GetTree.as_bytes(ByteOrder::Big), vec![0, 0, 0, 4]);
    assert_eq!(PayloadType::EventWindow.as_bytes(ByteOrder::Little), vec![3, 0, 0, 0x80]);
    assert_eq!(PayloadType::EventWindow.as_bytes(ByteOrder::Big), vec![0x80, 0, 0, 3]);
}

#[test]
fn native_order_matches_machine() {
    let order = native_byte_order();
    let expected = if u32::from_ne_bytes([1, 0, 0, 0]) == 1 {
        ByteOrder::Little
    } else {
        ByteOrder::Big
    };
    assert_eq!(order, expected);
    assert_eq!(PayloadType::Subscribe.as_bytes(order), 2u32.to_ne_bytes().to_vec());
}

#[test]
fn subscribe_request_bytes() {
    let payload = br#"["workspace", "window"]"#;
    let mut expected = header(payload.len() as u32, 2, ByteOrder::Little);
    expected.extend_from_slice(payload);
    assert_eq!(subscribe_request(ByteOrder::Little), expected);
}

#[test]
fn get_tree_request_bytes() {
    assert_eq!(get_tree_request(ByteOrder::Big), header(0, 4, ByteOrder::Big));
    assert_eq!(get_tree_request(ByteOrder::Little).len(), HEADER_SIZE);
}

#[test]
fn encode_then_parse_roundtrip() {
    for order in [ByteOrder::Little, ByteOrder::Big] {
        let payload = b"{\"type\":\"root\"}".to_vec();
        let message = encode(PayloadType::GetTree, &payload, order);
        let mut buffer = MessageBuffer::new(order);
        assert_eq!(buffer.free_space(), HEADER_SIZE);
        buffer.receive(&message[..HEADER_SIZE]);
        // The payload is missing: the buffer grows to the message's size.
        assert_eq!(buffer.parse_message(), None);
        assert_eq!(buffer.free_space(), payload.len());
        buffer.receive(&message[HEADER_SIZE..]);
        assert_eq!(buffer.parse_message(), Some((PayloadType::GetTree, payload.clone())));
        buffer.consume(message.len());
        assert_eq!(buffer.free_space(), message.len());
    }
}

#[test]
fn parse_needs_whole_header() {
    let mut buffer = MessageBuffer::new(ByteOrder::Little);
    buffer.receive(b"i3-ipc\x00\x00");
    assert_eq!(buffer.parse_message(), None);
    assert_eq!(buffer.free_space(), HEADER_SIZE - 8);
}

#[test]
fn bad_magic_drops_bytes() {
    let mut buffer = MessageBuffer::new(ByteOrder::Little);
    buffer.receive(&header(0, 4, ByteOrder::Little).iter().map(|b| b ^ 1).collect::<Vec<u8>>());
    assert_eq!(buffer.free_space(), 0);
    assert_eq!(buffer.parse_message(), None);
    assert_eq!(buffer.free_space(), HEADER_SIZE);
}

#[test]
fn oversized_message_does_not_grow_buffer() {
    let mut buffer = MessageBuffer::new(ByteOrder::Little);
    buffer.receive(&header(MAX_BUFFER_SIZE as u32, 4, ByteOrder::Little));
    assert_eq!(buffer.parse_message(), None);
    assert_eq!(buffer.free_space(), 0);
}

#[test]
fn two_messages_in_one_read() {
    let order = ByteOrder::Little;
    let first = encode(PayloadType::EventWorkspace, &b"ab".to_vec(), order);
    let second = encode(PayloadType::EventWindow, &b"cde".to_vec(), order);
    let mut buffer = MessageBuffer::new(order);
    buffer.receive(&first[..HEADER_SIZE]);
    assert_eq!(buffer.parse_message(), None);
    assert_eq!(buffer.free_space(), 2);
    buffer.receive(&first[HEADER_SIZE..]);
    assert_eq!(buffer.parse_message(), Some((PayloadType::EventWorkspace, b"ab".to_vec())));
    buffer.consume(first.len());
    buffer.receive(&second[..HEADER_SIZE]);
    assert_eq!(buffer.parse_message(), None);
    buffer.receive(&second[HEADER_SIZE..]);
    assert_eq!(buffer.parse_message(), Some((PayloadType::EventWindow, b"cde".to_vec())));
}

#[test]
fn consume_keeps_following_bytes() {
    let order = ByteOrder::Little;
    let first = encode(PayloadType::Subscribe, &Vec::new(), order);
    let second = encode(PayloadType::GetTree, &Vec::new(), order);
    let mut buffer = MessageBuffer::new(order);
    buffer.receive(&first);
    assert_eq!(buffer.parse_message(), Some((PayloadType::Subscribe, Vec::new())));
    buffer.consume(first.len());
    buffer.receive(&second);
    assert_eq!(buffer.parse_message(), Some((PayloadType::GetTree, Vec::new())));
}

#[test]
fn actions_for_payload_types() {
    assert_eq!(action_for(PayloadType::GetTree), IpcAction::UpdateTree);
    assert_eq!(action_for(PayloadType::EventWorkspace), IpcAction::RequestTree);
    assert_eq!(action_for(PayloadType::EventWindow), IpcAction::RequestTree);
    assert_eq!(action_for(PayloadType::Subscribe), IpcAction::Ignore);
    assert_eq!(action_for(PayloadType::Unknown), IpcAction::Ignore);
}

#[test]
fn message_arrives_byte_by_byte() {
    let order = ByteOrder::Big;
    let payload = b"[1,2,3]".to_vec();
    let message = encode(PayloadType::EventWindow, &payload, order);
    let mut buffer = MessageBuffer::new(order);
    for (i, byte) in message.iter().enumerate() {
        buffer.receive(&[*byte]);
        let parsed = buffer.parse_message();
        if i + 1 < message.len() {
            assert_eq!(parsed, None);
        } else {
            assert_eq!(parsed, Some((PayloadType::EventWindow, payload.clone())));
        }
    }
    assert_eq!(buffer.len(), message.len());
}

#[test]
fn byte_order_from_probe() {
    assert_eq!(byte_order_of(1), ByteOrder::Little);
    assert_eq!(byte_order_of(0x0100_0000), ByteOrder::Big);
    assert_eq!(byte_order_of(0), ByteOrder::Big);
}

#[test]
fn receive_message_in_pieces() {
    let order = ByteOrder::Little;
    let first = encode(PayloadType::GetTree, &b"{}".to_vec(), order);
    let second = encode(PayloadType::EventWorkspace, &b"xyz".to_vec(), order);
    let mut stream = first.clone();
    stream.extend_from_slice(&second);
    let mut buffer = MessageBuffer::new(order);
    // Half a header: nothing yet.
    assert_eq!(buffer.receive_message(&stream[..7]), None);
    // The rest of the header: the buffer grows to the message's size.
    let room = buffer.free_space();
    assert_eq!(buffer.receive_message(&stream[7..7 + room]), None);
    assert_eq!(buffer.len(), HEADER_SIZE + 2);
    // The rest of the first message comes out, and leaves the buffer empty.
    let got = buffer.receive_message(&stream[7 + room..first.len()]);
    assert_eq!(got, Some((4u32, b"{}".to_vec())));
    assert_eq!(buffer.free_space(), buffer.len());
    // The second message whole.
    let got = buffer.receive_message(&stream[first.len()..first.len() + HEADER_SIZE]);
    assert_eq!(got, None);
    let got = buffer.receive_message(&stream[first.len() + HEADER_SIZE..]);
    assert_eq!(got, Some((0x8000_0000u32, b"xyz".to_vec())));
}

#[test]
fn receive_message_unknown_code_and_bad_magic() {
    let order = ByteOrder::Big;
    let mut message = header(1, 7, order);
    message.push(b'!');
    let mut buffer = MessageBuffer::new(order);
    assert_eq!(buffer.receive_message(&message[..HEADER_SIZE]), None);
    assert_eq!(buffer.receive_message(&message[HEADER_SIZE..]), Some((7u32, b"!".to_vec())));
    assert_eq!(PayloadType::from(7u32), PayloadType::Unknown);
    // A wrong magic string drops what was received.
    let mut bad = b"i4-ipc".to_vec();
    bad.extend_from_slice(&[0u8; 8]);
    assert_eq!(buffer.receive_message(&bad), None);
    assert_eq!(buffer.free_space(), buffer.len());
}
