use doom_core::bytes::{push_all, push_u32_be, read_i16, read_i32, read_u16, read_u32, read_u32_be};
use doom_core::protocol::{
    read_text, ClientMessage, Packet, ProtocolError, SequencedPacket, ServerMessage, TryRead,
    UNSEQUENCED,
};

#[test]
fn numbers_are_read_in_their_byte_order() {
    let data = [0x34, 0x12, 0xfe, 0xff, 0x78, 0x56, 0x34, 0x12, 0xff, 0xff, 0xff, 0x7f];
    assert_eq!(read_u16(&data, 0), 0x1234);
    assert_eq!(read_u16(&data, 2), 0xfffe);
    assert_eq!(read_i16(&data, 0), 0x1234);
    assert_eq!(read_i16(&data, 2), -2);
    assert_eq!(read_u32(&data, 4), 0x12345678);
    assert_eq!(read_u32(&data, 0), 0xfffe1234);
    assert_eq!(read_i32(&data, 0), -126412);
    assert_eq!(read_i32(&data, 8), 0x7fffffff);
    assert_eq!(read_u32_be(&data, 4), 0x78563412);
    assert_eq!(read_u32_be(&data, 0), 0x3412feff);
}

#[test]
fn numbers_are_written_most_significant_byte_first() {
    let mut out = vec![9];
    push_u32_be(&mut out, 0x01020304);
    push_u32_be(&mut out, 0xfffffffe);
    push_all(&mut out, &[7, 8]);
    assert_eq!(out, vec![9, 1, 2, 3, 4, 0xff, 0xff, 0xff, 0xfe, 7, 8]);
    assert_eq!(read_u32_be(&out, 1), 0x01020304);
}

#[test]
fn a_sequenced_packet_is_its_number_and_its_payload() {
    let p = SequencedPacket::try_from(vec![0, 0, 1, 2, 9, 8, 7]).unwrap();
    assert_eq!(p.sequence, 258);
    assert_eq!(p.data, vec![9, 8, 7]);
    assert_eq!(p.to_bytes(), vec![0, 0, 1, 2, 9, 8, 7]);
    let empty = SequencedPacket::try_from(vec![0xff, 0xff, 0xff, 0xfe]).unwrap();
    assert_eq!(empty.sequence, 0xfffffffe);
    assert!(empty.data.is_empty());
}

#[test]
fn a_sequenced_packet_needs_four_bytes_and_a_sequence_number() {
    assert_eq!(SequencedPacket::try_from(vec![1, 2, 3]).err(), Some(ProtocolError::UnexpectedEof));
    assert_eq!(SequencedPacket::try_from(Vec::new()).err(), Some(ProtocolError::UnexpectedEof));
    assert_eq!(
        SequencedPacket::try_from(vec![0xff, 0xff, 0xff, 0xff, 1]).err(),
        Some(ProtocolError::NotSequenced)
    );
    assert_eq!(UNSEQUENCED, 0xffff_ffff);
}

#[test]
fn sequenced_packets_survive_the_round_trip() {
    for (sequence, data) in [(0u32, vec![]), (1, vec![0xff; 5]), (0xfffffffe, vec![1, 2, 3])] {
        let bytes = SequencedPacket { sequence, data: data.clone() }.to_bytes();
        let back = SequencedPacket::try_from(bytes).unwrap();
        assert_eq!(back.sequence, sequence);
        assert_eq!(back.data, data);
    }
}

#[test]
fn client_messages_are_written_with_their_type_byte() {
    assert_eq!(ClientMessage::Connect.to_bytes(), vec![1]);
    assert_eq!(
        ClientMessage::RCon("map E1M1".to_string()).to_bytes(),
        vec![2, 0, 0, 0, 8, b'm', b'a', b'p', b' ', b'E', b'1', b'M', b'1']
    );
    assert_eq!(ClientMessage::RCon(String::new()).to_bytes(), vec![2, 0, 0, 0, 0]);
    // The length counts bytes, not characters.
    assert_eq!(ClientMessage::RCon("é".to_string()).to_bytes(), vec![2, 0, 0, 0, 2, 0xc3, 0xa9]);
}

#[test]
fn client_messages_are_read_back() {
    let data = [9, 1, 2, 0, 0, 0, 2, b'h', b'i', 1];
    match ClientMessage::try_read(&data, 1) {
        Ok((ClientMessage::Connect, 2)) => {}
        other => panic!("{:?}", other),
    }
    match ClientMessage::try_read(&data, 2) {
        Ok((ClientMessage::RCon(text), 9)) => assert_eq!(text, "hi"),
        other => panic!("{:?}", other),
    }
}

#[test]
fn unreadable_client_messages_are_errors() {
    assert_eq!(ClientMessage::try_read(&[0], 0).err(), Some(ProtocolError::UnknownMessage(0)));
    assert_eq!(ClientMessage::try_read(&[1, 3], 1).err(), Some(ProtocolError::UnknownMessage(3)));
    assert_eq!(ClientMessage::try_read(&[2, 0, 0], 0).err(), Some(ProtocolError::UnexpectedEof));
    assert_eq!(
        ClientMessage::try_read(&[2, 0, 0, 0, 3, b'a', b'b'], 0).err(),
        Some(ProtocolError::UnexpectedEof)
    );
    assert_eq!(
        ClientMessage::try_read(&[2, 0xff, 0xff, 0xff, 0xff, b'a'], 0).err(),
        Some(ProtocolError::UnexpectedEof)
    );
    assert_eq!(
        ClientMessage::try_read(&[2, 0, 0, 0, 2, 0xc3, 0x28], 0).err(),
        Some(ProtocolError::InvalidUtf8)
    );
}

#[test]
fn texts_carry_their_length() {
    assert_eq!(read_text(&[0, 0, 0, 1, b'x', 7], 0), Ok(("x".to_string(), 5)));
    assert_eq!(read_text(&[5, 0, 0, 0, 0], 1), Ok((String::new(), 5)));
    assert_eq!(read_text(&[0, 0, 0], 0), Err(ProtocolError::UnexpectedEof));
    assert_eq!(read_text(&[], 0), Err(ProtocolError::UnexpectedEof));
    assert_eq!(read_text(&[0, 0, 0, 1, 0x80], 0), Err(ProtocolError::InvalidUtf8));
}

fn server_samples() -> Vec<(ServerMessage, Vec<u8>)> {
    vec![
        (ServerMessage::ConnectResponse, vec![1]),
        (ServerMessage::ComponentDelete(0x01020304, 9), vec![2, 1, 2, 3, 4, 9]),
        (
            ServerMessage::ComponentDelta(5, 6, vec![0xaa, 0xbb]),
            vec![3, 0, 0, 0, 5, 6, 0, 0, 0, 2, 0xaa, 0xbb],
        ),
        (ServerMessage::ComponentDelta(5, 6, Vec::new()), vec![3, 0, 0, 0, 5, 6, 0, 0, 0, 0]),
        (ServerMessage::ComponentNew(0xffffffff, 0), vec![4, 0xff, 0xff, 0xff, 0xff, 0]),
        (ServerMessage::Disconnect, vec![5]),
        (ServerMessage::EntityDelete(7), vec![6, 0, 0, 0, 7]),
        (ServerMessage::EntityNew(256), vec![7, 0, 0, 1, 0]),
    ]
}

#[test]
fn server_messages_are_written_field_by_field() {
    for (message, bytes) in server_samples() {
        assert_eq!(message.to_bytes(), bytes, "{:?}", message);
    }
}

#[test]
fn server_messages_are_read_back() {
    for (message, bytes) in server_samples() {
        let mut data = vec![0xee];
        data.extend(&bytes);
        data.push(0xdd);
        let (back, next) = ServerMessage::try_read(&data, 1).unwrap();
        assert_eq!(format!("{:?}", back), format!("{:?}", message));
        assert_eq!(next, 1 + bytes.len());
    }
}

#[test]
fn server_messages_cut_short_are_errors() {
    for (message, bytes) in server_samples() {
        for keep in 1..bytes.len() {
            assert_eq!(
                ServerMessage::try_read(&bytes[..keep], 0).err(),
                Some(ProtocolError::UnexpectedEof),
                "{:?} cut to {}",
                message,
                keep
            );
        }
    }
    assert_eq!(ServerMessage::try_read(&[8, 0, 0], 0).err(), Some(ProtocolError::UnknownMessage(8)));
    assert_eq!(ServerMessage::try_read(&[0], 0).err(), Some(ProtocolError::UnknownMessage(0)));
}

#[test]
fn an_unsequenced_packet_is_a_run_of_messages() {
    let mut data = vec![0xff, 0xff, 0xff, 0xff];
    for (_, bytes) in server_samples() {
        data.extend(bytes);
    }
    match Packet::<ServerMessage>::try_from(data) {
        Ok(Packet::Unsequenced(messages)) => {
            let expected: Vec<String> =
                server_samples().iter().map(|(m, _)| format!("{:?}", m)).collect();
            let got: Vec<String> = messages.iter().map(|m| format!("{:?}", m)).collect();
            assert_eq!(got, expected);
        }
        other => panic!("{:?}", other),
    }
    match Packet::<ClientMessage>::try_from(vec![0xff, 0xff, 0xff, 0xff]) {
        Ok(Packet::Unsequenced(messages)) => assert!(messages.is_empty()),
        other => panic!("{:?}", other),
    }
}

#[test]
fn any_other_sequence_number_makes_a_sequenced_packet() {
    match Packet::<ClientMessage>::try_from(vec![0, 0, 0, 3, 1, 99]) {
        Ok(Packet::Sequenced(p)) => {
            assert_eq!(p.sequence, 3);
            assert_eq!(p.data, vec![1, 99]);
        }
        other => panic!("{:?}", other),
    }
    match Packet::<ClientMessage>::from(SequencedPacket { sequence: 4, data: vec![1] }) {
        Packet::Sequenced(p) => assert_eq!((p.sequence, p.data), (4, vec![1])),
        other => panic!("{:?}", other),
    }
}

#[test]
fn a_packet_with_an_unreadable_message_is_an_error() {
    let r = Packet::<ClientMessage>::try_from(vec![0xff, 0xff, 0xff, 0xff, 1, 1, 7]);
    assert_eq!(r.err(), Some(ProtocolError::UnknownMessage(7)));
    let r = Packet::<ClientMessage>::try_from(vec![0xff, 0xff, 0xff, 0xff, 1, 2, 0, 0, 0, 9, 1]);
    assert_eq!(r.err(), Some(ProtocolError::UnexpectedEof));
    let r = Packet::<ServerMessage>::try_from(vec![0xff, 0xff, 0xff]);
    assert_eq!(r.err(), Some(ProtocolError::UnexpectedEof));
}
