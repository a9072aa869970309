use replica::{Client, Message, Op, ProtocolError, Request};

fn all_messages() -> Vec<Message> {
    vec![
        Message::Request { client_id: 42, request_number: 1, op: Op::Add(7) },
        Message::Request { client_id: usize::MAX, request_number: 0, op: Op::Nop },
        Message::Prepare { view_number: 3, op: Op::Add(u64::MAX), op_number: 9, commit_number: 8 },
        Message::PrepareOk { view_number: 5, op_number: 6 },
        Message::Commit { view_number: 7, commit_number: 11 },
        Message::GetState { replica_id: 2, view_number: 1, op_number: 4 },
        Message::NewState {
            view_number: 1,
            log: vec![Op::Add(9), Op::Nop],
            op_number: 3,
            commit_number: 2,
        },
        Message::NewState { view_number: 0, log: vec![], op_number: 0, commit_number: 0 },
        Message::StartViewChange { view_number: 12, replica_id: 1 },
        Message::DoViewChange {
            view_number: 1,
            op_number: 0,
            replica_id: 2,
            commit_number: 0,
            log: vec![],
        },
        Message::StartView {
            view_number: 1,
            op_number: 2,
            replica_id: 1,
            commit_number: 1,
            log: vec![Op::Add(7), Op::Add(9)],
        },
    ]
}

#[test]
fn every_message_round_trips_and_length_prefix_matches() {
    for m in all_messages() {
        let bytes = m.to_bytes();
        let len = u32::from_le_bytes([bytes[0], bytes[1], bytes[2], bytes[3]]) as usize;
        assert_eq!(len, bytes.len() - 4);
        assert_eq!(Message::parse_message(&bytes[4..]), Ok(m.clone()));
        assert_eq!(Message::parse_frame(&bytes), Ok(m.clone()));
        assert!(m.fits_in_frame());
    }
}

#[test]
fn op_encoding_is_tag_then_little_endian_operand() {
    assert_eq!(Op::Nop.to_bytes(), vec![0]);
    assert_eq!(Op::Add(0x0102).to_bytes(), vec![1, 0x02, 0x01, 0, 0, 0, 0, 0, 0]);
    assert_eq!(Op::from_bytes(&[0, 9, 9]), Ok((Op::Nop, 1)));
    assert_eq!(Op::from_bytes(&[1, 7, 0, 0, 0, 0, 0, 0, 0, 5]), Ok((Op::Add(7), 9)));
}

#[test]
fn op_decoding_rejects_unknown_tag_and_truncation() {
    assert_eq!(Op::from_bytes(&[2]), Err(ProtocolError));
    assert_eq!(Op::from_bytes(&[]), Err(ProtocolError));
    assert_eq!(Op::from_bytes(&[1, 7, 0, 0]), Err(ProtocolError));
}

#[test]
fn prepare_fields_are_in_wire_order() {
    let m = Message::Prepare { view_number: 1, op: Op::Nop, op_number: 3, commit_number: 2 };
    let bytes = m.to_bytes();
    assert_eq!(bytes.len(), 4 + 1 + 24 + 1);
    assert_eq!(&bytes[0..4], &[26, 0, 0, 0]);
    assert_eq!(bytes[4], 2);
    assert_eq!(bytes[5], 1);
    assert_eq!(bytes[13], 2);
    assert_eq!(bytes[21], 3);
    assert_eq!(bytes[29], 0);
}

#[test]
fn parse_rejects_unknown_discriminator() {
    assert_eq!(Message::parse_message(&[10, 0, 0]), Err(ProtocolError));
    assert_eq!(Message::parse_message(&[0]), Err(ProtocolError));
    assert_eq!(Message::parse_message(&[]), Err(ProtocolError));
}

#[test]
fn parse_rejects_truncated_and_trailing_bytes() {
    let body = Message::Commit { view_number: 1, commit_number: 2 }.to_bytes();
    assert_eq!(Message::parse_message(&body[4..body.len() - 1]), Err(ProtocolError));
    let mut longer = body[4..].to_vec();
    longer.push(0);
    assert_eq!(Message::parse_message(&longer), Err(ProtocolError));
    let log = Message::StartView {
        view_number: 1,
        op_number: 1,
        replica_id: 1,
        commit_number: 0,
        log: vec![Op::Add(3)],
    }
    .to_bytes();
    assert_eq!(Message::parse_message(&log[4..log.len() - 2]), Err(ProtocolError));
}

#[test]
fn parse_frame_rejects_length_mismatch() {
    let mut bytes = Message::PrepareOk { view_number: 1, op_number: 1 }.to_bytes();
    bytes[0] = bytes[0] + 1;
    assert_eq!(Message::parse_frame(&bytes), Err(ProtocolError));
    assert_eq!(Message::parse_frame(&[1, 0]), Err(ProtocolError));
}

#[test]
fn request_frame_matches_message_request() {
    let client = Client::new(69);
    assert_eq!(client.id, 69);
    assert_eq!(client.request_number, 0);
    let request = Request::new(client.id, 5, Op::Add(3));
    let bytes = request.to_bytes();
    let expected = Message::Request { client_id: 69, request_number: 5, op: Op::Add(3) }.to_bytes();
    assert_eq!(bytes, expected);
    assert_eq!(bytes.len(), 4 + 26);
    assert_eq!(Message::parse_frame(&bytes), Ok(Message::Request {
        client_id: 69,
        request_number: 5,
        op: Op::Add(3),
    }));
}
