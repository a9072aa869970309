use replica::{Message, Op};

fn generate_log() -> Vec<Op> {
    std::iter::repeat(Op::Add(69)).take(10).collect()
}

fn generate_start_view_message() -> Message {
    let view_number = 1;
    let op_number = 2;
    let replica_id = 3;
    let commit_number = 4;
    let log = generate_log();

    Message::StartView {
        view_number,
        op_number,
        replica_id,
        commit_number,
        log,
    }
}

fn generate_do_view_change_message() -> Message {
    let view_number = 1;
    let op_number = 2;
    let replica_id = 3;
    let commit_number = 4;
    let log = generate_log();

    Message::DoViewChange {
        view_number,
        op_number,
        replica_id,
        commit_number,
        log,
    }
}

#[test]
fn serializing_and_deserializing_start_view_message_should_maintain_correct_schema() {
    let message = generate_start_view_message();
    let bytes = message.to_bytes();
    let message_deserialized = Message::parse_message(&bytes[4..]).unwrap();

    assert_eq!(message, message_deserialized);
}

#[test]
fn serializing_and_deserializing_do_view_change_message_should_maintain_correct_schema() {
    let message = generate_do_view_change_message();
    let bytes = message.to_bytes();
    let message_deserialized = Message::parse_message(&bytes[4..]).unwrap();

    assert_eq!(message, message_deserialized);
}
