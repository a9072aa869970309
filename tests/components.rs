use replica::{Address, ClientEntry, ClientTable, Consultation, Op, ReplicaConfig, StateMachine};

fn config(n: usize) -> ReplicaConfig {
    let mut c = ReplicaConfig::new();
    for id in 0..n {
        c.append_new(id, Address { host: [127, 0, 0, 1], port: 1337 + id as u16 });
    }
    c
}

#[test]
fn primary_is_view_modulo_size() {
    let c = config(3);
    assert!(c.is_valid());
    assert_eq!(c.primary_id(0), 0);
    assert_eq!(c.primary_id(1), 1);
    assert_eq!(c.primary_id(5), 2);
    assert_eq!(c.get_replica_address(2).port, 1339);
}

#[test]
fn config_validity() {
    assert!(!ReplicaConfig::new().is_valid());
    let mut c = ReplicaConfig::new();
    c.append_new(1, Address { host: [127, 0, 0, 1], port: 1 });
    assert!(!c.is_valid());
}

#[test]
fn state_machine_accumulates_and_wraps() {
    let mut stm = StateMachine::new();
    assert_eq!(stm.apply(Op::Add(7)), 7);
    assert_eq!(stm.apply(Op::Nop), 7);
    assert_eq!(stm.apply(Op::Add(u64::MAX)), 6);
    assert_eq!(stm.value(), 6);
}

#[test]
fn client_table_rules() {
    let mut t = ClientTable::new();
    assert_eq!(t.consult(42, 1), Consultation::Accept);
    t.insert_pending(42, 1);
    assert_eq!(t.consult(42, 1), Consultation::Drop);
    assert_eq!(t.consult(42, 0), Consultation::Drop);
    t.record_reply(42, 1, 7);
    assert_eq!(t.get(42), Some(ClientEntry { request_number: 1, reply: Some(7) }));
    assert_eq!(t.consult(42, 1), Consultation::Resend(7));
    assert_eq!(t.consult(42, 2), Consultation::Accept);
    t.record_reply(42, 1, 99);
    assert_eq!(t.get(42), Some(ClientEntry { request_number: 1, reply: Some(7) }));
    t.insert_pending(42, 3);
    t.record_reply(42, 2, 5);
    assert_eq!(t.get(42), Some(ClientEntry { request_number: 3, reply: None }));
}
