use replica::{
    Action, Address, ClientEntry, Message, Op, Replica, ReplicaConfig, Status,
    DEFAULT_IDLE_THRESHOLD,
};
use std::collections::VecDeque;

const CLIENT: usize = usize::MAX;

fn config(n: usize) -> ReplicaConfig {
    let mut c = ReplicaConfig::new();
    for id in 0..n {
        c.append_new(id, Address { host: [127, 0, 0, 1], port: 1337 + id as u16 });
    }
    c
}

struct Cluster {
    replicas: Vec<Replica>,
    down: Vec<bool>,
    queue: VecDeque<(usize, usize, Message)>,
    replies: Vec<(usize, usize, u64)>,
    start_views: Vec<(usize, usize)>,
}

impl Cluster {
    fn new(n: usize) -> Cluster {
        Cluster {
            replicas: (0..n).map(|id| Replica::new(id, config(n))).collect(),
            down: vec![false; n],
            queue: VecDeque::new(),
            replies: Vec::new(),
            start_views: Vec::new(),
        }
    }

    fn dispatch(&mut self, from: usize, actions: Vec<Action>) {
        for a in actions {
            match a {
                Action::Send { to, message } => self.queue.push_back((from, to, message)),
                Action::Broadcast { message } => {
                    if let Message::StartView { view_number, .. } = &message {
                        self.start_views.push((from, *view_number));
                    }
                    for to in 0..self.replicas.len() {
                        if to != from {
                            self.queue.push_back((from, to, message.clone()));
                        }
                    }
                }
                Action::Reply { client_id, request_number, reply } => {
                    self.replies.push((client_id, request_number, reply))
                }
            }
        }
    }

    fn run_dropping(&mut self, drop: &dyn Fn(usize, usize, &Message) -> bool) {
        let mut steps = 0;
        while let Some((from, to, message)) = self.queue.pop_front() {
            steps += 1;
            assert!(steps < 10_000);
            if self.down[to] || drop(from, to, &message) {
                continue;
            }
            let actions = self.replicas[to].on_message(from, message);
            self.dispatch(to, actions);
        }
    }

    fn run(&mut self) {
        self.run_dropping(&|_, _, _| false);
    }

    fn request(&mut self, to: usize, client_id: usize, request_number: usize, op: Op) {
        let actions = self.replicas[to]
            .on_message(CLIENT, Message::Request { client_id, request_number, op });
        self.dispatch(to, actions);
    }

    fn tick(&mut self, id: usize) {
        let actions = self.replicas[id].on_timer();
        self.dispatch(id, actions);
    }
}

fn scenario_one() -> Cluster {
    let mut c = Cluster::new(3);
    c.request(0, 42, 1, Op::Add(7));
    c.run();
    c
}

#[test]
fn normal_case_commits_at_primary() {
    let c = scenario_one();
    assert_eq!(c.replicas[0].state_value(), 7);
    assert_eq!(c.replicas[0].commit_number(), 1);
    assert_eq!(
        c.replicas[0].client_entry(42),
        Some(ClientEntry { request_number: 1, reply: Some(7) })
    );
    assert_eq!(c.replies, vec![(42, 1, 7)]);
    for r in &c.replicas {
        assert_eq!(r.log(), &vec![Op::Add(7)]);
        assert_eq!(r.op_number(), 1);
    }
}

#[test]
fn duplicate_retry_gets_cached_reply() {
    let mut c = scenario_one();
    c.request(0, 42, 1, Op::Add(7));
    c.run();
    assert_eq!(c.replies, vec![(42, 1, 7), (42, 1, 7)]);
    assert_eq!(c.replicas[0].state_value(), 7);
    assert_eq!(c.replicas[0].op_number(), 1);
    c.request(0, 42, 0, Op::Add(7));
    c.run();
    assert_eq!(c.replies.len(), 2);
    assert_eq!(c.replicas[0].op_number(), 1);
}

#[test]
fn primary_silence_elects_next_primary() {
    let mut c = scenario_one();
    c.down[0] = true;
    for _ in 0..=DEFAULT_IDLE_THRESHOLD {
        c.tick(1);
    }
    assert_eq!(c.replicas[1].status(), Status::ViewChange);
    c.run();
    assert_eq!(c.replicas[1].view_number(), 1);
    assert_eq!(c.replicas[1].status(), Status::Normal);
    assert!(c.replicas[1].is_primary());
    assert_eq!(c.replicas[2].view_number(), 1);
    assert_eq!(c.replicas[2].status(), Status::Normal);
    assert!(!c.replicas[2].is_primary());
    assert_eq!(c.start_views, vec![(1, 1)]);
    assert_eq!(c.replicas[1].log(), &vec![Op::Add(7)]);
    assert_eq!(c.replicas[2].log(), &vec![Op::Add(7)]);
}

#[test]
fn gap_is_recovered_by_state_transfer() {
    let mut c = Cluster::new(3);
    c.request(0, 1, 1, Op::Add(1));
    c.run();
    c.request(0, 1, 2, Op::Add(2));
    c.run_dropping(&|_, to, m| to == 2 && matches!(m, Message::Prepare { op_number: 2, .. }));
    assert_eq!(c.replicas[2].op_number(), 1);
    c.request(0, 1, 3, Op::Add(3));
    c.run();
    assert_eq!(c.replicas[2].status(), Status::Normal);
    assert_eq!(c.replicas[2].log(), c.replicas[0].log());
    assert_eq!(c.replicas[2].op_number(), 3);
    assert_eq!(c.replicas[2].commit_number(), c.replicas[0].commit_number());
    assert_eq!(c.replicas[0].commit_number(), 3);
    assert_eq!(c.replicas[2].state_value(), 6);
}

#[test]
fn view_change_picks_longest_log() {
    let mut c = Cluster::new(3);
    c.request(0, 1, 1, Op::Add(7));
    c.run();
    c.request(0, 1, 2, Op::Add(9));
    c.run_dropping(&|_, to, m| to == 2 && matches!(m, Message::Prepare { .. }));
    assert_eq!(c.replicas[1].log(), &vec![Op::Add(7), Op::Add(9)]);
    assert_eq!(c.replicas[2].log(), &vec![Op::Add(7)]);
    c.down[0] = true;
    for _ in 0..=DEFAULT_IDLE_THRESHOLD {
        c.tick(1);
        c.tick(2);
    }
    c.run();
    assert_eq!(c.start_views, vec![(1, 1)]);
    assert_eq!(c.replicas[1].status(), Status::Normal);
    assert_eq!(c.replicas[1].op_number(), 2);
    assert_eq!(c.replicas[2].status(), Status::Normal);
    assert_eq!(c.replicas[2].log(), &vec![Op::Add(7), Op::Add(9)]);
    assert_eq!(c.replicas[2].op_number(), 2);
}

#[test]
fn commit_heartbeat_advances_backup() {
    let mut backup = Replica::new(1, config(3));
    let commits = [0usize, 1, 2, 3, 3];
    for (i, k) in commits.iter().enumerate() {
        let acts = backup.on_message(
            0,
            Message::Prepare {
                view_number: 0,
                op: Op::Add(i as u64 + 1),
                op_number: i + 1,
                commit_number: *k,
            },
        );
        assert_eq!(
            acts,
            vec![Action::Send {
                to: 0,
                message: Message::PrepareOk { view_number: 0, op_number: i + 1 },
            }]
        );
    }
    assert_eq!(backup.commit_number(), 3);
    assert_eq!(backup.op_number(), 5);
    assert_eq!(backup.state_value(), 6);
    let acts = backup.on_message(0, Message::Commit { view_number: 0, commit_number: 5 });
    assert!(acts.is_empty());
    assert_eq!(backup.commit_number(), 5);
    assert_eq!(backup.state_value(), 15);
}

#[test]
fn commit_beyond_log_starts_state_transfer() {
    let mut backup = Replica::new(2, config(3));
    let acts = backup.on_message(0, Message::Commit { view_number: 0, commit_number: 4 });
    assert_eq!(backup.status(), Status::Recovering);
    assert_eq!(
        acts,
        vec![Action::Send {
            to: 0,
            message: Message::GetState { replica_id: 2, view_number: 0, op_number: 0 },
        }]
    );
}

#[test]
fn counters_never_decrease_during_view_change() {
    let mut c = Cluster::new(3);
    c.request(0, 1, 1, Op::Add(7));
    c.run();
    c.down[0] = true;
    for _ in 0..=DEFAULT_IDLE_THRESHOLD {
        c.tick(1);
        c.tick(2);
    }
    while let Some((from, to, message)) = c.queue.pop_front() {
        if c.down[to] {
            continue;
        }
        let before = (
            c.replicas[to].view_number(),
            c.replicas[to].op_number(),
            c.replicas[to].commit_number(),
        );
        let actions = c.replicas[to].on_message(from, message);
        assert!(c.replicas[to].view_number() >= before.0);
        assert!(c.replicas[to].op_number() >= before.1);
        assert!(c.replicas[to].commit_number() >= before.2);
        c.dispatch(to, actions);
    }
}

#[test]
fn duplicate_acks_do_not_reach_quorum() {
    let mut primary = Replica::new(0, config(5));
    assert_eq!(primary.quorum(), 3);
    primary.on_message(CLIENT, Message::Request { client_id: 9, request_number: 1, op: Op::Add(4) });
    let ack = Message::PrepareOk { view_number: 0, op_number: 1 };
    assert!(primary.on_message(1, ack.clone()).is_empty());
    assert!(primary.on_message(1, ack.clone()).is_empty());
    assert_eq!(primary.commit_number(), 0);
    assert_eq!(primary.on_message(2, ack), vec![Action::Reply {
        client_id: 9,
        request_number: 1,
        reply: 4,
    }]);
    assert_eq!(primary.commit_number(), 1);
}

#[test]
fn committed_entries_agree_across_replicas() {
    let mut c = Cluster::new(3);
    for r in 1..=4 {
        c.request(0, 5, r, Op::Add(r as u64));
        c.run();
    }
    c.tick(0);
    c.run();
    for r in &c.replicas {
        let k = r.commit_number();
        assert_eq!(k, 4);
        assert_eq!(&r.log()[..k], &c.replicas[0].log()[..k]);
        assert_eq!(r.state_value(), 10);
    }
}

#[test]
fn request_to_backup_is_dropped() {
    let mut backup = Replica::new(1, config(3));
    let acts = backup.on_message(CLIENT, Message::Request {
        client_id: 1,
        request_number: 1,
        op: Op::Nop,
    });
    assert!(acts.is_empty());
    assert_eq!(backup.op_number(), 0);
}

#[test]
fn commit_is_dropped_unless_normal() {
    let mut backup = Replica::new(2, config(3));
    for _ in 0..=DEFAULT_IDLE_THRESHOLD {
        backup.on_timer();
    }
    assert_eq!(backup.status(), Status::ViewChange);
    assert_eq!(backup.view_number(), 1);
    let acts = backup.on_message(0, Message::Commit { view_number: 3, commit_number: 1 });
    assert!(acts.is_empty());
    assert_eq!(backup.status(), Status::ViewChange);
    assert_eq!(backup.view_number(), 1);
    assert_eq!(backup.commit_number(), 0);
}
