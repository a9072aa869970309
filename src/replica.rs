//! One replica: the executable protocol handlers, each proved to do exactly what
//! `protocol` says.

use vstd::prelude::*;
use std::collections::{HashMap, HashSet};
use crate::client_table::{ClientEntry, ClientTable, Consultation};
use crate::config::ReplicaConfig;
use crate::message::Message;
use crate::op::Op;
use crate::protocol::{self, ActionView, PendingRequest, ReplicaView, SnapshotView, Status};
use crate::stm::StateMachine;

verus! {

broadcast use vstd::std_specs::hash::group_hash_axioms;

/// How many silent ticks a backup tolerates by default before it starts a view change.
pub const DEFAULT_IDLE_THRESHOLD: usize = 1;

/// What a handler asks its transport to do.
#[derive(Debug, Clone, PartialEq)]
pub enum Action {
    /// Send `message` to replica `to`.
    Send { to: usize, message: Message },
    /// Send `message` to every other replica.
    Broadcast { message: Message },
    /// Answer a client's request.
    Reply { client_id: usize, request_number: usize, reply: u64 },
}

impl View for Action {
    type V = ActionView;

    open spec fn view(&self) -> ActionView {
        match self {
            Action::Send { to, message } => ActionView::Send { to: *to, message: message@ },
            Action::Broadcast { message } => ActionView::Broadcast { message: message@ },
            Action::Reply { client_id, request_number, reply } => ActionView::Reply {
                client_id: *client_id,
                request_number: *request_number,
                reply: *reply,
            },
        }
    }
}

/// The views of a sequence of actions.
pub open spec fn actions_view(acts: Seq<Action>) -> Seq<ActionView> {
    acts.map_values(|a: Action| a@)
}

/// The best log offered by a `DoViewChange` so far.
struct ViewSnapshot {
    view_number: usize,
    op_number: usize,
    commit_number: usize,
    log: Vec<Op>,
}

/// One replica of the cluster.
pub struct Replica {
    id: usize,
    config: ReplicaConfig,
    idle_threshold: usize,
    status: Status,
    view_number: usize,
    op_number: usize,
    commit_number: usize,
    log: Vec<Op>,
    clients_table: ClientTable,
    pending: HashMap<usize, PendingRequest>,
    acks: HashMap<usize, HashSet<usize>>,
    backup_idle_ticks: usize,
    start_view_change_acks: HashSet<usize>,
    do_view_change_acks: HashSet<usize>,
    view_snapshot: Option<ViewSnapshot>,
    stm: StateMachine,
}

/// The views of the acknowledgement sets.
pub open spec fn acks_view(acks: Map<usize, HashSet<usize>>) -> Map<usize, Set<usize>> {
    acks.map_values(|s: HashSet<usize>| s@)
}

impl View for Replica {
    type V = ReplicaView;

    closed spec fn view(&self) -> ReplicaView {
        ReplicaView {
            id: self.id,
            size: self.config.replicas.len(),
            idle_threshold: self.idle_threshold,
            status: self.status,
            view_number: self.view_number,
            op_number: self.op_number,
            commit_number: self.commit_number,
            log: self.log@,
            client_table: self.clients_table@,
            pending: self.pending@,
            acks: acks_view(self.acks@),
            idle_ticks: self.backup_idle_ticks,
            start_view_change_acks: self.start_view_change_acks@,
            do_view_change_acks: self.do_view_change_acks@,
            snapshot: match self.view_snapshot {
                Some(sn) => Some(
                    SnapshotView {
                        view_number: sn.view_number,
                        op_number: sn.op_number,
                        commit_number: sn.commit_number,
                        log: sn.log@,
                    },
                ),
                None => None,
            },
            state: self.stm@,
        }
    }
}

/// A copy of `v[lo..hi]`.
fn copy_range(v: &Vec<Op>, lo: usize, hi: usize) -> (r: Vec<Op>)
    requires
        lo <= hi <= v@.len(),
    ensures
        r@ == v@.subrange(lo as int, hi as int),
{
    let mut r: Vec<Op> = Vec::new();
    let mut i = lo;
    while i < hi
        invariant
            lo <= i <= hi <= v@.len(),
            r@ == v@.subrange(lo as int, i as int),
        decreases hi - i,
    {
        r.push(v[i]);
        i = i + 1;
        assert(r@ =~= v@.subrange(lo as int, i as int));
    }
    r
}

impl Replica {
    /// The invariant every replica keeps.
    pub closed spec fn inv(&self) -> bool {
        &&& self@.wf()
        &&& self.config.wf()
    }

    /// A replica that keeps its invariant is in a well-formed state: at least one replica,
    /// `commit_number <= op_number`, and a log of `op_number` entries.
    pub proof fn lemma_inv_wf(&self)
        requires
            self.inv(),
        ensures
            self@.wf(),
    {
    }

    /// Replica `id` of the cluster `config`, which starts a view change after
    /// `idle_threshold` silent ticks.
    pub fn with_idle_threshold(id: usize, config: ReplicaConfig, idle_threshold: usize) -> (r:
        Replica)
        requires
            config.wf(),
            id < config.size(),
            idle_threshold >= 1,
        ensures
            r.inv(),
            r@ == protocol::initial(id, config.replicas@.len() as usize, idle_threshold),
    {
        let r = Replica {
            id,
            config,
            idle_threshold,
            status: Status::Normal,
            view_number: 0,
            op_number: 0,
            commit_number: 0,
            log: Vec::new(),
            clients_table: ClientTable::new(),
            pending: HashMap::new(),
            acks: HashMap::new(),
            backup_idle_ticks: 0,
            start_view_change_acks: HashSet::new(),
            do_view_change_acks: HashSet::new(),
            view_snapshot: None,
            stm: StateMachine::new(),
        };
        assert(acks_view(r.acks@) =~= Map::<usize, Set<usize>>::empty());
        assert(r@ =~= protocol::initial(id, config.replicas@.len() as usize, idle_threshold));
        r
    }

    /// Replica `id` of the cluster `config`, with the default idle threshold.
    pub fn new(id: usize, config: ReplicaConfig) -> (r: Replica)
        requires
            config.wf(),
            id < config.size(),
        ensures
            r.inv(),
            r@ == protocol::initial(id, config.replicas@.len() as usize, DEFAULT_IDLE_THRESHOLD),
    {
        Self::with_idle_threshold(id, config, DEFAULT_IDLE_THRESHOLD)
    }

    /// The number of replicas in the cluster.
    pub fn number_of_replicas(&self) -> (r: usize)
        requires
            self.inv(),
        ensures
            r == self@.size,
    {
        self.config.replicas.len()
    }

    /// `floor(N / 2) + 1`.
    pub fn quorum(&self) -> (r: usize)
        requires
            self.inv(),
        ensures
            r == protocol::quorum(self@.size),
    {
        self.config.replicas.len() / 2 + 1
    }

    /// Whether this replica is the primary of its current view.
    pub fn is_primary(&self) -> (r: bool)
        requires
            self.inv(),
        ensures
            r == self@.is_primary(),
    {
        self.id == self.config.primary_id(self.view_number)
    }

    /// The primary of view `v`.
    fn primary_of(&self, v: usize) -> (r: usize)
        requires
            self.inv(),
        ensures
            r == protocol::primary_of(v, self@.size),
    {
        self.config.primary_id(v)
    }

    pub fn id(&self) -> (r: usize)
        ensures
            r == self@.id,
    {
        self.id
    }

    pub fn status(&self) -> (r: Status)
        ensures
            r == self@.status,
    {
        self.status
    }

    pub fn view_number(&self) -> (r: usize)
        ensures
            r == self@.view_number,
    {
        self.view_number
    }

    pub fn op_number(&self) -> (r: usize)
        ensures
            r == self@.op_number,
    {
        self.op_number
    }

    pub fn commit_number(&self) -> (r: usize)
        ensures
            r == self@.commit_number,
    {
        self.commit_number
    }

    /// The log, oldest entry first.
    pub fn log(&self) -> (r: &Vec<Op>)
        ensures
            r@ == self@.log,
    {
        &self.log
    }

    /// The client table's entry for `client_id`.
    pub fn client_entry(&self, client_id: usize) -> (r: Option<ClientEntry>)
        ensures
            r == (if self@.client_table.contains_key(client_id) {
                Some(self@.client_table[client_id])
            } else {
                None
            }),
    {
        self.clients_table.get(client_id)
    }

    /// The state machine's accumulator.
    pub fn state_value(&self) -> (r: u64)
        ensures
            r == self@.state,
    {
        self.stm.value()
    }

    /// Commits every entry up to op-number `target`, in order, and answers the clients of
    /// the entries this replica accepted as primary.
    fn commit_through(&mut self, target: usize) -> (r: Vec<Action>)
        requires
            old(self).inv(),
        ensures
            final(self).inv(),
            (final(self)@, actions_view(r@)) == protocol::commit_upto(old(self)@, target),
    {
        let ghost s0 = self@;
        let mut actions: Vec<Action> = Vec::new();
        assert(actions_view(actions@) + protocol::commit_upto(self@, target).1 =~= protocol::commit_upto(self@, target).1);
        while self.commit_number < target && target <= self.op_number
            invariant
                self.inv(),
                protocol::commit_upto(s0, target) == (
                    protocol::commit_upto(self@, target).0,
                    actions_view(actions@) + protocol::commit_upto(self@, target).1,
                ),
            decreases target - self.commit_number,
        {
            let ghost cur = self@;
            let ghost acts0 = actions@;
            let j = self.commit_number + 1;
            let op = self.log[j - 1];
            let reply = self.stm.apply(op);
            self.commit_number = j;
            match self.pending.get(&j) {
                Some(p) => {
                    let p = *p;
                    self.clients_table.record_reply(p.client_id, p.request_number, reply);
                    actions.push(
                        Action::Reply {
                            client_id: p.client_id,
                            request_number: p.request_number,
                            reply,
                        },
                    );
                },
                None => {},
            }
            proof {
                let (t, a) = protocol::commit_one(cur);
                assert(self@ =~= t);
                assert(actions_view(actions@) =~= actions_view(acts0) + a);
                let (u, b) = protocol::commit_upto(t, target);
                assert(actions_view(acts0) + (a + b) =~= actions_view(actions@) + b);
            }
        }
        assert(actions_view(actions@) + Seq::<ActionView>::empty() =~= actions_view(actions@));
        actions
    }

    /// Appends `op` to the log; the op-number grows by one.
    pub fn append_to_log(&mut self, op: Op)
        requires
            old(self).inv(),
            old(self)@.op_number < usize::MAX,
        ensures
            final(self).inv(),
            final(self)@ == (ReplicaView {
                log: old(self)@.log.push(op),
                op_number: (old(self)@.op_number + 1) as usize,
                ..old(self)@
            }),
    {
        self.log.push(op);
        self.op_number = self.op_number + 1;
        assert(self@ =~= ReplicaView {
            log: old(self)@.log.push(op),
            op_number: (old(self)@.op_number + 1) as usize,
            ..old(self)@
        });
    }

    /// Records that replica `from` holds the entry at `op_number`.
    pub fn ack_op(&mut self, from: usize, op_number: usize)
        requires
            old(self).inv(),
        ensures
            final(self).inv(),
            final(self)@ == (ReplicaView {
                acks: old(self)@.acks.insert(
                    op_number,
                    protocol::acks_of(old(self)@, op_number).insert(from),
                ),
                ..old(self)@
            }),
    {
        let mut acked = match self.acks.remove(&op_number) {
            Some(set) => set,
            None => HashSet::new(),
        };
        assert(acked@ == protocol::acks_of(old(self)@, op_number));
        acked.insert(from);
        self.acks.insert(op_number, acked);
        proof {
            let acked_view = protocol::acks_of(old(self)@, op_number).insert(from);
            assert(acks_view(self.acks@) =~= old(self)@.acks.insert(op_number, acked_view));
            assert(self@ =~= ReplicaView {
                acks: old(self)@.acks.insert(op_number, acked_view),
                ..old(self)@
            });
        }
    }

    /// Whether a quorum holds the entry at `op_number`.
    pub fn quorum_for_op(&self, op_number: usize) -> (r: bool)
        requires
            self.inv(),
        ensures
            r == (protocol::acks_of(self@, op_number).len() >= protocol::quorum(self@.size)),
    {
        match self.acks.get(&op_number) {
            Some(set) => set.len() >= self.quorum(),
            None => false,
        }
    }

    /// Moves to view `v` with `status`, forgetting what belonged to the previous view.
    fn enter_view(&mut self, v: usize, status: Status)
        requires
            old(self).inv(),
        ensures
            final(self).inv(),
            final(self)@ == protocol::enter_view(old(self)@, v, status),
    {
        self.view_number = v;
        self.status = status;
        self.acks = HashMap::new();
        self.pending = HashMap::new();
        self.backup_idle_ticks = 0;
        self.start_view_change_acks = HashSet::new();
        self.do_view_change_acks = HashSet::new();
        self.view_snapshot = None;
        assert(acks_view(self.acks@) =~= Map::<usize, Set<usize>>::empty());
        assert(self@ =~= protocol::enter_view(old(self)@, v, status));
    }

    /// Asks the primary of view `v` for the entries this replica lacks.
    fn state_transfer(&mut self, v: usize) -> (r: Vec<Action>)
        requires
            old(self).inv(),
        ensures
            final(self).inv(),
            (final(self)@, actions_view(r@)) == protocol::state_transfer(old(self)@, v),
    {
        let to = self.primary_of(v);
        let op_number = self.op_number;
        self.enter_view(v, Status::Recovering);
        let r = vec![
            Action::Send {
                to,
                message: Message::GetState { replica_id: self.id, view_number: v, op_number },
            },
        ];
        assert(actions_view(r@) =~= protocol::state_transfer(old(self)@, v).1);
        r
    }

    /// A client request, at the primary: a new request is appended and sent to the
    /// backups; a retry of an executed request gets its cached reply.
    pub fn on_request(&mut self, client_id: usize, request_number: usize, op: Op) -> (r: Vec<Action>)
        requires
            old(self).inv(),
        ensures
            final(self).inv(),
            (final(self)@, actions_view(r@)) == protocol::on_request(
                old(self)@,
                client_id,
                request_number,
                op,
            ),
    {
        if self.status != Status::Normal || !self.is_primary() || self.op_number == usize::MAX {
            return Vec::new();
        }
        match self.clients_table.consult(client_id, request_number) {
            Consultation::Drop => Vec::new(),
            Consultation::Resend(reply) => {
                let r = vec![Action::Reply { client_id, request_number, reply }];
                assert(actions_view(r@) =~= protocol::on_request(
                    old(self)@,
                    client_id,
                    request_number,
                    op,
                ).1);
                r
            },
            Consultation::Accept => {
                self.append_to_log(op);
                let n = self.op_number;
                let mut acked: HashSet<usize> = HashSet::new();
                acked.insert(self.id);
                assert(acked@ =~= set![self.id]);
                self.acks.insert(n, acked);
                self.pending.insert(n, PendingRequest { client_id, request_number });
                self.clients_table.insert_pending(client_id, request_number);
                let r = vec![
                    Action::Broadcast {
                        message: Message::Prepare {
                            view_number: self.view_number,
                            op,
                            op_number: n,
                            commit_number: self.commit_number,
                        },
                    },
                ];
                proof {
                    let (t, a) = protocol::on_request(old(self)@, client_id, request_number, op);
                    assert(acks_view(self.acks@) =~= t.acks);
                    assert(self@ =~= t);
                    assert(actions_view(r@) =~= a);
                }
                r
            },
        }
    }

    /// A `Prepare` from the primary, at a backup.
    pub fn on_prepare(&mut self, view_number: usize, op_number: usize, op: Op, commit_number: usize) -> (r:
        Vec<Action>)
        requires
            old(self).inv(),
        ensures
            final(self).inv(),
            (final(self)@, actions_view(r@)) == protocol::on_prepare(
                old(self)@,
                view_number,
                op_number,
                op,
                commit_number,
            ),
    {
        self.backup_idle_ticks = 0;
        assert(self@ =~= ReplicaView { idle_ticks: 0, ..old(self)@ });
        if view_number < self.view_number {
            return Vec::new();
        }
        if view_number > self.view_number {
            if self.primary_of(view_number) == self.id {
                return Vec::new();
            }
            return self.state_transfer(view_number);
        }
        if self.status != Status::Normal || self.is_primary() || op_number <= self.op_number {
            return Vec::new();
        }
        if op_number - 1 > self.op_number {
            return self.state_transfer(view_number);
        }
        if commit_number > op_number {
            return Vec::new();
        }
        self.append_to_log(op);
        let ghost s1 = self@;
        assert(s1 =~= ReplicaView { op_number, log: old(self)@.log.push(op), idle_ticks: 0, ..old(self)@ });
        let to = self.primary_of(self.view_number);
        let mut r = self.commit_through(commit_number);
        let ghost a = r@;
        r.push(
            Action::Send {
                to,
                message: Message::PrepareOk { view_number: self.view_number, op_number },
            },
        );
        proof {
            protocol::lemma_commit_upto_frame(s1, commit_number);
            let (s2, b) = protocol::commit_upto(s1, commit_number);
            assert(actions_view(a) == b);
            assert(actions_view(r@) =~= b + seq![
                ActionView::Send {
                    to: protocol::primary_of(old(self)@.view_number, old(self)@.size),
                    message: crate::message::MessageView::PrepareOk { view_number: old(self)@.view_number, op_number },
                },
            ]);
        }
        r
    }

    /// A `PrepareOk` from backup `from`, at the primary: once a quorum holds the entry,
    /// everything up to it is committed.
    pub fn on_prepare_ok(&mut self, from: usize, view_number: usize, op_number: usize) -> (r: Vec<
        Action,
    >)
        requires
            old(self).inv(),
        ensures
            final(self).inv(),
            (final(self)@, actions_view(r@)) == protocol::on_prepare_ok(
                old(self)@,
                from,
                view_number,
                op_number,
            ),
    {
        if view_number != self.view_number || self.status != Status::Normal || !self.is_primary()
            || from >= self.config.replicas.len() || op_number == 0 || op_number > self.op_number {
            return Vec::new();
        }
        self.ack_op(from, op_number);
        if self.quorum_for_op(op_number) && op_number > self.commit_number {
            self.commit_through(op_number)
        } else {
            Vec::new()
        }
    }

    /// A `Commit` heartbeat from the primary, at a backup in `Normal` status (see
    /// `protocol::on_commit`).
    pub fn on_commit(&mut self, view_number: usize, commit_number: usize) -> (r: Vec<Action>)
        requires
            old(self).inv(),
        ensures
            final(self).inv(),
            (final(self)@, actions_view(r@)) == protocol::on_commit(
                old(self)@,
                view_number,
                commit_number,
            ),
    {
        if self.status != Status::Normal || view_number < self.view_number || (view_number
            == self.view_number && self.is_primary()) {
            return Vec::new();
        }
        if view_number > self.view_number {
            if self.primary_of(view_number) == self.id {
                return Vec::new();
            }
            return self.state_transfer(view_number);
        }
        self.backup_idle_ticks = 0;
        assert(self@ =~= ReplicaView { idle_ticks: 0, ..old(self)@ });
        if commit_number > self.op_number {
            return self.state_transfer(view_number);
        }
        self.commit_through(commit_number)
    }

    /// The `DoViewChange` for the current view, once a quorum asked for the view change.
    fn do_view_change_if_quorum(&self) -> (r: Vec<Action>)
        requires
            self.inv(),
        ensures
            actions_view(r@) == protocol::do_view_change_if_quorum(self@),
    {
        if self.start_view_change_acks.len() == self.quorum() {
            let r = vec![
                Action::Send {
                    to: self.primary_of(self.view_number),
                    message: Message::DoViewChange {
                        view_number: self.view_number,
                        op_number: self.op_number,
                        replica_id: self.id,
                        commit_number: self.commit_number,
                        log: copy_range(&self.log, 0, self.op_number),
                    },
                },
            ];
            assert(self.log@.subrange(0, self.op_number as int) =~= self.log@);
            assert(actions_view(r@) =~= protocol::do_view_change_if_quorum(self@));
            r
        } else {
            assert(actions_view(Seq::<Action>::empty()) =~= Seq::<ActionView>::empty());
            Vec::new()
        }
    }

    /// Starts the view change to view `v`.
    fn start_view_change(&mut self, v: usize) -> (r: Vec<Action>)
        requires
            old(self).inv(),
        ensures
            final(self).inv(),
            (final(self)@, actions_view(r@)) == protocol::start_view_change(old(self)@, v),
    {
        self.enter_view(v, Status::ViewChange);
        self.start_view_change_acks.insert(self.id);
        assert(self.start_view_change_acks@ =~= set![self.id]);
        let mut r = vec![
            Action::Broadcast {
                message: Message::StartViewChange { view_number: v, replica_id: self.id },
            },
        ];
        let ghost r0 = r@;
        let mut more = self.do_view_change_if_quorum();
        r.append(&mut more);
        proof {
            let (t, a) = protocol::start_view_change(old(self)@, v);
            assert(self@ =~= t);
            assert(actions_view(r@) =~= actions_view(r0) + protocol::do_view_change_if_quorum(t));
            assert(actions_view(r@) =~= a);
        }
        r
    }

    /// A timer tick: the primary sends a `Commit` heartbeat; a backup counts the tick and
    /// starts a view change once its primary has been silent for too long.
    pub fn on_timer(&mut self) -> (r: Vec<Action>)
        requires
            old(self).inv(),
        ensures
            final(self).inv(),
            (final(self)@, actions_view(r@)) == protocol::on_timer(old(self)@),
    {
        if self.status == Status::Normal && self.is_primary() {
            let r = vec![
                Action::Broadcast {
                    message: Message::Commit {
                        view_number: self.view_number,
                        commit_number: self.commit_number,
                    },
                },
            ];
            assert(actions_view(r@) =~= protocol::on_timer(old(self)@).1);
            return r;
        }
        if self.backup_idle_ticks < self.idle_threshold {
            self.backup_idle_ticks = self.backup_idle_ticks + 1;
            assert(self@ =~= protocol::on_timer(old(self)@).0);
            return Vec::new();
        }
        if self.view_number == usize::MAX {
            return Vec::new();
        }
        self.start_view_change(self.view_number + 1)
    }

    /// Counts `from` among the replicas that asked for the view change.
    fn count_start_view_change(&mut self, from: usize) -> (r: Vec<Action>)
        requires
            old(self).inv(),
        ensures
            final(self).inv(),
            (final(self)@, actions_view(r@)) == protocol::count_start_view_change(old(self)@, from),
    {
        if self.start_view_change_acks.contains(&from) {
            return Vec::new();
        }
        self.start_view_change_acks.insert(from);
        assert(self@ =~= ReplicaView {
            start_view_change_acks: old(self)@.start_view_change_acks.insert(from),
            ..old(self)@
        });
        self.do_view_change_if_quorum()
    }

    /// A `StartViewChange` from replica `from`.
    pub fn on_start_view_change(&mut self, view_number: usize, from: usize) -> (r: Vec<Action>)
        requires
            old(self).inv(),
        ensures
            final(self).inv(),
            (final(self)@, actions_view(r@)) == protocol::on_start_view_change(
                old(self)@,
                view_number,
                from,
            ),
    {
        if from >= self.config.replicas.len() || from == self.id || view_number < self.view_number
            || (view_number == self.view_number && self.status != Status::ViewChange) {
            return Vec::new();
        }
        if view_number > self.view_number {
            let mut r = self.start_view_change(view_number);
            let ghost r0 = r@;
            let mut more = self.count_start_view_change(from);
            let ghost r1 = more@;
            r.append(&mut more);
            assert(actions_view(r@) =~= actions_view(r0) + actions_view(r1));
            return r;
        }
        self.count_start_view_change(from)
    }

    /// The new primary adopts the best log, commits what it says is committed, and tells
    /// every other replica that the view has started.
    fn start_view(&mut self) -> (r: Vec<Action>)
        requires
            old(self).inv(),
        ensures
            final(self).inv(),
            (final(self)@, actions_view(r@)) == protocol::start_view(old(self)@),
    {
        let snapshot = self.view_snapshot.take();
        let commit_target = match snapshot {
            Some(sn) => {
                if sn.op_number >= self.commit_number {
                    self.log = sn.log;
                    self.op_number = sn.op_number;
                    sn.commit_number
                } else {
                    self.commit_number
                }
            },
            None => self.commit_number,
        };
        let v = self.view_number;
        self.enter_view(v, Status::Normal);
        let ghost t = self@;
        let ghost s = old(self)@;
        assert(t =~= ({
            let (log, n, k) = match s.snapshot {
                Some(sn) => if sn.op_number >= s.commit_number {
                    (sn.log, sn.op_number, sn.commit_number)
                } else {
                    (s.log, s.op_number, s.commit_number)
                },
                None => (s.log, s.op_number, s.commit_number),
            };
            ReplicaView { log, op_number: n, ..protocol::enter_view(s, s.view_number, Status::Normal) }
        }));
        let mut r = self.commit_through(commit_target);
        let ghost a = r@;
        r.push(
            Action::Broadcast {
                message: Message::StartView {
                    view_number: self.view_number,
                    op_number: self.op_number,
                    replica_id: self.id,
                    commit_number: self.commit_number,
                    log: copy_range(&self.log, 0, self.op_number),
                },
            },
        );
        proof {
            assert(self.log@.subrange(0, self.op_number as int) =~= self.log@);
            let (u, b) = protocol::start_view(s);
            assert(actions_view(r@) =~= b);
        }
        r
    }

    /// A `DoViewChange` from replica `from`, at the primary of the new view.
    pub fn on_do_view_change(
        &mut self,
        view_number: usize,
        op_number: usize,
        from: usize,
        commit_number: usize,
        log: Vec<Op>,
    ) -> (r: Vec<Action>)
        requires
            old(self).inv(),
        ensures
            final(self).inv(),
            (final(self)@, actions_view(r@)) == protocol::on_do_view_change(
                old(self)@,
                view_number,
                op_number,
                from,
                commit_number,
                log@,
            ),
    {
        if self.status == Status::Normal || view_number != self.view_number || !self.is_primary()
            || from >= self.config.replicas.len() || log.len() != op_number || commit_number
            > op_number {
            return Vec::new();
        }
        let above = match &self.view_snapshot {
            None => true,
            Some(sn) => view_number > sn.view_number || (view_number == sn.view_number && op_number
                > sn.op_number),
        };
        let ghost log_view = log@;
        if above {
            self.view_snapshot = Some(ViewSnapshot { view_number, op_number, commit_number, log });
        }
        let ghost s = old(self)@;
        let ghost s1 = if protocol::ranks_above(s.snapshot, view_number, op_number) {
            ReplicaView {
                snapshot: Some(SnapshotView { view_number, op_number, commit_number, log: log_view }),
                ..s
            }
        } else {
            s
        };
        assert(self@ =~= s1);
        if self.do_view_change_acks.contains(&from) {
            return Vec::new();
        }
        self.do_view_change_acks.insert(from);
        assert(self@ =~= ReplicaView {
            do_view_change_acks: s.do_view_change_acks.insert(from),
            ..s1
        });
        if self.do_view_change_acks.len() == self.quorum() {
            self.start_view()
        } else {
            Vec::new()
        }
    }

    /// A `StartView` from the primary of a new view.
    pub fn on_start_view(
        &mut self,
        view_number: usize,
        op_number: usize,
        from: usize,
        commit_number: usize,
        log: Vec<Op>,
    ) -> (r: Vec<Action>)
        requires
            old(self).inv(),
        ensures
            final(self).inv(),
            (final(self)@, actions_view(r@)) == protocol::on_start_view(
                old(self)@,
                view_number,
                op_number,
                from,
                commit_number,
                log@,
            ),
    {
        if from >= self.config.replicas.len() || from == self.id || from != self.primary_of(
            view_number,
        ) || log.len() != op_number || commit_number > op_number || op_number < self.commit_number
            || view_number < self.view_number || (view_number == self.view_number && self.status
            == Status::Normal) {
            return Vec::new();
        }
        let ghost log_view = log@;
        self.log = log;
        self.op_number = op_number;
        self.enter_view(view_number, Status::Normal);
        assert(self@ =~= ReplicaView {
            log: log_view,
            op_number,
            ..protocol::enter_view(old(self)@, view_number, Status::Normal)
        });
        self.commit_through(commit_number)
    }

    /// A `GetState` from a lagging replica `from`: it gets the entries after its
    /// `op_number`.
    pub fn on_get_state(&mut self, from: usize, view_number: usize, op_number: usize) -> (r: Vec<
        Action,
    >)
        requires
            old(self).inv(),
        ensures
            final(self).inv(),
            (final(self)@, actions_view(r@)) == protocol::on_get_state(
                old(self)@,
                from,
                view_number,
                op_number,
            ),
    {
        if view_number != self.view_number || self.status == Status::ViewChange || from
            >= self.config.replicas.len() {
            return Vec::new();
        }
        let lo = if op_number < self.op_number {
            op_number
        } else {
            self.op_number
        };
        let r = vec![
            Action::Send {
                to: from,
                message: Message::NewState {
                    view_number: self.view_number,
                    log: copy_range(&self.log, lo, self.op_number),
                    op_number: self.op_number,
                    commit_number: self.commit_number,
                },
            },
        ];
        assert(actions_view(r@) =~= protocol::on_get_state(old(self)@, from, view_number, op_number).1);
        r
    }

    /// A `NewState` answering this replica's `GetState`: the entries are appended, the
    /// committed ones executed, and the primary told.
    pub fn on_new_state(
        &mut self,
        view_number: usize,
        log: Vec<Op>,
        op_number: usize,
        commit_number: usize,
    ) -> (r: Vec<Action>)
        requires
            old(self).inv(),
        ensures
            final(self).inv(),
            (final(self)@, actions_view(r@)) == protocol::on_new_state(
                old(self)@,
                view_number,
                log@,
                op_number,
                commit_number,
            ),
    {
        if self.status != Status::Recovering || view_number != self.view_number || log.len()
            > op_number || self.op_number != op_number - log.len() || commit_number > op_number {
            return Vec::new();
        }
        let mut log = log;
        let ghost log_view = log@;
        self.log.append(&mut log);
        self.op_number = op_number;
        self.status = Status::Normal;
        self.backup_idle_ticks = 0;
        let ghost t = self@;
        assert(t =~= ReplicaView {
            log: old(self)@.log + log_view,
            op_number,
            status: Status::Normal,
            idle_ticks: 0,
            ..old(self)@
        });
        let to = self.primary_of(self.view_number);
        let mut r = self.commit_through(commit_number);
        let ghost a = r@;
        r.push(
            Action::Send {
                to,
                message: Message::PrepareOk { view_number: self.view_number, op_number },
            },
        );
        proof {
            protocol::lemma_commit_upto_frame(t, commit_number);
            assert(actions_view(a) == protocol::commit_upto(t, commit_number).1);
            let (u, b) = protocol::on_new_state(old(self)@, view_number, log_view, op_number, commit_number);
            assert(actions_view(r@) =~= b);
        }
        r
    }

    /// Handles one message from `from` (the replica, or client, the transport received it
    /// from), and returns what to send in response.
    pub fn on_message(&mut self, from: usize, message: Message) -> (r: Vec<Action>)
        requires
            old(self).inv(),
        ensures
            final(self).inv(),
            (final(self)@, actions_view(r@)) == protocol::on_message(old(self)@, from, message@),
    {
        match message {
            Message::Request { client_id, request_number, op } => self.on_request(
                client_id,
                request_number,
                op,
            ),
            Message::Prepare { view_number, op, op_number, commit_number } => self.on_prepare(
                view_number,
                op_number,
                op,
                commit_number,
            ),
            Message::PrepareOk { view_number, op_number } => self.on_prepare_ok(
                from,
                view_number,
                op_number,
            ),
            Message::Commit { view_number, commit_number } => self.on_commit(
                view_number,
                commit_number,
            ),
            Message::StartViewChange { view_number, replica_id } => self.on_start_view_change(
                view_number,
                replica_id,
            ),
            Message::DoViewChange { view_number, op_number, replica_id, commit_number, log } =>
                self.on_do_view_change(view_number, op_number, replica_id, commit_number, log),
            Message::StartView { view_number, op_number, replica_id, commit_number, log } =>
                self.on_start_view(view_number, op_number, replica_id, commit_number, log),
            Message::GetState { replica_id, view_number, op_number } => self.on_get_state(
                replica_id,
                view_number,
                op_number,
            ),
            Message::NewState { view_number, log, op_number, commit_number } => self.on_new_state(
                view_number,
                log,
                op_number,
                commit_number,
            ),
        }
    }
}

} // verus!
