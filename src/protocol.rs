//! The replica protocol as a mathematical state machine: what each handler does to a
//! replica's state, and which messages it sends.

use vstd::prelude::*;
use crate::client_table::{consult, record_reply, ClientEntry, Consultation};
use crate::message::MessageView;
use crate::op::Op;
use crate::stm::apply_op;

verus! {

/// Where a replica stands in the protocol.
#[derive(Debug, Clone, Copy, PartialEq, Eq, Structural)]
pub enum Status {
    Normal,
    ViewChange,
    Recovering,
}

/// The client request behind a log entry that the primary has not yet committed.
#[derive(Debug, Clone, Copy, PartialEq, Eq, Structural)]
pub struct PendingRequest {
    pub client_id: usize,
    pub request_number: usize,
}

/// The best log offered by a `DoViewChange` so far.
#[verifier::ext_equal]
pub struct SnapshotView {
    pub view_number: usize,
    pub op_number: usize,
    pub commit_number: usize,
    pub log: Seq<Op>,
}

/// The state of one replica.
#[verifier::ext_equal]
pub struct ReplicaView {
    pub id: usize,
    /// The number of replicas in the cluster.
    pub size: usize,
    /// How many ticks a backup waits for its primary before it starts a view change.
    pub idle_threshold: usize,
    pub status: Status,
    pub view_number: usize,
    pub op_number: usize,
    pub commit_number: usize,
    pub log: Seq<Op>,
    pub client_table: Map<usize, ClientEntry>,
    /// For each uncommitted op-number that this replica accepted as primary, its request.
    pub pending: Map<usize, PendingRequest>,
    /// For each op-number, the replicas known to hold it (primary only).
    pub acks: Map<usize, Set<usize>>,
    pub idle_ticks: usize,
    /// The replicas that asked for the view change to `view_number`.
    pub start_view_change_acks: Set<usize>,
    /// The replicas that sent `DoViewChange` for `view_number`.
    pub do_view_change_acks: Set<usize>,
    pub snapshot: Option<SnapshotView>,
    /// The state machine's accumulator.
    pub state: u64,
}

/// What a handler asks its transport to do.
pub enum ActionView {
    /// Send `message` to replica `to`.
    Send { to: usize, message: MessageView },
    /// Send `message` to every other replica.
    Broadcast { message: MessageView },
    /// Answer a client's request.
    Reply { client_id: usize, request_number: usize, reply: u64 },
}

/// What reaches a replica: a message from replica (or client) `from`, or a timer tick.
pub enum Event {
    Deliver { from: usize, message: MessageView },
    Tick,
}

/// `floor(size / 2) + 1`.
pub open spec fn quorum(size: usize) -> int {
    size as int / 2 + 1
}

/// The primary of view `v` in a cluster of `size` replicas.
pub open spec fn primary_of(v: usize, size: usize) -> usize {
    (v as int % size as int) as usize
}

impl ReplicaView {
    pub open spec fn is_primary(self) -> bool {
        self.id == primary_of(self.view_number, self.size)
    }

    /// The invariant of every replica state.
    pub open spec fn wf(self) -> bool {
        &&& self.size >= 1
        &&& self.id < self.size
        &&& self.idle_threshold >= 1
        &&& self.commit_number <= self.op_number
        &&& self.log.len() == self.op_number
        &&& self.idle_ticks <= self.idle_threshold
        &&& self.snapshot matches Some(sn) ==> {
            &&& sn.log.len() == sn.op_number
            &&& sn.commit_number <= sn.op_number
        }
    }
}

/// The initial state of replica `id`.
pub open spec fn initial(id: usize, size: usize, idle_threshold: usize) -> ReplicaView {
    ReplicaView {
        id,
        size,
        idle_threshold,
        status: Status::Normal,
        view_number: 0,
        op_number: 0,
        commit_number: 0,
        log: Seq::empty(),
        client_table: Map::empty(),
        pending: Map::empty(),
        acks: Map::empty(),
        idle_ticks: 0,
        start_view_change_acks: Set::empty(),
        do_view_change_acks: Set::empty(),
        snapshot: None,
        state: 0,
    }
}

/// No change and nothing to send.
pub open spec fn ignore(s: ReplicaView) -> (ReplicaView, Seq<ActionView>) {
    (s, Seq::empty())
}

/// Executes the next uncommitted entry, and answers its client if this replica accepted it.
pub open spec fn commit_one(s: ReplicaView) -> (ReplicaView, Seq<ActionView>) {
    let j = (s.commit_number + 1) as usize;
    let reply = apply_op(s.state, s.log[j - 1]);
    let t = ReplicaView { state: reply, commit_number: j, ..s };
    if s.pending.contains_key(j) {
        let p = s.pending[j];
        (
            ReplicaView {
                client_table: record_reply(s.client_table, p.client_id, p.request_number, reply),
                ..t
            },
            seq![
                ActionView::Reply {
                    client_id: p.client_id,
                    request_number: p.request_number,
                    reply,
                },
            ],
        )
    } else {
        (t, Seq::empty())
    }
}

/// Commits every entry up to op-number `target`, in order.
pub open spec fn commit_upto(s: ReplicaView, target: usize) -> (ReplicaView, Seq<ActionView>)
    decreases target - s.commit_number,
{
    if s.commit_number < target && target <= s.op_number && s.log.len() == s.op_number {
        let (t, a) = commit_one(s);
        let (u, b) = commit_upto(t, target);
        (u, a + b)
    } else {
        (s, Seq::empty())
    }
}

/// Moves to view `v` with `status`, forgetting what belonged to the previous view.
pub open spec fn enter_view(s: ReplicaView, v: usize, status: Status) -> ReplicaView {
    ReplicaView {
        view_number: v,
        status,
        acks: Map::empty(),
        pending: Map::empty(),
        idle_ticks: 0,
        start_view_change_acks: Set::empty(),
        do_view_change_acks: Set::empty(),
        snapshot: None,
        ..s
    }
}

/// Asks the primary of view `v` for the entries this replica lacks.
pub open spec fn state_transfer(s: ReplicaView, v: usize) -> (ReplicaView, Seq<ActionView>) {
    (
        enter_view(s, v, Status::Recovering),
        seq![
            ActionView::Send {
                to: primary_of(v, s.size),
                message: MessageView::GetState {
                    replica_id: s.id,
                    view_number: v,
                    op_number: s.op_number,
                },
            },
        ],
    )
}

/// A client request, at the primary.
pub open spec fn on_request(s: ReplicaView, client_id: usize, request_number: usize, op: Op) -> (
    ReplicaView,
    Seq<ActionView>,
) {
    if s.status != Status::Normal || !s.is_primary() || s.op_number == usize::MAX {
        ignore(s)
    } else {
        match consult(s.client_table, client_id, request_number) {
            Consultation::Drop => ignore(s),
            Consultation::Resend(reply) => (
                s,
                seq![ActionView::Reply { client_id, request_number, reply }],
            ),
            Consultation::Accept => {
                let n = (s.op_number + 1) as usize;
                (
                    ReplicaView {
                        op_number: n,
                        log: s.log.push(op),
                        acks: s.acks.insert(n, set![s.id]),
                        pending: s.pending.insert(n, PendingRequest { client_id, request_number }),
                        client_table: s.client_table.insert(
                            client_id,
                            ClientEntry { request_number, reply: None },
                        ),
                        ..s
                    },
                    seq![
                        ActionView::Broadcast {
                            message: MessageView::Prepare {
                                view_number: s.view_number,
                                op,
                                op_number: n,
                                commit_number: s.commit_number,
                            },
                        },
                    ],
                )
            },
        }
    }
}

/// A `Prepare` from the primary, at a backup.
pub open spec fn on_prepare(
    s: ReplicaView,
    view_number: usize,
    op_number: usize,
    op: Op,
    commit_number: usize,
) -> (ReplicaView, Seq<ActionView>) {
    let s0 = ReplicaView { idle_ticks: 0, ..s };
    if view_number < s.view_number {
        ignore(s0)
    } else if view_number > s.view_number {
        if primary_of(view_number, s.size) == s.id {
            ignore(s0)
        } else {
            state_transfer(s0, view_number)
        }
    } else if s.status != Status::Normal || s.is_primary() || op_number <= s.op_number {
        ignore(s0)
    } else if op_number > s.op_number + 1 {
        state_transfer(s0, view_number)
    } else if commit_number > op_number {
        ignore(s0)
    } else {
        let s1 = ReplicaView { op_number, log: s.log.push(op), ..s0 };
        let (s2, a) = commit_upto(s1, commit_number);
        (
            s2,
            a + seq![
                ActionView::Send {
                    to: primary_of(s.view_number, s.size),
                    message: MessageView::PrepareOk { view_number: s.view_number, op_number },
                },
            ],
        )
    }
}

/// The acknowledgements of op-number `i`.
pub open spec fn acks_of(s: ReplicaView, i: usize) -> Set<usize> {
    if s.acks.contains_key(i) {
        s.acks[i]
    } else {
        Set::empty()
    }
}

/// A `PrepareOk` from backup `from`, at the primary.
pub open spec fn on_prepare_ok(s: ReplicaView, from: usize, view_number: usize, op_number: usize) -> (
    ReplicaView,
    Seq<ActionView>,
) {
    if view_number != s.view_number || s.status != Status::Normal || !s.is_primary() || from
        >= s.size || op_number == 0 || op_number > s.op_number {
        ignore(s)
    } else {
        let acked = acks_of(s, op_number).insert(from);
        let s1 = ReplicaView { acks: s.acks.insert(op_number, acked), ..s };
        if acked.len() >= quorum(s.size) && op_number > s.commit_number {
            commit_upto(s1, op_number)
        } else {
            ignore(s1)
        }
    }
}

/// A `Commit` heartbeat from the primary, at a backup. Only a replica in `Normal` status
/// acts on it. A `Commit` for a later view than the backup's own starts a state transfer
/// in that view rather than committing: the backup's log belongs to an older view and
/// may differ from the new primary's in its uncommitted tail.
pub open spec fn on_commit(s: ReplicaView, view_number: usize, commit_number: usize) -> (
    ReplicaView,
    Seq<ActionView>,
) {
    if s.status != Status::Normal || view_number < s.view_number || (view_number
        == s.view_number && s.is_primary()) {
        ignore(s)
    } else if view_number > s.view_number {
        if primary_of(view_number, s.size) == s.id {
            ignore(s)
        } else {
            state_transfer(s, view_number)
        }
    } else {
        let s0 = ReplicaView { idle_ticks: 0, ..s };
        if commit_number > s.op_number {
            state_transfer(s0, view_number)
        } else {
            commit_upto(s0, commit_number)
        }
    }
}

/// Sends `DoViewChange` to the new primary once a quorum asked for the view change.
pub open spec fn do_view_change_if_quorum(t: ReplicaView) -> Seq<ActionView> {
    if t.start_view_change_acks.len() == quorum(t.size) {
        seq![
            ActionView::Send {
                to: primary_of(t.view_number, t.size),
                message: MessageView::DoViewChange {
                    view_number: t.view_number,
                    op_number: t.op_number,
                    replica_id: t.id,
                    commit_number: t.commit_number,
                    log: t.log,
                },
            },
        ]
    } else {
        Seq::empty()
    }
}

/// Starts the view change to view `v`: asks every other replica to join it.
pub open spec fn start_view_change(s: ReplicaView, v: usize) -> (ReplicaView, Seq<ActionView>) {
    let t = ReplicaView {
        start_view_change_acks: set![s.id],
        ..enter_view(s, v, Status::ViewChange)
    };
    (
        t,
        seq![
            ActionView::Broadcast {
                message: MessageView::StartViewChange { view_number: v, replica_id: s.id },
            },
        ] + do_view_change_if_quorum(t),
    )
}

/// A timer tick.
pub open spec fn on_timer(s: ReplicaView) -> (ReplicaView, Seq<ActionView>) {
    if s.status == Status::Normal && s.is_primary() {
        (
            s,
            seq![
                ActionView::Broadcast {
                    message: MessageView::Commit {
                        view_number: s.view_number,
                        commit_number: s.commit_number,
                    },
                },
            ],
        )
    } else if s.idle_ticks < s.idle_threshold {
        ignore(ReplicaView { idle_ticks: (s.idle_ticks + 1) as usize, ..s })
    } else if s.view_number == usize::MAX {
        ignore(s)
    } else {
        start_view_change(s, (s.view_number + 1) as usize)
    }
}

/// Counts `from` among the replicas that asked for the view change.
pub open spec fn count_start_view_change(t: ReplicaView, from: usize) -> (
    ReplicaView,
    Seq<ActionView>,
) {
    if t.start_view_change_acks.contains(from) {
        ignore(t)
    } else {
        let u = ReplicaView {
            start_view_change_acks: t.start_view_change_acks.insert(from),
            ..t
        };
        (u, do_view_change_if_quorum(u))
    }
}

/// A `StartViewChange` from replica `from`.
pub open spec fn on_start_view_change(s: ReplicaView, view_number: usize, from: usize) -> (
    ReplicaView,
    Seq<ActionView>,
) {
    if from >= s.size || from == s.id || view_number < s.view_number || (view_number
        == s.view_number && s.status != Status::ViewChange) {
        ignore(s)
    } else if view_number > s.view_number {
        let (t, a) = start_view_change(s, view_number);
        let (u, b) = count_start_view_change(t, from);
        (u, a + b)
    } else {
        count_start_view_change(s, from)
    }
}

/// Whether a `DoViewChange` for `(view_number, op_number)` ranks above the snapshot kept.
pub open spec fn ranks_above(
    snapshot: Option<SnapshotView>,
    view_number: usize,
    op_number: usize,
) -> bool {
    match snapshot {
        None => true,
        Some(sn) => view_number > sn.view_number || (view_number == sn.view_number && op_number
            > sn.op_number),
    }
}

/// The new primary adopts the best log, commits what it says is committed, and tells
/// every other replica that the view has started.
pub open spec fn start_view(s: ReplicaView) -> (ReplicaView, Seq<ActionView>) {
    let (log, n, k) = match s.snapshot {
        Some(sn) => if sn.op_number >= s.commit_number {
            (sn.log, sn.op_number, sn.commit_number)
        } else {
            (s.log, s.op_number, s.commit_number)
        },
        None => (s.log, s.op_number, s.commit_number),
    };
    let t = ReplicaView {
        log,
        op_number: n,
        ..enter_view(s, s.view_number, Status::Normal)
    };
    let (u, a) = commit_upto(t, k);
    (
        u,
        a + seq![
            ActionView::Broadcast {
                message: MessageView::StartView {
                    view_number: u.view_number,
                    op_number: u.op_number,
                    replica_id: u.id,
                    commit_number: u.commit_number,
                    log: u.log,
                },
            },
        ],
    )
}

/// A `DoViewChange` from replica `from`, at the primary of the new view.
pub open spec fn on_do_view_change(
    s: ReplicaView,
    view_number: usize,
    op_number: usize,
    from: usize,
    commit_number: usize,
    log: Seq<Op>,
) -> (ReplicaView, Seq<ActionView>) {
    if s.status == Status::Normal || view_number != s.view_number || !s.is_primary() || from
        >= s.size || log.len() != op_number || commit_number > op_number {
        ignore(s)
    } else {
        let s1 = if ranks_above(s.snapshot, view_number, op_number) {
            ReplicaView {
                snapshot: Some(SnapshotView { view_number, op_number, commit_number, log }),
                ..s
            }
        } else {
            s
        };
        if s.do_view_change_acks.contains(from) {
            ignore(s1)
        } else {
            let s2 = ReplicaView { do_view_change_acks: s.do_view_change_acks.insert(from), ..s1 };
            if s2.do_view_change_acks.len() == quorum(s.size) {
                start_view(s2)
            } else {
                ignore(s2)
            }
        }
    }
}

/// A `StartView` from the primary of a new view.
pub open spec fn on_start_view(
    s: ReplicaView,
    view_number: usize,
    op_number: usize,
    from: usize,
    commit_number: usize,
    log: Seq<Op>,
) -> (ReplicaView, Seq<ActionView>) {
    if from >= s.size || from == s.id || from != primary_of(view_number, s.size) || log.len()
        != op_number || commit_number > op_number || op_number < s.commit_number || view_number
        < s.view_number || (view_number == s.view_number && s.status == Status::Normal) {
        ignore(s)
    } else {
        let t = ReplicaView { log, op_number, ..enter_view(s, view_number, Status::Normal) };
        commit_upto(t, commit_number)
    }
}

/// A `GetState` from a lagging replica `from`.
pub open spec fn on_get_state(s: ReplicaView, from: usize, view_number: usize, op_number: usize) -> (
    ReplicaView,
    Seq<ActionView>,
) {
    if view_number != s.view_number || s.status == Status::ViewChange || from >= s.size {
        ignore(s)
    } else {
        let lo = if op_number < s.op_number {
            op_number
        } else {
            s.op_number
        };
        (
            s,
            seq![
                ActionView::Send {
                    to: from,
                    message: MessageView::NewState {
                        view_number: s.view_number,
                        log: s.log.subrange(lo as int, s.op_number as int),
                        op_number: s.op_number,
                        commit_number: s.commit_number,
                    },
                },
            ],
        )
    }
}

/// A `NewState` answering this replica's `GetState`.
pub open spec fn on_new_state(
    s: ReplicaView,
    view_number: usize,
    log: Seq<Op>,
    op_number: usize,
    commit_number: usize,
) -> (ReplicaView, Seq<ActionView>) {
    if s.status != Status::Recovering || view_number != s.view_number || s.op_number + log.len()
        != op_number || commit_number > op_number {
        ignore(s)
    } else {
        let t = ReplicaView {
            log: s.log + log,
            op_number,
            status: Status::Normal,
            idle_ticks: 0,
            ..s
        };
        let (u, a) = commit_upto(t, commit_number);
        (
            u,
            a + seq![
                ActionView::Send {
                    to: primary_of(s.view_number, s.size),
                    message: MessageView::PrepareOk { view_number: s.view_number, op_number },
                },
            ],
        )
    }
}

/// A message delivered from `from`.
pub open spec fn on_message(s: ReplicaView, from: usize, m: MessageView) -> (
    ReplicaView,
    Seq<ActionView>,
) {
    match m {
        MessageView::Request { client_id, request_number, op } => on_request(
            s,
            client_id,
            request_number,
            op,
        ),
        MessageView::Prepare { view_number, op, op_number, commit_number } => on_prepare(
            s,
            view_number,
            op_number,
            op,
            commit_number,
        ),
        MessageView::PrepareOk { view_number, op_number } => on_prepare_ok(
            s,
            from,
            view_number,
            op_number,
        ),
        MessageView::Commit { view_number, commit_number } => on_commit(
            s,
            view_number,
            commit_number,
        ),
        MessageView::StartViewChange { view_number, replica_id } => on_start_view_change(
            s,
            view_number,
            replica_id,
        ),
        MessageView::DoViewChange { view_number, op_number, replica_id, commit_number, log } =>
            on_do_view_change(s, view_number, op_number, replica_id, commit_number, log),
        MessageView::StartView { view_number, op_number, replica_id, commit_number, log } =>
            on_start_view(s, view_number, op_number, replica_id, commit_number, log),
        MessageView::GetState { replica_id, view_number, op_number } => on_get_state(
            s,
            replica_id,
            view_number,
            op_number,
        ),
        MessageView::NewState { view_number, log, op_number, commit_number } => on_new_state(
            s,
            view_number,
            log,
            op_number,
            commit_number,
        ),
    }
}

/// One step of a replica.
pub open spec fn step(s: ReplicaView, e: Event) -> (ReplicaView, Seq<ActionView>) {
    match e {
        Event::Deliver { from, message } => on_message(s, from, message),
        Event::Tick => on_timer(s),
    }
}

/// Committing changes only the commit number, the state machine and the client table,
/// and sends only replies.
pub proof fn lemma_commit_upto_frame(s: ReplicaView, target: usize)
    ensures
        ({
            let (u, a) = commit_upto(s, target);
            &&& u == ReplicaView {
                commit_number: u.commit_number,
                state: u.state,
                client_table: u.client_table,
                ..s
            }
            &&& u.commit_number >= s.commit_number
            &&& (s.commit_number < target && target <= s.op_number && s.log.len() == s.op_number)
                ==> u.commit_number == target
            &&& !(s.commit_number < target && target <= s.op_number && s.log.len()
                == s.op_number) ==> u == s && a.len() == 0
            &&& forall|i: int| 0 <= i < a.len() ==> #[trigger] a[i] is Reply
        }),
    decreases target - s.commit_number,
{
    if s.commit_number < target && target <= s.op_number && s.log.len() == s.op_number {
        let (t, a) = commit_one(s);
        lemma_commit_upto_frame(t, target);
        let (u, b) = commit_upto(t, target);
        assert forall|i: int| 0 <= i < (a + b).len() implies #[trigger] (a + b)[i] is Reply by {
            if i >= a.len() {
                assert((a + b)[i] == b[i - a.len()]);
            }
        }
    }
}
} // verus!
