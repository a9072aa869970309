//! Properties of the replica protocol, proved over `protocol::step`.

use vstd::prelude::*;
use crate::client_table::{consult, record_reply, ClientEntry, Consultation};
use crate::message::MessageView;
use crate::protocol::{
    PendingRequest,
    acks_of, commit_one, commit_upto, lemma_commit_upto_frame, primary_of, quorum, step, Event,
    ReplicaView, Status, ActionView,
};

verus! {

/// The message adopts a new view's log wholesale, which may be shorter than the local one.
pub open spec fn adopts_log(e: Event) -> bool {
    match e {
        Event::Deliver { message: MessageView::StartView { .. }, .. } => true,
        Event::Deliver { message: MessageView::DoViewChange { .. }, .. } => true,
        _ => false,
    }
}

/// Every client keeps its entry; its request number never decreases, and an executed
/// request's reply stays as long as no later request replaces it.
pub open spec fn table_grows(s: Map<usize, ClientEntry>, t: Map<usize, ClientEntry>) -> bool {
    forall|c: usize| #[trigger]
        s.contains_key(c) ==> {
            &&& t.contains_key(c)
            &&& t[c].request_number >= s[c].request_number
            &&& (t[c].request_number == s[c].request_number && s[c].reply is Some) ==> t[c]
                == s[c]
        }
}

/// The action broadcasts `StartView`.
pub open spec fn is_start_view(a: ActionView) -> bool {
    match a {
        ActionView::Broadcast { message: MessageView::StartView { .. } } => true,
        _ => false,
    }
}

/// The view that a `StartView` broadcast announces.
pub open spec fn start_view_number(a: ActionView) -> usize {
    match a {
        ActionView::Broadcast { message: MessageView::StartView { view_number, .. } } =>
            view_number,
        _ => 0,
    }
}

/// The actions include a `StartView` broadcast for view `v`.
pub open spec fn starts_view(acts: Seq<ActionView>, v: usize) -> bool {
    exists|i: int| 0 <= i < acts.len() && is_start_view(#[trigger] acts[i]) && start_view_number(
        acts[i],
    ) == v
}

/// The step appends request `request_number` of `client_id` to the log.
pub open spec fn admits(s: ReplicaView, e: Event, client_id: usize, request_number: usize) -> bool {
    &&& e matches Event::Deliver { message: MessageView::Request { .. }, .. }
    &&& e->message->client_id == client_id
    &&& e->message->request_number == request_number
    &&& step(s, e).0.log.len() > s.log.len()
}

/// `states` is a run: each state follows from the one before by the event between them.
pub open spec fn is_run(states: Seq<ReplicaView>, events: Seq<Event>) -> bool {
    &&& states.len() == events.len() + 1
    &&& forall|i: int| 0 <= i < events.len() ==> #[trigger] states[i + 1] == step(states[i], events[i]).0
}

/// The event is a client request.
pub open spec fn is_request(e: Event) -> bool {
    e matches Event::Deliver { message: MessageView::Request { .. }, .. }
}

/// How a step may change the requests awaiting execution: not at all (the log only
/// growing), all dropped, or one added by admitting a new request.
pub open spec fn pending_change(s: ReplicaView, e: Event, t: ReplicaView) -> bool {
    ||| t.pending == s.pending && t.op_number >= s.op_number
    ||| t.pending == Map::<usize, PendingRequest>::empty()
    ||| {
        &&& is_request(e)
        &&& consult(s.client_table, e->message->client_id, e->message->request_number)
            == Consultation::Accept
        &&& t.op_number == s.op_number + 1
        &&& t.commit_number == s.commit_number
        &&& t.pending == s.pending.insert(
            t.op_number,
            PendingRequest {
                client_id: e->message->client_id,
                request_number: e->message->request_number,
            },
        )
        &&& t.client_table == s.client_table.insert(
            e->message->client_id,
            ClientEntry { request_number: e->message->request_number, reply: None },
        )
    }
}

/// A reply sent from a commit answers a request that was awaiting execution at an entry
/// the step committed, and the client table then holds that request or a later one.
pub open spec fn replied_from_pending(s: ReplicaView, t: ReplicaView, a: ActionView) -> bool {
    let c = a->Reply_client_id;
    let r = a->Reply_request_number;
    &&& exists|j: usize|
        s.commit_number < j <= t.commit_number && s.pending.contains_key(j) && #[trigger] s.pending[j]
            == (PendingRequest { client_id: c, request_number: r })
    &&& t.client_table.contains_key(c)
    &&& t.client_table[c].request_number >= r
}

/// What every step keeps.
pub open spec fn step_facts(s: ReplicaView, e: Event) -> bool {
    let (t, a) = step(s, e);
    &&& t.id == s.id && t.size == s.size
    &&& t.view_number >= s.view_number
    &&& t.commit_number >= s.commit_number
    &&& !adopts_log(e) ==> t.op_number >= s.op_number
    &&& !adopts_log(e) ==> s.log.is_prefix_of(t.log)
    &&& table_grows(s.client_table, t.client_table)
    &&& (s.status == Status::Normal && s.is_primary() && t.view_number == s.view_number
        && t.commit_number > s.commit_number) ==> {
        &&& e matches Event::Deliver { message: MessageView::PrepareOk { .. }, .. }
        &&& e->message->PrepareOk_op_number == t.commit_number
        &&& acks_of(t, t.commit_number).len() >= quorum(s.size)
    }
    &&& pending_change(s, e, t)
    &&& (!is_request(e) ==> forall|i: int| 0 <= i < a.len() && #[trigger] a[i] is Reply ==> replied_from_pending(s, t, a[i]))
    &&& forall|i: int| 0 <= i < a.len() && is_start_view(#[trigger] a[i]) ==> {
        &&& s.status != Status::Normal
        &&& s.id == primary_of(start_view_number(a[i]), s.size)
        &&& t.status == Status::Normal
        &&& t.view_number == start_view_number(a[i])
        &&& t.view_number == s.view_number
    }
}

proof fn lemma_record_reply_grows(
    table: Map<usize, ClientEntry>,
    client_id: usize,
    request_number: usize,
    reply: u64,
)
    ensures
        table_grows(table, record_reply(table, client_id, request_number, reply)),
{
}

proof fn lemma_grows_trans(
    a: Map<usize, ClientEntry>,
    b: Map<usize, ClientEntry>,
    c: Map<usize, ClientEntry>,
)
    requires
        table_grows(a, b),
        table_grows(b, c),
    ensures
        table_grows(a, c),
{
    assert forall|k: usize| #[trigger] a.contains_key(k) implies {
        &&& c.contains_key(k)
        &&& c[k].request_number >= a[k].request_number
        &&& (c[k].request_number == a[k].request_number && a[k].reply is Some) ==> c[k] == a[k]
    } by {
        assert(b.contains_key(k));
    }
}

proof fn lemma_commit_upto_grows(s: ReplicaView, target: usize)
    ensures
        table_grows(s.client_table, commit_upto(s, target).0.client_table),
    decreases target - s.commit_number,
{
    if s.commit_number < target && target <= s.op_number && s.log.len() == s.op_number {
        let (t, a) = commit_one(s);
        let j = (s.commit_number + 1) as usize;
        if s.pending.contains_key(j) {
            let p = s.pending[j];
            lemma_record_reply_grows(
                s.client_table,
                p.client_id,
                p.request_number,
                t.state,
            );
        }
        lemma_commit_upto_grows(t, target);
        lemma_grows_trans(s.client_table, t.client_table, commit_upto(t, target).0.client_table);
    }
}

proof fn lemma_commit_upto_replies(s: ReplicaView, target: usize)
    ensures
        ({
            let (u, a) = commit_upto(s, target);
            forall|i: int| 0 <= i < a.len() ==> replied_from_pending(s, u, #[trigger] a[i])
        }),
    decreases target - s.commit_number,
{
    if s.commit_number < target && target <= s.op_number && s.log.len() == s.op_number {
        let (t, a1) = commit_one(s);
        lemma_commit_upto_replies(t, target);
        lemma_commit_upto_grows(t, target);
        lemma_commit_upto_frame(s, target);
        lemma_commit_upto_frame(t, target);
        let (u, b) = commit_upto(t, target);
        let a = a1 + b;
        let j = (s.commit_number + 1) as usize;
        assert forall|i: int| 0 <= i < a.len() implies replied_from_pending(s, u, #[trigger] a[i]) by {
            if i < a1.len() {
                assert(a[i] == a1[i]);
                let p = s.pending[j];
                assert(s.pending[j] == (PendingRequest { client_id: p.client_id, request_number: p.request_number }));
                assert(t.client_table.contains_key(p.client_id));
            } else {
                assert(a[i] == b[i - a1.len()]);
                assert(replied_from_pending(t, u, b[i - a1.len()]));
                let c = a[i]->Reply_client_id;
                let r = a[i]->Reply_request_number;
                let jj = choose|jj: usize|
                    t.commit_number < jj <= u.commit_number && t.pending.contains_key(jj)
                        && #[trigger] t.pending[jj] == (PendingRequest { client_id: c, request_number: r });
                assert(s.pending[jj] == (PendingRequest { client_id: c, request_number: r }));
            }
        }
    }
}

/// The facts of a step that ends in committing up to `target` from `s1`, which differs
/// from `s` only in what the handler changed before committing.
proof fn lemma_commit_facts(s1: ReplicaView, target: usize)
    ensures
        ({
            let (u, a) = commit_upto(s1, target);
            &&& u.id == s1.id && u.size == s1.size && u.view_number == s1.view_number
            &&& u.status == s1.status && u.op_number == s1.op_number && u.acks == s1.acks
            &&& u.log == s1.log && u.pending == s1.pending
            &&& forall|i: int| 0 <= i < a.len() ==> #[trigger] a[i] is Reply
                && replied_from_pending(s1, u, a[i])
            &&& u.commit_number >= s1.commit_number
            &&& table_grows(s1.client_table, u.client_table)
            &&& forall|i: int| 0 <= i < a.len() ==> !is_start_view(#[trigger] a[i])
            &&& (s1.commit_number < target && target <= s1.op_number && s1.log.len()
                == s1.op_number) ==> u.commit_number == target
            &&& !(s1.commit_number < target && target <= s1.op_number && s1.log.len()
                == s1.op_number) ==> u.commit_number == s1.commit_number
        }),
{
    lemma_commit_upto_frame(s1, target);
    lemma_commit_upto_grows(s1, target);
    lemma_commit_upto_replies(s1, target);
    let (u, a) = commit_upto(s1, target);
    assert forall|i: int| 0 <= i < a.len() implies !is_start_view(#[trigger] a[i]) by {
        assert(a[i] is Reply);
    }
}

proof fn lemma_grows_refl(t: Map<usize, ClientEntry>)
    ensures
        table_grows(t, t),
{
}

proof fn lemma_no_start_view_concat(a: Seq<ActionView>, b: Seq<ActionView>)
    requires
        forall|i: int| 0 <= i < a.len() ==> !is_start_view(#[trigger] a[i]),
        forall|i: int| 0 <= i < b.len() ==> !is_start_view(#[trigger] b[i]),
    ensures
        forall|i: int| 0 <= i < (a + b).len() ==> !is_start_view(#[trigger] (a + b)[i]),
{
    assert forall|i: int| 0 <= i < (a + b).len() implies !is_start_view(#[trigger] (a + b)[i]) by {
        if i >= a.len() {
            assert((a + b)[i] == b[i - a.len()]);
        }
    }
}

proof fn lemma_state_transfer_facts(s: ReplicaView, v: usize)
    ensures
        ({
            let (t, a) = crate::protocol::state_transfer(s, v);
            &&& t.id == s.id && t.size == s.size && t.view_number == v
            &&& t.commit_number == s.commit_number && t.op_number == s.op_number
            &&& t.client_table == s.client_table
            &&& forall|i: int| 0 <= i < a.len() ==> !is_start_view(#[trigger] a[i])
        }),
{
}

proof fn lemma_request_facts(s: ReplicaView, e: Event)
    requires
        e matches Event::Deliver { message: MessageView::Request { .. }, .. },
    ensures
        step_facts(s, e),
{
    lemma_grows_refl(s.client_table);
    let (t, a) = step(s, e);
    assert forall|i: int| 0 <= i < a.len() implies !is_start_view(#[trigger] a[i]) by {}
}

proof fn lemma_prepare_facts(s: ReplicaView, e: Event)
    requires
        e matches Event::Deliver { message: MessageView::Prepare { .. }, .. },
    ensures
        step_facts(s, e),
{
    lemma_grows_refl(s.client_table);
    if let Event::Deliver { message: MessageView::Prepare { view_number, op, op_number, commit_number }, .. } = e {
        let s0 = ReplicaView { idle_ticks: 0, ..s };
        lemma_state_transfer_facts(s0, view_number);
        let s1 = ReplicaView { op_number, log: s.log.push(op), ..s0 };
        lemma_commit_facts(s1, commit_number);
        assert(s.log.is_prefix_of(s.log.push(op)));
        let (s2, a) = commit_upto(s1, commit_number);
        let b = seq![
            ActionView::Send {
                to: primary_of(s.view_number, s.size),
                message: MessageView::PrepareOk { view_number: s.view_number, op_number },
            },
        ];
        assert forall|i: int| 0 <= i < b.len() implies !is_start_view(#[trigger] b[i]) by {}
        lemma_no_start_view_concat(a, b);
    }
}

proof fn lemma_prepare_ok_facts(s: ReplicaView, e: Event)
    requires
        e matches Event::Deliver { message: MessageView::PrepareOk { .. }, .. },
    ensures
        step_facts(s, e),
{
    lemma_grows_refl(s.client_table);
    assert(s.log.is_prefix_of(s.log));
    if let Event::Deliver { from, message: MessageView::PrepareOk { view_number, op_number } } = e {
        let acked = acks_of(s, op_number).insert(from);
        let s1 = ReplicaView { acks: s.acks.insert(op_number, acked), ..s };
        lemma_commit_facts(s1, op_number);
        let (u, a) = commit_upto(s1, op_number);
        assert(acks_of(s1, op_number) == acked);
    }
}

proof fn lemma_commit_msg_facts(s: ReplicaView, e: Event)
    requires
        e matches Event::Deliver { message: MessageView::Commit { .. }, .. },
    ensures
        step_facts(s, e),
{
    lemma_grows_refl(s.client_table);
    assert(s.log.is_prefix_of(s.log));
    if let Event::Deliver { message: MessageView::Commit { view_number, commit_number }, .. } = e {
        let s0 = ReplicaView { idle_ticks: 0, ..s };
        lemma_state_transfer_facts(s, view_number);
        lemma_state_transfer_facts(s0, view_number);
        lemma_commit_facts(s0, commit_number);
    }
}

proof fn lemma_dvc_quorum_facts(t: ReplicaView)
    ensures
        forall|i: int| 0 <= i < crate::protocol::do_view_change_if_quorum(t).len()
            ==> !is_start_view(#[trigger] crate::protocol::do_view_change_if_quorum(t)[i]),
{
}

proof fn lemma_start_view_change_facts(s: ReplicaView, v: usize)
    ensures
        ({
            let (t, a) = crate::protocol::start_view_change(s, v);
            &&& t.id == s.id && t.size == s.size && t.view_number == v
            &&& t.commit_number == s.commit_number && t.op_number == s.op_number
            &&& t.client_table == s.client_table
            &&& forall|i: int| 0 <= i < a.len() ==> !is_start_view(#[trigger] a[i])
        }),
{
    let (t, a) = crate::protocol::start_view_change(s, v);
    lemma_dvc_quorum_facts(t);
    let b = seq![
        ActionView::Broadcast {
            message: MessageView::StartViewChange { view_number: v, replica_id: s.id },
        },
    ];
    assert forall|i: int| 0 <= i < b.len() implies !is_start_view(#[trigger] b[i]) by {}
    lemma_no_start_view_concat(b, crate::protocol::do_view_change_if_quorum(t));
}

proof fn lemma_count_svc_facts(t: ReplicaView, from: usize)
    ensures
        ({
            let (u, a) = crate::protocol::count_start_view_change(t, from);
            &&& u.id == t.id && u.size == t.size && u.view_number == t.view_number
            &&& u.commit_number == t.commit_number && u.op_number == t.op_number
            &&& u.client_table == t.client_table
            &&& forall|i: int| 0 <= i < a.len() ==> !is_start_view(#[trigger] a[i])
        }),
{
    let u = ReplicaView { start_view_change_acks: t.start_view_change_acks.insert(from), ..t };
    lemma_dvc_quorum_facts(u);
}

proof fn lemma_start_view_change_msg_facts(s: ReplicaView, e: Event)
    requires
        e matches Event::Deliver { message: MessageView::StartViewChange { .. }, .. },
    ensures
        step_facts(s, e),
{
    lemma_grows_refl(s.client_table);
    if let Event::Deliver { message: MessageView::StartViewChange { view_number, replica_id }, .. } = e {
        lemma_start_view_change_facts(s, view_number);
        let (t, a) = crate::protocol::start_view_change(s, view_number);
        lemma_count_svc_facts(t, replica_id);
        lemma_count_svc_facts(s, replica_id);
        let (u, b) = crate::protocol::count_start_view_change(t, replica_id);
        lemma_no_start_view_concat(a, b);
    }
}

proof fn lemma_do_view_change_facts(s: ReplicaView, e: Event)
    requires
        e matches Event::Deliver { message: MessageView::DoViewChange { .. }, .. },
    ensures
        step_facts(s, e),
{
    lemma_grows_refl(s.client_table);
    if let Event::Deliver { message: MessageView::DoViewChange { view_number, op_number, replica_id, commit_number, log }, .. } = e {
        if !(s.status == Status::Normal || view_number != s.view_number || !s.is_primary()
            || replica_id >= s.size || log.len() != op_number || commit_number > op_number)
            && !s.do_view_change_acks.contains(replica_id) {
            let s1 = if crate::protocol::ranks_above(s.snapshot, view_number, op_number) {
                ReplicaView {
                    snapshot: Some(crate::protocol::SnapshotView { view_number, op_number, commit_number, log }),
                    ..s
                }
            } else {
                s
            };
            let s2 = ReplicaView { do_view_change_acks: s.do_view_change_acks.insert(replica_id), ..s1 };
            if s2.do_view_change_acks.len() == quorum(s.size) {
                let (lg, n, k) = match s2.snapshot {
                    Some(sn) => if sn.op_number >= s2.commit_number {
                        (sn.log, sn.op_number, sn.commit_number)
                    } else {
                        (s2.log, s2.op_number, s2.commit_number)
                    },
                    None => (s2.log, s2.op_number, s2.commit_number),
                };
                let t = ReplicaView {
                    log: lg,
                    op_number: n,
                    ..crate::protocol::enter_view(s2, s2.view_number, Status::Normal)
                };
                lemma_commit_facts(t, k);
                let (u, a) = commit_upto(t, k);
                let b = seq![
                    ActionView::Broadcast {
                        message: MessageView::StartView {
                            view_number: u.view_number,
                            op_number: u.op_number,
                            replica_id: u.id,
                            commit_number: u.commit_number,
                            log: u.log,
                        },
                    },
                ];
                let (t2, a2) = step(s, e);
                assert(a2 == a + b);
                assert forall|i: int| 0 <= i < a2.len() && is_start_view(#[trigger] a2[i]) implies {
                    &&& s.status != Status::Normal
                    &&& s.id == primary_of(start_view_number(a2[i]), s.size)
                    &&& t2.status == Status::Normal
                    &&& t2.view_number == start_view_number(a2[i])
                    &&& t2.view_number == s.view_number
                } by {
                    if i < a.len() {
                        assert(a2[i] == a[i]);
                    } else {
                        assert(a2[i] == b[i - a.len()]);
                    }
                }
            }
        }
    }
}

proof fn lemma_start_view_msg_facts(s: ReplicaView, e: Event)
    requires
        e matches Event::Deliver { message: MessageView::StartView { .. }, .. },
    ensures
        step_facts(s, e),
{
    lemma_grows_refl(s.client_table);
    if let Event::Deliver { message: MessageView::StartView { view_number, op_number, replica_id, commit_number, log }, .. } = e {
        let t = ReplicaView { log, op_number, ..crate::protocol::enter_view(s, view_number, Status::Normal) };
        lemma_commit_facts(t, commit_number);
    }
}

proof fn lemma_get_state_facts(s: ReplicaView, e: Event)
    requires
        e matches Event::Deliver { message: MessageView::GetState { .. }, .. },
    ensures
        step_facts(s, e),
{
    lemma_grows_refl(s.client_table);
    let (t, a) = step(s, e);
    assert forall|i: int| 0 <= i < a.len() implies !is_start_view(#[trigger] a[i]) by {}
}

proof fn lemma_new_state_facts(s: ReplicaView, e: Event)
    requires
        e matches Event::Deliver { message: MessageView::NewState { .. }, .. },
    ensures
        step_facts(s, e),
{
    lemma_grows_refl(s.client_table);
    if let Event::Deliver { message: MessageView::NewState { view_number, log, op_number, commit_number }, .. } = e {
        let t = ReplicaView {
            log: s.log + log,
            op_number,
            status: Status::Normal,
            idle_ticks: 0,
            ..s
        };
        lemma_commit_facts(t, commit_number);
        assert(s.log.is_prefix_of(s.log + log));
        let (u, a) = commit_upto(t, commit_number);
        let b = seq![
            ActionView::Send {
                to: primary_of(s.view_number, s.size),
                message: MessageView::PrepareOk { view_number: s.view_number, op_number },
            },
        ];
        assert forall|i: int| 0 <= i < b.len() implies !is_start_view(#[trigger] b[i]) by {}
        lemma_no_start_view_concat(a, b);
    }
}

proof fn lemma_timer_facts(s: ReplicaView)
    ensures
        step_facts(s, Event::Tick),
{
    lemma_grows_refl(s.client_table);
    if s.view_number < usize::MAX {
        lemma_start_view_change_facts(s, (s.view_number + 1) as usize);
    }
    let (t, a) = step(s, Event::Tick);
    if s.status == Status::Normal && s.is_primary() {
        assert forall|i: int| 0 <= i < a.len() implies !is_start_view(#[trigger] a[i]) by {}
    }
}

/// What every step keeps: see `step_facts`.
pub proof fn lemma_step_facts(s: ReplicaView, e: Event)
    ensures
        step_facts(s, e),
{
    match e {
        Event::Tick => lemma_timer_facts(s),
        Event::Deliver { message, .. } => match message {
            MessageView::Request { .. } => lemma_request_facts(s, e),
            MessageView::Prepare { .. } => lemma_prepare_facts(s, e),
            MessageView::PrepareOk { .. } => lemma_prepare_ok_facts(s, e),
            MessageView::Commit { .. } => lemma_commit_msg_facts(s, e),
            MessageView::StartViewChange { .. } => lemma_start_view_change_msg_facts(s, e),
            MessageView::DoViewChange { .. } => lemma_do_view_change_facts(s, e),
            MessageView::StartView { .. } => lemma_start_view_msg_facts(s, e),
            MessageView::GetState { .. } => lemma_get_state_facts(s, e),
            MessageView::NewState { .. } => lemma_new_state_facts(s, e),
        },
    }
}

/// Monotonicity: no step lowers a replica's view number or commit number.
pub proof fn lemma_view_and_commit_monotonic(s: ReplicaView, e: Event)
    ensures
        step(s, e).0.view_number >= s.view_number,
        step(s, e).0.commit_number >= s.commit_number,
{
    lemma_step_facts(s, e);
}

/// Outside of adopting a new view's log, a replica's log only grows at its end: the
/// entries it holds, committed ones included, are never rewritten.
pub proof fn lemma_log_only_appends(s: ReplicaView, e: Event)
    requires
        !adopts_log(e),
    ensures
        s.log.is_prefix_of(step(s, e).0.log),
{
    lemma_step_facts(s, e);
}

/// Monotonicity of the op number: no step lowers it, except a `StartView` or the last
/// `DoViewChange` of a view change, which adopt the new view's log in place of the local one.
pub proof fn lemma_op_number_monotonic(s: ReplicaView, e: Event)
    requires
        !adopts_log(e),
    ensures
        step(s, e).0.op_number >= s.op_number,
{
    lemma_step_facts(s, e);
}

/// Monotonicity along a run: the view number and the commit number of a later state are
/// at least those of an earlier one.
pub proof fn lemma_run_monotonic(states: Seq<ReplicaView>, events: Seq<Event>, i: int, j: int)
    requires
        is_run(states, events),
        0 <= i <= j <= events.len(),
    ensures
        states[j].view_number >= states[i].view_number,
        states[j].commit_number >= states[i].commit_number,
    decreases j - i,
{
    if i < j {
        lemma_run_monotonic(states, events, i, j - 1);
        let k = j - 1;
        assert(states[k + 1] == step(states[k], events[k]).0);
        lemma_view_and_commit_monotonic(states[k], events[k]);
    }
}

proof fn lemma_run_table_grows(states: Seq<ReplicaView>, events: Seq<Event>, i: int, j: int)
    requires
        is_run(states, events),
        0 <= i <= j <= events.len(),
    ensures
        table_grows(states[i].client_table, states[j].client_table),
    decreases j - i,
{
    if i == j {
        lemma_grows_refl(states[i].client_table);
    } else {
        lemma_run_table_grows(states, events, i, j - 1);
        lemma_step_facts(states[j - 1], events[j - 1]);
        let k = j - 1;
        assert(states[k + 1] == step(states[k], events[k]).0);
        lemma_grows_trans(
            states[i].client_table,
            states[j - 1].client_table,
            states[j].client_table,
        );
    }
}

/// At-most-once execution: along any run, a replica admits request `request_number` of
/// `client_id` into its log at most once.
pub proof fn lemma_admitted_at_most_once(
    states: Seq<ReplicaView>,
    events: Seq<Event>,
    client_id: usize,
    request_number: usize,
    i: int,
    j: int,
)
    requires
        is_run(states, events),
        0 <= i < j < events.len(),
        admits(states[i], events[i], client_id, request_number),
    ensures
        !admits(states[j], events[j], client_id, request_number),
{
    let t = states[i + 1];
    assert(states[i + 1] == step(states[i], events[i]).0);
    assert(t.client_table.contains_key(client_id));
    assert(t.client_table[client_id].request_number == request_number);
    lemma_run_table_grows(states, events, i + 1, j);
    let s = states[j];
    assert(s.client_table.contains_key(client_id));
    assert(consult(s.client_table, client_id, request_number) != Consultation::Accept);
}

/// A retry of a request whose reply is cached is answered with that reply, and changes
/// nothing.
pub proof fn lemma_retry_gets_cached_reply(
    s: ReplicaView,
    from: usize,
    client_id: usize,
    request_number: usize,
    op: crate::op::Op,
    reply: u64,
)
    requires
        s.status == Status::Normal,
        s.is_primary(),
        s.op_number < usize::MAX,
        s.client_table.contains_key(client_id),
        s.client_table[client_id] == (ClientEntry { request_number, reply: Some(reply) }),
    ensures
        step(
            s,
            Event::Deliver {
                from,
                message: MessageView::Request { client_id, request_number, op },
            },
        ) == (s, seq![ActionView::Reply { client_id, request_number, reply }]),
{
}

/// A cached reply stays along any run until a later request of the same client replaces
/// it.
pub proof fn lemma_cached_reply_stable(
    states: Seq<ReplicaView>,
    events: Seq<Event>,
    client_id: usize,
    i: int,
    j: int,
)
    requires
        is_run(states, events),
        0 <= i <= j <= events.len(),
        states[i].client_table.contains_key(client_id),
        states[i].client_table[client_id].reply is Some,
    ensures
        states[j].client_table.contains_key(client_id),
        states[j].client_table[client_id].request_number
            > states[i].client_table[client_id].request_number || states[j].client_table[client_id]
            == states[i].client_table[client_id],
{
    lemma_run_table_grows(states, events, i, j);
}

/// Quorum gate: a primary in normal operation advances its commit number, within its view,
/// only on a `PrepareOk` for the new commit number, once at least a quorum of replicas has
/// acknowledged that entry.
pub proof fn lemma_quorum_gate(s: ReplicaView, e: Event)
    requires
        s.status == Status::Normal,
        s.is_primary(),
        step(s, e).0.view_number == s.view_number,
        step(s, e).0.commit_number > s.commit_number,
    ensures
        e matches Event::Deliver { message: MessageView::PrepareOk { .. }, .. },
        e->message->PrepareOk_op_number == step(s, e).0.commit_number,
        acks_of(step(s, e).0, step(s, e).0.commit_number).len() >= quorum(s.size),
{
    lemma_step_facts(s, e);
}

/// View-change uniqueness: two replicas of one cluster that broadcast `StartView` for the
/// same view are the same replica, the primary of that view, which does so as it leaves a
/// view change and enters `Normal` in that view.
pub proof fn lemma_start_view_unique(
    s1: ReplicaView,
    e1: Event,
    s2: ReplicaView,
    e2: Event,
    v: usize,
)
    requires
        s1.size == s2.size,
        starts_view(step(s1, e1).1, v),
        starts_view(step(s2, e2).1, v),
    ensures
        s1.id == s2.id,
        s1.id == primary_of(v, s1.size),
        s1.status != Status::Normal,
        step(s1, e1).0.status == Status::Normal,
        step(s1, e1).0.view_number == v,
{
    lemma_step_facts(s1, e1);
    lemma_step_facts(s2, e2);
    let a1 = step(s1, e1).1;
    let a2 = step(s2, e2).1;
    let i1 = choose|i: int| 0 <= i < a1.len() && is_start_view(#[trigger] a1[i]) && start_view_number(a1[i]) == v;
    let i2 = choose|i: int| 0 <= i < a2.len() && is_start_view(#[trigger] a2[i]) && start_view_number(a2[i]) == v;
    assert(is_start_view(a1[i1]));
    assert(is_start_view(a2[i2]));
}

/// The step executes request `request_number` of `client_id` at this replica: it commits
/// the entry admitted for that request and sends its reply. (The cached reply a retry
/// gets comes from handling a `Request`, which executes nothing.)
pub open spec fn executes(s: ReplicaView, e: Event, client_id: usize, request_number: usize) -> bool {
    &&& !is_request(e)
    &&& exists|i: int|
        0 <= i < step(s, e).1.len() && #[trigger] step(s, e).1[i] == (ActionView::Reply {
            client_id,
            request_number,
            reply: step(s, e).1[i]->Reply_reply,
        })
}

/// The requests awaiting execution: each at an entry above the commit number and at most
/// the op-number, each at most the client's latest request, no two the same.
pub open spec fn pending_ok(s: ReplicaView) -> bool {
    &&& forall|j: usize| #[trigger] s.pending.contains_key(j) && j > s.commit_number ==> {
        &&& j <= s.op_number
        &&& s.client_table.contains_key(s.pending[j].client_id)
        &&& s.client_table[s.pending[j].client_id].request_number >= s.pending[j].request_number
    }
    &&& forall|j1: usize, j2: usize|
        #[trigger] s.pending.contains_key(j1) && #[trigger] s.pending.contains_key(j2) && j1
            > s.commit_number && j2 > s.commit_number && j1 != j2 ==> s.pending[j1] != s.pending[j2]
}

/// Request `request_number` of `client_id` no longer awaits execution, and cannot be
/// admitted again.
pub open spec fn executed(s: ReplicaView, client_id: usize, request_number: usize) -> bool {
    &&& s.client_table.contains_key(client_id)
    &&& s.client_table[client_id].request_number >= request_number
    &&& forall|j: usize| #[trigger] s.pending.contains_key(j) && j > s.commit_number ==> s.pending[j]
        != (PendingRequest { client_id, request_number })
}

proof fn lemma_pending_ok_step(s: ReplicaView, e: Event)
    requires
        pending_ok(s),
    ensures
        pending_ok(step(s, e).0),
{
    lemma_step_facts(s, e);
    let t = step(s, e).0;
    if !(t.pending == s.pending && t.op_number >= s.op_number) && t.pending != Map::<
        usize,
        PendingRequest,
    >::empty() {
        let c = e->message->client_id;
        let r = e->message->request_number;
        let n = t.op_number;
        assert forall|j: usize| #[trigger] t.pending.contains_key(j) && j > t.commit_number implies {
            &&& j <= t.op_number
            &&& t.client_table.contains_key(t.pending[j].client_id)
            &&& t.client_table[t.pending[j].client_id].request_number
                >= t.pending[j].request_number
        } by {
            if j != n {
                assert(s.pending.contains_key(j));
            }
        }
        assert forall|j1: usize, j2: usize|
            #[trigger] t.pending.contains_key(j1) && #[trigger] t.pending.contains_key(j2) && j1
                > t.commit_number && j2 > t.commit_number && j1 != j2 implies t.pending[j1]
                != t.pending[j2] by {
            if j1 != n && j2 != n {
                assert(s.pending.contains_key(j1) && s.pending.contains_key(j2));
            } else if j1 == n {
                assert(s.pending.contains_key(j2));
            } else {
                assert(s.pending.contains_key(j1));
            }
        }
    } else if t.pending == s.pending && t.op_number >= s.op_number {
        assert forall|j: usize| #[trigger] t.pending.contains_key(j) && j > t.commit_number implies {
            &&& j <= t.op_number
            &&& t.client_table.contains_key(t.pending[j].client_id)
            &&& t.client_table[t.pending[j].client_id].request_number
                >= t.pending[j].request_number
        } by {
            assert(s.client_table.contains_key(s.pending[j].client_id));
        }
    }
}

proof fn lemma_executed_step(s: ReplicaView, e: Event, client_id: usize, request_number: usize)
    requires
        pending_ok(s),
        executed(s, client_id, request_number),
    ensures
        executed(step(s, e).0, client_id, request_number),
{
    lemma_step_facts(s, e);
    let t = step(s, e).0;
    assert(t.client_table.contains_key(client_id));
    assert forall|j: usize| #[trigger] t.pending.contains_key(j) && j > t.commit_number implies t.pending[j]
        != (PendingRequest { client_id, request_number }) by {
        if !(t.pending == s.pending && t.op_number >= s.op_number) && t.pending != Map::<
            usize,
            PendingRequest,
        >::empty() {
            if j != t.op_number {
                assert(s.pending.contains_key(j));
            }
        }
    }
}

proof fn lemma_executes_then_executed(
    s: ReplicaView,
    e: Event,
    client_id: usize,
    request_number: usize,
)
    requires
        pending_ok(s),
        executes(s, e, client_id, request_number),
    ensures
        executed(step(s, e).0, client_id, request_number),
        !executed(s, client_id, request_number),
{
    lemma_step_facts(s, e);
    let (t, a) = step(s, e);
    let i = choose|i: int|
        0 <= i < a.len() && #[trigger] a[i] == (ActionView::Reply {
            client_id,
            request_number,
            reply: a[i]->Reply_reply,
        });
    assert(a[i] is Reply);
    assert(replied_from_pending(s, t, a[i]));
    let p = PendingRequest { client_id, request_number };
    let j0 = choose|j: usize|
        s.commit_number < j <= t.commit_number && s.pending.contains_key(j) && #[trigger] s.pending[j]
            == p;
    assert forall|j: usize| #[trigger] t.pending.contains_key(j) && j > t.commit_number implies t.pending[j]
        != p by {
        if t.pending == s.pending && t.op_number >= s.op_number {
            assert(s.pending.contains_key(j) && s.pending.contains_key(j0));
        }
    }
}

/// At-most-once execution: along any run that starts with its awaiting requests in order
/// (an initial replica does), a replica executes request `request_number` of `client_id`
/// in at most one step.
pub proof fn lemma_executed_at_most_once(
    states: Seq<ReplicaView>,
    events: Seq<Event>,
    client_id: usize,
    request_number: usize,
    i: int,
    j: int,
)
    requires
        is_run(states, events),
        pending_ok(states[0]),
        0 <= i < j < events.len(),
        executes(states[i], events[i], client_id, request_number),
    ensures
        !executes(states[j], events[j], client_id, request_number),
{
    lemma_run_pending_ok(states, events, j);
    lemma_run_pending_ok(states, events, i);
    assert(states[i + 1] == step(states[i], events[i]).0);
    lemma_executes_then_executed(states[i], events[i], client_id, request_number);
    lemma_run_executed(states, events, client_id, request_number, i + 1, j);
    if executes(states[j], events[j], client_id, request_number) {
        lemma_executes_then_executed(states[j], events[j], client_id, request_number);
    }
}

/// A replica starts with no request awaiting execution.
pub proof fn lemma_initial_pending_ok(id: usize, size: usize, idle_threshold: usize)
    ensures
        pending_ok(crate::protocol::initial(id, size, idle_threshold)),
{
}

proof fn lemma_run_pending_ok(states: Seq<ReplicaView>, events: Seq<Event>, j: int)
    requires
        is_run(states, events),
        pending_ok(states[0]),
        0 <= j <= events.len(),
    ensures
        pending_ok(states[j]),
    decreases j,
{
    if j > 0 {
        lemma_run_pending_ok(states, events, j - 1);
        let k = j - 1;
        assert(states[k + 1] == step(states[k], events[k]).0);
        lemma_pending_ok_step(states[k], events[k]);
    }
}

proof fn lemma_run_executed(
    states: Seq<ReplicaView>,
    events: Seq<Event>,
    client_id: usize,
    request_number: usize,
    i: int,
    j: int,
)
    requires
        is_run(states, events),
        pending_ok(states[0]),
        0 <= i <= j <= events.len(),
        executed(states[i], client_id, request_number),
    ensures
        executed(states[j], client_id, request_number),
    decreases j - i,
{
    if i < j {
        lemma_run_executed(states, events, client_id, request_number, i, j - 1);
        let k = j - 1;
        lemma_run_pending_ok(states, events, k);
        assert(states[k + 1] == step(states[k], events[k]).0);
        lemma_executed_step(states[k], events[k], client_id, request_number);
    }
}

} // verus!
