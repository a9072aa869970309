//! Protocol messages and their length-framed wire format.

use vstd::prelude::*;
use crate::op::{
    decode_op, decode_ops, lemma_decode_op_bytes, lemma_decode_op_sound, lemma_decode_ops_exact,
    lemma_ops_bytes_push, op_bytes, ops_bytes, read_ops, write_ops, Op, ProtocolError,
};
use crate::wire::{
    from_le32, from_le64, le32, le64, lemma_le32_round_trip, lemma_le64_of_bytes,
    lemma_le64_round_trip, push_u32, push_u64, read_u32, read_u64,
};

verus! {

/// A message exchanged between replicas, or sent by a client to the primary.
#[derive(Debug, Clone, PartialEq)]
pub enum Message {
    Request { client_id: usize, request_number: usize, op: Op },
    Prepare { view_number: usize, op: Op, op_number: usize, commit_number: usize },
    PrepareOk { view_number: usize, op_number: usize },
    Commit { view_number: usize, commit_number: usize },
    GetState { replica_id: usize, view_number: usize, op_number: usize },
    NewState { view_number: usize, log: Vec<Op>, op_number: usize, commit_number: usize },
    StartViewChange { view_number: usize, replica_id: usize },
    DoViewChange {
        view_number: usize,
        op_number: usize,
        replica_id: usize,
        commit_number: usize,
        log: Vec<Op>,
    },
    StartView {
        view_number: usize,
        op_number: usize,
        replica_id: usize,
        commit_number: usize,
        log: Vec<Op>,
    },
}

/// The mathematical value of a `Message`: the same variants, with logs as sequences.
pub enum MessageView {
    Request { client_id: usize, request_number: usize, op: Op },
    Prepare { view_number: usize, op: Op, op_number: usize, commit_number: usize },
    PrepareOk { view_number: usize, op_number: usize },
    Commit { view_number: usize, commit_number: usize },
    GetState { replica_id: usize, view_number: usize, op_number: usize },
    NewState { view_number: usize, log: Seq<Op>, op_number: usize, commit_number: usize },
    StartViewChange { view_number: usize, replica_id: usize },
    DoViewChange {
        view_number: usize,
        op_number: usize,
        replica_id: usize,
        commit_number: usize,
        log: Seq<Op>,
    },
    StartView {
        view_number: usize,
        op_number: usize,
        replica_id: usize,
        commit_number: usize,
        log: Seq<Op>,
    },
}

impl View for Message {
    type V = MessageView;

    open spec fn view(&self) -> MessageView {
        match self {
            Message::Request { client_id, request_number, op } => MessageView::Request {
                client_id: *client_id,
                request_number: *request_number,
                op: *op,
            },
            Message::Prepare { view_number, op, op_number, commit_number } => MessageView::Prepare {
                view_number: *view_number,
                op: *op,
                op_number: *op_number,
                commit_number: *commit_number,
            },
            Message::PrepareOk { view_number, op_number } => MessageView::PrepareOk {
                view_number: *view_number,
                op_number: *op_number,
            },
            Message::Commit { view_number, commit_number } => MessageView::Commit {
                view_number: *view_number,
                commit_number: *commit_number,
            },
            Message::GetState { replica_id, view_number, op_number } => MessageView::GetState {
                replica_id: *replica_id,
                view_number: *view_number,
                op_number: *op_number,
            },
            Message::NewState { view_number, log, op_number, commit_number } =>
                MessageView::NewState {
                view_number: *view_number,
                log: log@,
                op_number: *op_number,
                commit_number: *commit_number,
            },
            Message::StartViewChange { view_number, replica_id } => MessageView::StartViewChange {
                view_number: *view_number,
                replica_id: *replica_id,
            },
            Message::DoViewChange { view_number, op_number, replica_id, commit_number, log } =>
                MessageView::DoViewChange {
                view_number: *view_number,
                op_number: *op_number,
                replica_id: *replica_id,
                commit_number: *commit_number,
                log: log@,
            },
            Message::StartView { view_number, op_number, replica_id, commit_number, log } =>
                MessageView::StartView {
                view_number: *view_number,
                op_number: *op_number,
                replica_id: *replica_id,
                commit_number: *commit_number,
                log: log@,
            },
        }
    }
}

/// The eight bytes of a `usize` field.
pub open spec fn word(x: usize) -> Seq<u8> {
    le64(x as u64)
}

/// The fields `xs`, eight bytes each, in order.
pub open spec fn words(xs: Seq<usize>) -> Seq<u8>
    decreases xs.len(),
{
    if xs.len() == 0 {
        Seq::empty()
    } else {
        words(xs.drop_last()) + word(xs.last())
    }
}

/// A discriminator followed by fixed-width fields.
pub open spec fn header(tag: u8, xs: Seq<usize>) -> Seq<u8> {
    seq![tag] + words(xs)
}

/// The body of a message: its discriminator, then its fields in wire order.
pub open spec fn body_bytes(m: MessageView) -> Seq<u8> {
    match m {
        MessageView::Request { client_id, request_number, op } => header(
            1,
            seq![client_id, request_number],
        ) + op_bytes(op),
        MessageView::Prepare { view_number, op, op_number, commit_number } => header(
            2,
            seq![view_number, commit_number, op_number],
        ) + op_bytes(op),
        MessageView::PrepareOk { view_number, op_number } => header(
            3,
            seq![view_number, op_number],
        ),
        MessageView::Commit { view_number, commit_number } => header(
            4,
            seq![view_number, commit_number],
        ),
        MessageView::StartViewChange { view_number, replica_id } => header(
            5,
            seq![view_number, replica_id],
        ),
        MessageView::DoViewChange { view_number, op_number, replica_id, commit_number, log } =>
            header(6, seq![view_number, op_number, replica_id, commit_number]) + ops_bytes(log),
        MessageView::StartView { view_number, op_number, replica_id, commit_number, log } =>
            header(7, seq![view_number, op_number, replica_id, commit_number]) + ops_bytes(log),
        MessageView::GetState { replica_id, view_number, op_number } => header(
            8,
            seq![replica_id, view_number, op_number],
        ),
        MessageView::NewState { view_number, log, op_number, commit_number } => header(
            9,
            seq![view_number, op_number, commit_number],
        ) + ops_bytes(log),
    }
}

/// A whole frame: the body's length as four little-endian bytes, then the body.
pub open spec fn frame_bytes(m: MessageView) -> Seq<u8> {
    le32(body_bytes(m).len() as u32) + body_bytes(m)
}

/// The field that starts at `s[pos]`.
pub open spec fn field_at(s: Seq<u8>, pos: int) -> u64 {
    from_le64(s.subrange(pos, pos + 8))
}

/// `s` holds, after its discriminator, `count` fields that each fit a `usize`.
pub open spec fn fields_fit(s: Seq<u8>, count: int) -> bool {
    &&& s.len() >= 1 + 8 * count
    &&& forall|i: int| 0 <= i < count ==> #[trigger] field_at(s, 1 + 8 * i) <= usize::MAX
}

/// Field number `i` of the body `s`, as a `usize`.
pub open spec fn f(s: Seq<u8>, i: int) -> usize {
    field_at(s, 1 + 8 * i) as usize
}

/// The first `count` fields of the body `s`.
pub open spec fn fields(s: Seq<u8>, count: int) -> Seq<usize> {
    Seq::new(count as nat, |i: int| f(s, i))
}

/// A body whose fields are followed by exactly one operation.
pub open spec fn parse_with_op(s: Seq<u8>, count: int) -> Option<Op> {
    if fields_fit(s, count) {
        match decode_op(s.skip(1 + 8 * count)) {
            Some((op, n)) => if n == s.len() - (1 + 8 * count) {
                Some(op)
            } else {
                None
            },
            None => None,
        }
    } else {
        None
    }
}

/// A body whose fields are followed by a log.
pub open spec fn parse_with_log(s: Seq<u8>, count: int) -> Option<Seq<Op>> {
    if fields_fit(s, count) {
        decode_ops(s.skip(1 + 8 * count))
    } else {
        None
    }
}

/// A body made of fields alone.
pub open spec fn fields_only(s: Seq<u8>, count: int) -> bool {
    fields_fit(s, count) && s.len() == 1 + 8 * count
}

/// The message whose body is `s`, if `s` is the body of a message.
pub open spec fn parse_body(s: Seq<u8>) -> Option<MessageView> {
    if s.len() == 0 {
        None
    } else if s[0] == 1 {
        match parse_with_op(s, 2) {
            Some(op) => Some(
                MessageView::Request { client_id: f(s, 0), request_number: f(s, 1), op },
            ),
            None => None,
        }
    } else if s[0] == 2 {
        match parse_with_op(s, 3) {
            Some(op) => Some(
                MessageView::Prepare {
                    view_number: f(s, 0),
                    commit_number: f(s, 1),
                    op_number: f(s, 2),
                    op,
                },
            ),
            None => None,
        }
    } else if s[0] == 3 {
        if fields_only(s, 2) {
            Some(MessageView::PrepareOk { view_number: f(s, 0), op_number: f(s, 1) })
        } else {
            None
        }
    } else if s[0] == 4 {
        if fields_only(s, 2) {
            Some(MessageView::Commit { view_number: f(s, 0), commit_number: f(s, 1) })
        } else {
            None
        }
    } else if s[0] == 5 {
        if fields_only(s, 2) {
            Some(MessageView::StartViewChange { view_number: f(s, 0), replica_id: f(s, 1) })
        } else {
            None
        }
    } else if s[0] == 6 {
        match parse_with_log(s, 4) {
            Some(log) => Some(
                MessageView::DoViewChange {
                    view_number: f(s, 0),
                    op_number: f(s, 1),
                    replica_id: f(s, 2),
                    commit_number: f(s, 3),
                    log,
                },
            ),
            None => None,
        }
    } else if s[0] == 7 {
        match parse_with_log(s, 4) {
            Some(log) => Some(
                MessageView::StartView {
                    view_number: f(s, 0),
                    op_number: f(s, 1),
                    replica_id: f(s, 2),
                    commit_number: f(s, 3),
                    log,
                },
            ),
            None => None,
        }
    } else if s[0] == 8 {
        if fields_only(s, 3) {
            Some(
                MessageView::GetState {
                    replica_id: f(s, 0),
                    view_number: f(s, 1),
                    op_number: f(s, 2),
                },
            )
        } else {
            None
        }
    } else if s[0] == 9 {
        match parse_with_log(s, 3) {
            Some(log) => Some(
                MessageView::NewState {
                    view_number: f(s, 0),
                    op_number: f(s, 1),
                    commit_number: f(s, 2),
                    log,
                },
            ),
            None => None,
        }
    } else {
        None
    }
}

proof fn lemma_words(xs: Seq<usize>)
    ensures
        words(xs).len() == 8 * xs.len(),
        forall|i: int|
            0 <= i < xs.len() ==> words(xs).subrange(8 * i, 8 * i + 8) == #[trigger] word(xs[i]),
    decreases xs.len(),
{
    if xs.len() > 0 {
        let init = xs.drop_last();
        lemma_words(init);
        lemma_le64_round_trip(xs.last() as u64);
        assert forall|i: int| 0 <= i < xs.len() implies words(xs).subrange(8 * i, 8 * i + 8)
            == #[trigger] word(xs[i]) by {
            if i < init.len() {
                assert(words(xs).subrange(8 * i, 8 * i + 8) =~= words(init).subrange(
                    8 * i,
                    8 * i + 8,
                ));
                assert(init[i] == xs[i]);
            } else {
                assert(words(xs).subrange(8 * i, 8 * i + 8) =~= word(xs.last()));
            }
        }
    }
}

/// What a header followed by `tail` holds, field by field.
proof fn lemma_header(tag: u8, xs: Seq<usize>, tail: Seq<u8>)
    ensures
        ({
            let s = header(tag, xs) + tail;
            &&& s.len() == 1 + 8 * xs.len() + tail.len()
            &&& s[0] == tag
            &&& fields_fit(s, xs.len() as int)
            &&& forall|i: int| 0 <= i < xs.len() ==> f(s, i) == xs[i]
            &&& s.skip(1 + 8 * xs.len() as int) == tail
        }),
{
    let s = header(tag, xs) + tail;
    lemma_words(xs);
    assert forall|i: int| 0 <= i < xs.len() implies #[trigger] field_at(s, 1 + 8 * i)
        == xs[i] as u64 by {
        assert(s.subrange(1 + 8 * i, 1 + 8 * i + 8) =~= words(xs).subrange(8 * i, 8 * i + 8));
        assert(words(xs).subrange(8 * i, 8 * i + 8) == word(xs[i]));
        lemma_le64_round_trip(xs[i] as u64);
    }
    assert(s.skip(1 + 8 * xs.len() as int) =~= tail);
}

/// The first `count` fields of a body, with its discriminator, are a header.
proof fn lemma_header_prefix(s: Seq<u8>, count: int)
    requires
        0 <= count,
        fields_fit(s, count),
    ensures
        s.take(1 + 8 * count) == header(s[0], fields(s, count)),
    decreases count,
{
    if count == 0 {
        assert(fields(s, 0).len() == 0);
        assert(s.take(1) =~= header(s[0], fields(s, 0)));
    } else {
        assert(fields_fit(s, count - 1));
        lemma_header_prefix(s, count - 1);
        let xs = fields(s, count);
        assert(xs.drop_last() =~= fields(s, count - 1));
        let w = s.subrange(1 + 8 * (count - 1), 1 + 8 * count);
        assert(field_at(s, 1 + 8 * (count - 1)) <= usize::MAX);
        lemma_le64_of_bytes(w);
        assert(word(xs.last()) == w);
        assert(s.take(1 + 8 * count) =~= s.take(1 + 8 * (count - 1)) + w);
    }
}

/// A body that `parse_body` accepts is the body of the message it returns.
pub proof fn lemma_parse_body_sound(s: Seq<u8>)
    requires
        parse_body(s) is Some,
    ensures
        body_bytes(parse_body(s).unwrap()) == s,
{
    let m = parse_body(s).unwrap();
    let tag = s[0];
    let count: int = if tag == 1 || tag == 3 || tag == 4 || tag == 5 {
        2
    } else if tag == 2 || tag == 8 || tag == 9 {
        3
    } else {
        4
    };
    lemma_header_prefix(s, count);
    let head = s.take(1 + 8 * count);
    let tail = s.skip(1 + 8 * count);
    assert(s =~= head + tail);
    let xs = fields(s, count);
    if tag == 1 || tag == 2 {
        lemma_decode_op_sound(tail);
        assert(tail =~= tail.take(tail.len() as int));
    }
    if tag == 6 || tag == 7 || tag == 9 {
        lemma_decode_ops_exact(tail, decode_ops(tail).unwrap());
    }
    if tag == 3 || tag == 4 || tag == 5 || tag == 8 {
        assert(tail =~= Seq::<u8>::empty());
    }
    if count == 2 {
        assert(xs =~= seq![f(s, 0), f(s, 1)]);
    } else if count == 3 {
        assert(xs =~= seq![f(s, 0), f(s, 1), f(s, 2)]);
    } else {
        assert(xs =~= seq![f(s, 0), f(s, 1), f(s, 2), f(s, 3)]);
    }
}

proof fn lemma_with_op_round_trip(tag: u8, xs: Seq<usize>, op: Op)
    ensures
        ({
            let s = header(tag, xs) + op_bytes(op);
            &&& s[0] == tag
            &&& parse_with_op(s, xs.len() as int) == Some(op)
            &&& forall|i: int| 0 <= i < xs.len() ==> f(s, i) == xs[i]
        }),
{
    lemma_header(tag, xs, op_bytes(op));
    lemma_decode_op_bytes(op, Seq::empty());
    assert(op_bytes(op) + Seq::<u8>::empty() =~= op_bytes(op));
}

proof fn lemma_with_log_round_trip(tag: u8, xs: Seq<usize>, log: Seq<Op>)
    ensures
        ({
            let s = header(tag, xs) + ops_bytes(log);
            &&& s[0] == tag
            &&& parse_with_log(s, xs.len() as int) == Some(log)
            &&& forall|i: int| 0 <= i < xs.len() ==> f(s, i) == xs[i]
        }),
{
    lemma_header(tag, xs, ops_bytes(log));
    lemma_decode_ops_exact(ops_bytes(log), log);
}

proof fn lemma_fields_only_round_trip(tag: u8, xs: Seq<usize>)
    ensures
        ({
            let s = header(tag, xs);
            &&& s.len() > 0
            &&& s[0] == tag
            &&& fields_only(s, xs.len() as int)
            &&& forall|i: int| 0 <= i < xs.len() ==> f(s, i) == xs[i]
        }),
{
    lemma_header(tag, xs, Seq::empty());
    assert(header(tag, xs) + Seq::<u8>::empty() =~= header(tag, xs));
}

proof fn lemma_request_round_trip(m: MessageView)
    requires
        m is Request,
    ensures
        parse_body(body_bytes(m)) == Some(m),
{
    if let MessageView::Request { client_id, request_number, op } = m {
        lemma_with_op_round_trip(1, seq![client_id, request_number], op);
    }
}

proof fn lemma_prepare_round_trip(m: MessageView)
    requires
        m is Prepare,
    ensures
        parse_body(body_bytes(m)) == Some(m),
{
    if let MessageView::Prepare { view_number, op, op_number, commit_number } = m {
        lemma_with_op_round_trip(2, seq![view_number, commit_number, op_number], op);
    }
}

proof fn lemma_prepare_ok_round_trip(m: MessageView)
    requires
        m is PrepareOk,
    ensures
        parse_body(body_bytes(m)) == Some(m),
{
    if let MessageView::PrepareOk { view_number, op_number } = m {
        lemma_fields_only_round_trip(3, seq![view_number, op_number]);
    }
}

proof fn lemma_commit_round_trip(m: MessageView)
    requires
        m is Commit,
    ensures
        parse_body(body_bytes(m)) == Some(m),
{
    if let MessageView::Commit { view_number, commit_number } = m {
        lemma_fields_only_round_trip(4, seq![view_number, commit_number]);
    }
}

proof fn lemma_start_view_change_round_trip(m: MessageView)
    requires
        m is StartViewChange,
    ensures
        parse_body(body_bytes(m)) == Some(m),
{
    if let MessageView::StartViewChange { view_number, replica_id } = m {
        lemma_fields_only_round_trip(5, seq![view_number, replica_id]);
    }
}

proof fn lemma_do_view_change_round_trip(m: MessageView)
    requires
        m is DoViewChange,
    ensures
        parse_body(body_bytes(m)) == Some(m),
{
    if let MessageView::DoViewChange { view_number, op_number, replica_id, commit_number, log } = m {
        lemma_with_log_round_trip(6, seq![view_number, op_number, replica_id, commit_number], log);
    }
}

proof fn lemma_start_view_round_trip(m: MessageView)
    requires
        m is StartView,
    ensures
        parse_body(body_bytes(m)) == Some(m),
{
    if let MessageView::StartView { view_number, op_number, replica_id, commit_number, log } = m {
        lemma_with_log_round_trip(7, seq![view_number, op_number, replica_id, commit_number], log);
    }
}

proof fn lemma_get_state_round_trip(m: MessageView)
    requires
        m is GetState,
    ensures
        parse_body(body_bytes(m)) == Some(m),
{
    if let MessageView::GetState { replica_id, view_number, op_number } = m {
        lemma_fields_only_round_trip(8, seq![replica_id, view_number, op_number]);
    }
}

proof fn lemma_new_state_round_trip(m: MessageView)
    requires
        m is NewState,
    ensures
        parse_body(body_bytes(m)) == Some(m),
{
    if let MessageView::NewState { view_number, log, op_number, commit_number } = m {
        lemma_with_log_round_trip(9, seq![view_number, op_number, commit_number], log);
    }
}

/// Codec round trip: the body of every message parses back to that message, and a
/// frame's length prefix gives the length of the body that follows it.
pub proof fn lemma_codec_round_trip(m: MessageView)
    ensures
        parse_body(body_bytes(m)) == Some(m),
        body_bytes(m).len() <= u32::MAX ==> {
            &&& frame_bytes(m).skip(4) == body_bytes(m)
            &&& from_le32(frame_bytes(m)) as int == body_bytes(m).len()
        },
{
    match m {
        MessageView::Request { .. } => lemma_request_round_trip(m),
        MessageView::Prepare { .. } => lemma_prepare_round_trip(m),
        MessageView::PrepareOk { .. } => lemma_prepare_ok_round_trip(m),
        MessageView::Commit { .. } => lemma_commit_round_trip(m),
        MessageView::StartViewChange { .. } => lemma_start_view_change_round_trip(m),
        MessageView::DoViewChange { .. } => lemma_do_view_change_round_trip(m),
        MessageView::StartView { .. } => lemma_start_view_round_trip(m),
        MessageView::GetState { .. } => lemma_get_state_round_trip(m),
        MessageView::NewState { .. } => lemma_new_state_round_trip(m),
    }
    if body_bytes(m).len() <= u32::MAX {
        lemma_frame_prefix(m);
    }
}

proof fn lemma_frame_prefix(m: MessageView)
    requires
        body_bytes(m).len() <= u32::MAX,
    ensures
        frame_bytes(m).skip(4) == body_bytes(m),
        from_le32(frame_bytes(m)) as int == body_bytes(m).len(),
{
    let s = body_bytes(m);
    lemma_le32_round_trip(s.len() as u32);
    let fr = frame_bytes(m);
    assert(fr.skip(4) =~= s);
    let w = le32(s.len() as u32);
    assert(fr[0] == w[0] && fr[1] == w[1] && fr[2] == w[2] && fr[3] == w[3]);
}

proof fn lemma_words_literal(a: usize, b: usize, c: usize, d: usize)
    ensures
        words(seq![a, b]) == word(a) + word(b),
        words(seq![a, b, c]) == word(a) + word(b) + word(c),
        words(seq![a, b, c, d]) == word(a) + word(b) + word(c) + word(d),
{
    assert(seq![a].drop_last() =~= Seq::<usize>::empty());
    assert(seq![a, b].drop_last() =~= seq![a]);
    assert(seq![a, b, c].drop_last() =~= seq![a, b]);
    assert(seq![a, b, c, d].drop_last() =~= seq![a, b, c]);
    assert(seq![a].last() == a && seq![a, b].last() == b && seq![a, b, c].last() == c);
    assert(seq![a, b, c, d].last() == d);
    assert(words(Seq::<usize>::empty()) == Seq::<u8>::empty());
    assert(words(seq![a]) =~= word(a));
    assert(words(seq![a, b]) == words(seq![a]) + word(b));
    assert(words(seq![a, b, c]) == words(seq![a, b]) + word(c));
    assert(words(seq![a, b, c, d]) == words(seq![a, b, c]) + word(d));
}

/// A request's body is at most 26 bytes long.
pub proof fn lemma_request_body_len(client_id: usize, request_number: usize, op: Op)
    ensures
        body_bytes(MessageView::Request { client_id, request_number, op }).len() <= 26,
{
    lemma_header(1, seq![client_id, request_number], op_bytes(op));
}

/// Reads the first `count` fields of the body that starts at `buf[start]`.
fn read_fields(buf: &[u8], start: usize, count: usize) -> (r: Option<Vec<usize>>)
    requires
        start <= buf@.len(),
        count <= 4,
    ensures
        match r {
            Some(xs) => fields_fit(buf@.skip(start as int), count as int) && xs@ == fields(
                buf@.skip(start as int),
                count as int,
            ),
            None => !fields_fit(buf@.skip(start as int), count as int),
        },
{
    let ghost s = buf@.skip(start as int);
    if buf.len() - start < 1 + 8 * count {
        return None;
    }
    let mut xs: Vec<usize> = Vec::new();
    let mut i: usize = 0;
    while i < count
        invariant
            i <= count <= 4,
            start + 1 + 8 * count <= buf.len(),
            buf.len() == buf@.len(),
            s == buf@.skip(start as int),
            s.len() >= 1 + 8 * count,
            forall|j: int| 0 <= j < i ==> #[trigger] field_at(s, 1 + 8 * j) <= usize::MAX,
            xs@ == fields(s, i as int),
        decreases count - i,
    {
        assert(start + 1 + 8 * i + 8 <= buf@.len());
        let pos = start + 1 + 8 * i;
        let x = read_u64(buf, pos);
        assert(buf@.subrange(pos as int, pos + 8) =~= s.subrange(1 + 8 * i, 1 + 8 * i + 8));
        assert(field_at(s, 1 + 8 * i) == x);
        if x > usize::MAX as u64 {
            return None;
        }
        xs.push(x as usize);
        i = i + 1;
        assert(xs@ =~= fields(s, i as int));
    }
    Some(xs)
}

impl Message {
    /// Appends the body of this message: its discriminator and its fields in wire order.
    #[verifier::spinoff_prover]
    #[verifier::rlimit(40)]
    pub fn write_body(&self, bytes: &mut Vec<u8>)
        ensures
            final(bytes)@ == old(bytes)@ + body_bytes(self@),
    {
        match self {
            Message::Request { client_id, request_number, op } => {
                bytes.push(1u8);
                push_u64(bytes, *client_id as u64);
                push_u64(bytes, *request_number as u64);
                op.write_to(bytes);
                proof {
                    lemma_words_literal(*client_id, *request_number, 0, 0);
                }
            },
            Message::Prepare { view_number, op, op_number, commit_number } => {
                bytes.push(2u8);
                push_u64(bytes, *view_number as u64);
                push_u64(bytes, *commit_number as u64);
                push_u64(bytes, *op_number as u64);
                op.write_to(bytes);
                proof {
                    lemma_words_literal(*view_number, *commit_number, *op_number, 0);
                }
            },
            Message::PrepareOk { view_number, op_number } => {
                bytes.push(3u8);
                push_u64(bytes, *view_number as u64);
                push_u64(bytes, *op_number as u64);
                proof {
                    lemma_words_literal(*view_number, *op_number, 0, 0);
                }
            },
            Message::Commit { view_number, commit_number } => {
                bytes.push(4u8);
                push_u64(bytes, *view_number as u64);
                push_u64(bytes, *commit_number as u64);
                proof {
                    lemma_words_literal(*view_number, *commit_number, 0, 0);
                }
            },
            Message::StartViewChange { view_number, replica_id } => {
                bytes.push(5u8);
                push_u64(bytes, *view_number as u64);
                push_u64(bytes, *replica_id as u64);
                proof {
                    lemma_words_literal(*view_number, *replica_id, 0, 0);
                }
            },
            Message::DoViewChange { view_number, op_number, replica_id, commit_number, log } => {
                bytes.push(6u8);
                push_u64(bytes, *view_number as u64);
                push_u64(bytes, *op_number as u64);
                push_u64(bytes, *replica_id as u64);
                push_u64(bytes, *commit_number as u64);
                write_ops(bytes, log);
                proof {
                    lemma_words_literal(*view_number, *op_number, *replica_id, *commit_number);
                }
            },
            Message::StartView { view_number, op_number, replica_id, commit_number, log } => {
                bytes.push(7u8);
                push_u64(bytes, *view_number as u64);
                push_u64(bytes, *op_number as u64);
                push_u64(bytes, *replica_id as u64);
                push_u64(bytes, *commit_number as u64);
                write_ops(bytes, log);
                proof {
                    lemma_words_literal(*view_number, *op_number, *replica_id, *commit_number);
                }
            },
            Message::GetState { replica_id, view_number, op_number } => {
                bytes.push(8u8);
                push_u64(bytes, *replica_id as u64);
                push_u64(bytes, *view_number as u64);
                push_u64(bytes, *op_number as u64);
                proof {
                    lemma_words_literal(*replica_id, *view_number, *op_number, 0);
                }
            },
            Message::NewState { view_number, log, op_number, commit_number } => {
                bytes.push(9u8);
                push_u64(bytes, *view_number as u64);
                push_u64(bytes, *op_number as u64);
                push_u64(bytes, *commit_number as u64);
                write_ops(bytes, log);
                proof {
                    lemma_words_literal(*view_number, *op_number, *commit_number, 0);
                }
            },
        }
        assert(final(bytes)@ =~= old(bytes)@ + body_bytes(self@));
    }

    /// The body of this message.
    pub fn body(&self) -> (r: Vec<u8>)
        ensures
            r@ == body_bytes(self@),
    {
        let mut bytes: Vec<u8> = Vec::new();
        self.write_body(&mut bytes);
        assert(bytes@ =~= body_bytes(self@));
        bytes
    }

    /// Whether the body of this message is short enough for its length to fit the frame's
    /// four-byte prefix.
    pub fn fits_in_frame(&self) -> (r: bool)
        ensures
            r == (body_bytes(self@).len() <= u32::MAX),
    {
        let body = self.body();
        body.len() <= u32::MAX as usize
    }

    /// The frame of this message: the length of its body as four little-endian bytes,
    /// then the body.
    pub fn to_bytes(&self) -> (r: Vec<u8>)
        requires
            body_bytes(self@).len() <= u32::MAX,
        ensures
            r@ == frame_bytes(self@),
    {
        let mut body = self.body();
        let mut frame: Vec<u8> = Vec::new();
        push_u32(&mut frame, body.len() as u32);
        frame.append(&mut body);
        assert(frame@ =~= frame_bytes(self@));
        frame
    }

    /// Parses a message body (a frame without its length prefix). It fails exactly when
    /// `buf` is the body of no message.
    pub fn parse_message(buf: &[u8]) -> (r: Result<Message, ProtocolError>)
        ensures
            match r {
                Ok(m) => body_bytes(m@) == buf@,
                Err(_) => forall|m: MessageView| body_bytes(m) != buf@,
            },
    {
        let r = Self::decode_at(buf, 0);
        proof {
            assert(buf@.skip(0) =~= buf@);
            Self::lemma_parse_exact(buf@);
        }
        r
    }

    /// Parses a whole frame. It fails exactly when `buf` is the frame of no message.
    pub fn parse_frame(buf: &[u8]) -> (r: Result<Message, ProtocolError>)
        ensures
            match r {
                Ok(m) => body_bytes(m@).len() <= u32::MAX && frame_bytes(m@) == buf@,
                Err(_) => forall|m: MessageView|
                    body_bytes(m).len() <= u32::MAX ==> frame_bytes(m) != buf@,
            },
    {
        if buf.len() < 4 {
            proof {
                assert forall|m: MessageView| body_bytes(m).len() <= u32::MAX implies frame_bytes(m)
                    != buf@ by {
                    assert(frame_bytes(m).len() >= 4);
                }
            }
            return Err(ProtocolError);
        }
        let len = read_u32(buf);
        if len as usize != buf.len() - 4 {
            proof {
                assert forall|m: MessageView| body_bytes(m).len() <= u32::MAX implies frame_bytes(m)
                    != buf@ by {
                    lemma_codec_round_trip(m);
                    if frame_bytes(m) == buf@ {
                        assert(frame_bytes(m).len() == 4 + body_bytes(m).len());
                    }
                }
            }
            return Err(ProtocolError);
        }
        let r = Self::decode_at(buf, 4);
        proof {
            let body = buf@.skip(4);
            Self::lemma_parse_exact(body);
            assert forall|m: MessageView| body_bytes(m).len() <= u32::MAX && frame_bytes(m)
                == buf@ implies body_bytes(m) == body by {
                lemma_codec_round_trip(m);
            }
            if let Ok(m) = &r {
                lemma_le32_of_len(buf@, body.len());
                assert(frame_bytes(m@) =~= buf@);
            }
        }
        r
    }

    /// `parse_body` finds a message exactly when `s` is the body of one.
    proof fn lemma_parse_exact(s: Seq<u8>)
        ensures
            forall|m: MessageView| #[trigger] parse_body(s) == Some(m) <==> body_bytes(m) == s,
    {
        assert forall|m: MessageView| #[trigger] parse_body(s) == Some(m) <==> body_bytes(m) == s by {
            lemma_codec_round_trip(m);
            if parse_body(s) == Some(m) {
                lemma_parse_body_sound(s);
            }
        }
    }

    /// Decodes the body that starts at `buf[start]` and runs to the end of `buf`.
    fn decode_at(buf: &[u8], start: usize) -> (r: Result<Message, ProtocolError>)
        requires
            start <= buf@.len(),
        ensures
            match r {
                Ok(m) => parse_body(buf@.skip(start as int)) == Some(m@),
                Err(_) => parse_body(buf@.skip(start as int)) is None,
            },
    {
        let ghost s = buf@.skip(start as int);
        if start >= buf.len() {
            return Err(ProtocolError);
        }
        let tag = buf[start];
        if tag == 1 || tag == 2 {
            Self::decode_with_op(buf, start)
        } else if tag == 3 || tag == 4 || tag == 5 || tag == 8 {
            Self::decode_fields_only(buf, start)
        } else if tag == 6 || tag == 7 || tag == 9 {
            Self::decode_with_log(buf, start)
        } else {
            Err(ProtocolError)
        }
    }

    fn decode_with_op(buf: &[u8], start: usize) -> (r: Result<Message, ProtocolError>)
        requires
            start < buf@.len(),
            buf[start as int] == 1 || buf[start as int] == 2,
        ensures
            match r {
                Ok(m) => parse_body(buf@.skip(start as int)) == Some(m@),
                Err(_) => parse_body(buf@.skip(start as int)) is None,
            },
    {
        let ghost s = buf@.skip(start as int);
        let tag = buf[start];
        let count: usize = if tag == 1 { 2 } else { 3 };
        let xs = match read_fields(buf, start, count) {
            Some(xs) => xs,
            None => return Err(ProtocolError),
        };
        let at = start + 1 + 8 * count;
        assert(s.skip(1 + 8 * count) =~= buf@.skip(at as int));
        let (op, n) = match Op::decode_at(buf, at) {
            Ok(p) => p,
            Err(_) => return Err(ProtocolError),
        };
        if n != buf.len() - at {
            return Err(ProtocolError);
        }
        if tag == 1 {
            Ok(Message::Request { client_id: xs[0], request_number: xs[1], op })
        } else {
            Ok(
                Message::Prepare {
                    view_number: xs[0],
                    commit_number: xs[1],
                    op_number: xs[2],
                    op,
                },
            )
        }
    }

    fn decode_fields_only(buf: &[u8], start: usize) -> (r: Result<Message, ProtocolError>)
        requires
            start < buf@.len(),
            buf[start as int] == 3 || buf[start as int] == 4 || buf[start as int] == 5 || buf[start as int] == 8,
        ensures
            match r {
                Ok(m) => parse_body(buf@.skip(start as int)) == Some(m@),
                Err(_) => parse_body(buf@.skip(start as int)) is None,
            },
    {
        let ghost s = buf@.skip(start as int);
        let tag = buf[start];
        let count: usize = if tag == 8 { 3 } else { 2 };
        let xs = match read_fields(buf, start, count) {
            Some(xs) => xs,
            None => return Err(ProtocolError),
        };
        if buf.len() - start != 1 + 8 * count {
            return Err(ProtocolError);
        }
        if tag == 3 {
            Ok(Message::PrepareOk { view_number: xs[0], op_number: xs[1] })
        } else if tag == 4 {
            Ok(Message::Commit { view_number: xs[0], commit_number: xs[1] })
        } else if tag == 5 {
            Ok(Message::StartViewChange { view_number: xs[0], replica_id: xs[1] })
        } else {
            Ok(Message::GetState { replica_id: xs[0], view_number: xs[1], op_number: xs[2] })
        }
    }

    fn decode_with_log(buf: &[u8], start: usize) -> (r: Result<Message, ProtocolError>)
        requires
            start < buf@.len(),
            buf[start as int] == 6 || buf[start as int] == 7 || buf[start as int] == 9,
        ensures
            match r {
                Ok(m) => parse_body(buf@.skip(start as int)) == Some(m@),
                Err(_) => parse_body(buf@.skip(start as int)) is None,
            },
    {
        let ghost s = buf@.skip(start as int);
        let tag = buf[start];
        let count: usize = if tag == 9 { 3 } else { 4 };
        let xs = match read_fields(buf, start, count) {
            Some(xs) => xs,
            None => return Err(ProtocolError),
        };
        let at = start + 1 + 8 * count;
        assert(s.skip(1 + 8 * count) =~= buf@.skip(at as int));
        let log = match read_ops(buf, at) {
            Ok(log) => log,
            Err(_) => return Err(ProtocolError),
        };
        if tag == 6 {
            Ok(
                Message::DoViewChange {
                    view_number: xs[0],
                    op_number: xs[1],
                    replica_id: xs[2],
                    commit_number: xs[3],
                    log,
                },
            )
        } else if tag == 7 {
            Ok(
                Message::StartView {
                    view_number: xs[0],
                    op_number: xs[1],
                    replica_id: xs[2],
                    commit_number: xs[3],
                    log,
                },
            )
        } else {
            Ok(
                Message::NewState {
                    view_number: xs[0],
                    op_number: xs[1],
                    commit_number: xs[2],
                    log,
                },
            )
        }
    }
}

/// Four bytes that decode to the length of what follows them are that length's encoding.
proof fn lemma_le32_of_len(buf: Seq<u8>, len: nat)
    requires
        buf.len() == 4 + len,
        from_le32(buf) as nat == len,
    ensures
        buf == le32(len as u32) + buf.skip(4),
{
    let (b0, b1, b2, b3) = (buf[0], buf[1], buf[2], buf[3]);
    let x = from_le32(buf);
    assert((x & 0xff) as u8 == b0 && ((x >> 8u32) & 0xff) as u8 == b1 && ((x >> 16u32) & 0xff) as u8
        == b2 && ((x >> 24u32) & 0xff) as u8 == b3) by (bit_vector)
        requires
            x == (b0 as u32) | ((b1 as u32) << 8u32) | ((b2 as u32) << 16u32) | ((b3 as u32)
                << 24u32),
    ;
    assert(buf =~= le32(len as u32) + buf.skip(4));
}

} // verus!
