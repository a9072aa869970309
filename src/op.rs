//! Application operations and their self-delimiting encoding.

use vstd::prelude::*;
use crate::wire::{from_le64, le64, lemma_le64_of_bytes, lemma_le64_round_trip, push_u64, read_u64};

verus! {

/// Bytes that could not be decoded: an unknown tag or discriminator, a truncated field,
/// or a length that disagrees with the body.
#[derive(Debug, Clone, Copy, PartialEq, Eq, Structural)]
pub struct ProtocolError;

/// The largest number of bytes one operation takes on the wire.
pub const MAX_OP_SIZE: usize = 9;

/// An operation of the replicated state machine.
#[derive(Debug, Clone, Copy, PartialEq, Eq, Structural)]
pub enum Op {
    Nop,
    Add(u64),
}

/// The encoding of one operation: tag 0 for `Nop`, tag 1 followed by the operand for `Add`.
pub open spec fn op_bytes(op: Op) -> Seq<u8> {
    match op {
        Op::Nop => seq![0u8],
        Op::Add(x) => seq![1u8] + le64(x),
    }
}

/// The operation at the start of `s` and the number of bytes it takes, if `s` starts with one.
pub open spec fn decode_op(s: Seq<u8>) -> Option<(Op, nat)> {
    if s.len() >= 1 && s[0] == 0 {
        Some((Op::Nop, 1))
    } else if s.len() >= 9 && s[0] == 1 {
        Some((Op::Add(from_le64(s.subrange(1, 9))), 9))
    } else {
        None
    }
}

/// The concatenated encodings of a sequence of operations.
pub open spec fn ops_bytes(ops: Seq<Op>) -> Seq<u8>
    decreases ops.len(),
{
    if ops.len() == 0 {
        Seq::empty()
    } else {
        op_bytes(ops[0]) + ops_bytes(ops.drop_first())
    }
}

/// The operations whose encodings make up `s` exactly, if there are such.
pub open spec fn decode_ops(s: Seq<u8>) -> Option<Seq<Op>>
    decreases s.len(),
{
    match decode_op(s) {
        None => if s.len() == 0 {
            Some(Seq::empty())
        } else {
            None
        },
        Some((op, n)) => match decode_ops(s.skip(n as int)) {
            Some(rest) => Some(seq![op] + rest),
            None => None,
        },
    }
}

/// An encoded operation is decoded back, whatever follows it.
pub proof fn lemma_decode_op_bytes(op: Op, rest: Seq<u8>)
    ensures
        decode_op(op_bytes(op) + rest) == Some((op, op_bytes(op).len())),
{
    let s = op_bytes(op) + rest;
    if let Op::Add(x) = op {
        lemma_le64_round_trip(x);
        assert(s.subrange(1, 9) =~= le64(x));
    }
}

/// What `decode_op` finds at the start of `s` is an encoded operation.
pub proof fn lemma_decode_op_sound(s: Seq<u8>)
    requires
        decode_op(s) is Some,
    ensures
        ({
            let (op, n) = decode_op(s).unwrap();
            n == op_bytes(op).len() && n <= s.len() && s.take(n as int) == op_bytes(op)
        }),
{
    if s[0] == 1 {
        lemma_le64_of_bytes(s.subrange(1, 9));
        assert(s.take(9) =~= seq![1u8] + s.subrange(1, 9));
    } else {
        assert(s.take(1) =~= seq![0u8]);
    }
}

/// Decoding the encoding of a sequence of operations gives the sequence back.
pub proof fn lemma_decode_ops_bytes(ops: Seq<Op>)
    ensures
        decode_ops(ops_bytes(ops)) == Some(ops),
    decreases ops.len(),
{
    if ops.len() > 0 {
        let s = ops_bytes(ops);
        let head = op_bytes(ops[0]);
        lemma_decode_op_bytes(ops[0], ops_bytes(ops.drop_first()));
        assert(s.skip(head.len() as int) =~= ops_bytes(ops.drop_first()));
        lemma_decode_ops_bytes(ops.drop_first());
        assert(seq![ops[0]] + ops.drop_first() =~= ops);
    } else {
        assert(decode_op(Seq::<u8>::empty()) is None);
    }
}

/// What `decode_ops` finds is the only sequence of operations that `s` encodes.
pub proof fn lemma_decode_ops_sound(s: Seq<u8>)
    requires
        decode_ops(s) is Some,
    ensures
        ops_bytes(decode_ops(s).unwrap()) == s,
    decreases s.len(),
{
    match decode_op(s) {
        None => {
            assert(s =~= Seq::<u8>::empty());
        },
        Some((op, n)) => {
            lemma_decode_op_sound(s);
            lemma_decode_ops_sound(s.skip(n as int));
            let ops = decode_ops(s).unwrap();
            assert(ops.drop_first() =~= decode_ops(s.skip(n as int)).unwrap());
            assert(s =~= s.take(n as int) + s.skip(n as int));
        },
    }
}

/// Encoding one more operation appends its encoding.
pub proof fn lemma_ops_bytes_push(ops: Seq<Op>, op: Op)
    ensures
        ops_bytes(ops.push(op)) == ops_bytes(ops) + op_bytes(op),
    decreases ops.len(),
{
    if ops.len() == 0 {
        assert(ops.push(op).drop_first() =~= Seq::<Op>::empty());
        assert(ops_bytes(ops.push(op).drop_first()) == Seq::<u8>::empty());
        assert(ops.push(op)[0] == op);
        assert(ops_bytes(ops.push(op)) =~= ops_bytes(ops) + op_bytes(op));
    } else {
        assert(ops.push(op).drop_first() =~= ops.drop_first().push(op));
        lemma_ops_bytes_push(ops.drop_first(), op);
        assert(ops.push(op)[0] == ops[0]);
        assert(ops_bytes(ops.push(op)) == op_bytes(ops[0]) + (ops_bytes(ops.drop_first())
            + op_bytes(op)));
        assert(ops_bytes(ops.push(op)) =~= ops_bytes(ops) + op_bytes(op));
    }
}

/// A sequence of bytes encodes at most one sequence of operations, and `decode_ops` finds it.
pub proof fn lemma_decode_ops_exact(s: Seq<u8>, ops: Seq<Op>)
    ensures
        decode_ops(s) == Some(ops) <==> ops_bytes(ops) == s,
{
    if ops_bytes(ops) == s {
        lemma_decode_ops_bytes(ops);
    }
    if decode_ops(s) == Some(ops) {
        lemma_decode_ops_sound(s);
    }
}

impl Op {
    /// The encoding of this operation.
    pub fn to_bytes(&self) -> (r: Vec<u8>)
        ensures
            r@ == op_bytes(*self),
    {
        let mut bytes: Vec<u8> = Vec::new();
        self.write_to(&mut bytes);
        assert(bytes@ =~= op_bytes(*self));
        bytes
    }

    /// Appends the encoding of this operation.
    pub fn write_to(&self, bytes: &mut Vec<u8>)
        ensures
            final(bytes)@ == old(bytes)@ + op_bytes(*self),
    {
        match self {
            Op::Nop => {
                bytes.push(0u8);
                assert(final(bytes)@ =~= old(bytes)@ + op_bytes(*self));
            },
            Op::Add(value) => {
                bytes.push(1u8);
                push_u64(bytes, *value);
                assert(final(bytes)@ =~= old(bytes)@ + op_bytes(*self));
            },
        }
    }

    /// Decodes the operation at the start of `bytes`, with the number of bytes it takes.
    pub fn from_bytes(bytes: &[u8]) -> (r: Result<(Op, usize), ProtocolError>)
        ensures
            match r {
                Ok((op, n)) => decode_op(bytes@) == Some((op, n as nat)),
                Err(_) => decode_op(bytes@) is None,
            },
    {
        Self::decode_at(bytes, 0)
    }

    /// Decodes the operation that starts at `bytes[pos]`.
    pub fn decode_at(bytes: &[u8], pos: usize) -> (r: Result<(Op, usize), ProtocolError>)
        requires
            pos <= bytes@.len(),
        ensures
            match r {
                Ok((op, n)) => decode_op(bytes@.skip(pos as int)) == Some((op, n as nat)),
                Err(_) => decode_op(bytes@.skip(pos as int)) is None,
            },
    {
        let ghost s = bytes@.skip(pos as int);
        if pos >= bytes.len() {
            return Err(ProtocolError);
        }
        let tag = bytes[pos];
        if tag == 0 {
            Ok((Op::Nop, 1))
        } else if tag == 1 && bytes.len() - pos >= 9 {
            let value = read_u64(bytes, pos + 1);
            assert(s.subrange(1, 9) =~= bytes@.subrange(pos + 1, pos + 9));
            Ok((Op::Add(value), 9))
        } else {
            Err(ProtocolError)
        }
    }
}

/// Appends the encodings of `ops`, one after the other.
pub fn write_ops(bytes: &mut Vec<u8>, ops: &Vec<Op>)
    ensures
        final(bytes)@ == old(bytes)@ + ops_bytes(ops@),
{
    let mut i: usize = 0;
    assert(ops@.skip(0) =~= ops@);
    while i < ops.len()
        invariant
            i <= ops@.len(),
            bytes@ + ops_bytes(ops@.skip(i as int)) == old(bytes)@ + ops_bytes(ops@),
        decreases ops@.len() - i,
    {
        let ghost before = bytes@;
        ops[i].write_to(bytes);
        proof {
            let rest = ops@.skip(i as int);
            assert(rest.drop_first() =~= ops@.skip(i + 1));
            assert(rest[0] == ops@[i as int]);
            assert(before + ops_bytes(rest) =~= bytes@ + ops_bytes(ops@.skip(i + 1)));
        }
        i = i + 1;
    }
    assert(ops_bytes(ops@.skip(i as int)) =~= Seq::<u8>::empty());
    assert(bytes@ =~= old(bytes)@ + ops_bytes(ops@));
}

/// Decodes `bytes[pos..]` as a sequence of operations that fills it exactly.
pub fn read_ops(bytes: &[u8], pos: usize) -> (r: Result<Vec<Op>, ProtocolError>)
    requires
        pos <= bytes@.len(),
    ensures
        match r {
            Ok(ops) => decode_ops(bytes@.skip(pos as int)) == Some(ops@),
            Err(_) => decode_ops(bytes@.skip(pos as int)) is None,
        },
{
    let mut ops: Vec<Op> = Vec::new();
    let mut at = pos;
    assert(ops@ + Seq::<Op>::empty() =~= ops@);
    while at < bytes.len()
        invariant
            pos <= at <= bytes@.len(),
            decode_ops(bytes@.skip(pos as int)) == match decode_ops(bytes@.skip(at as int)) {
                Some(rest) => Some(ops@ + rest),
                None => None::<Seq<Op>>,
            },
        decreases bytes@.len() - at,
    {
        let ghost s = bytes@.skip(at as int);
        match Op::decode_at(bytes, at) {
            Ok((op, n)) => {
                proof {
                    lemma_decode_op_sound(s);
                    assert(s.skip(n as int) =~= bytes@.skip(at + n));
                    match decode_ops(s.skip(n as int)) {
                        Some(rest) => {
                            assert(ops@ + (seq![op] + rest) =~= ops@.push(op) + rest);
                        },
                        None => {},
                    }
                }
                ops.push(op);
                at = at + n;
            },
            Err(_) => {
                return Err(ProtocolError);
            },
        }
    }
    proof {
        let s = bytes@.skip(at as int);
        assert(s.len() == 0);
        assert(decode_op(s) is None);
        assert(ops@ + Seq::<Op>::empty() =~= ops@);
    }
    Ok(ops)
}

} // verus!
