//! The demonstration state machine: an accumulating 64-bit counter.

use vstd::prelude::*;
use crate::op::Op;

verus! {

/// `acc` after applying `op`: `Add` adds modulo 2^64, `Nop` leaves it unchanged.
pub open spec fn apply_op(acc: u64, op: Op) -> u64 {
    match op {
        Op::Nop => acc,
        Op::Add(x) => ((acc as int + x as int) % 0x1_0000_0000_0000_0000) as u64,
    }
}

/// An accumulator that the replicated log drives.
pub struct StateMachine {
    value: u64,
}

impl View for StateMachine {
    type V = u64;

    closed spec fn view(&self) -> u64 {
        self.value
    }
}

impl StateMachine {
    /// A state machine whose accumulator is zero.
    pub fn new() -> (r: StateMachine)
        ensures
            r@ == 0,
    {
        StateMachine { value: 0 }
    }

    /// Applies `op` and returns the reply: the accumulator afterwards.
    pub fn apply(&mut self, op: Op) -> (r: u64)
        ensures
            final(self)@ == apply_op(old(self)@, op),
            r == final(self)@,
    {
        match op {
            Op::Add(val) => {
                if val <= u64::MAX - self.value {
                    self.value = self.value + val;
                } else {
                    self.value = val - (u64::MAX - self.value) - 1;
                }
            },
            Op::Nop => {},
        }
        self.value
    }

    /// The accumulator.
    pub fn value(&self) -> (r: u64)
        ensures
            r == self@,
    {
        self.value
    }
}

} // verus!
