use vstd::prelude::*;

use crate::cell::{wrap_add, Cell};

verus! {

/// The mathematical content of an instruction: payloads are numbers.
pub enum Op {
    NoOp,
    IncreaseIndex(nat),
    DecreaseIndex(nat),
    IncreaseValue(nat),
    DecreaseValue(nat),
    IoRead,
    IoWrite,
    FileIoRead,
    FileIoWrite,
    LoopStart(nat),
    LoopEnd(nat),
}

impl Op {
    /// Two operations fuse when both move the cursor the same way or both
    /// change the value the same way.
    pub open spec fn joinable(self, other: Op) -> bool {
        match (self, other) {
            (Op::IncreaseIndex(_), Op::IncreaseIndex(_)) => true,
            (Op::DecreaseIndex(_), Op::DecreaseIndex(_)) => true,
            (Op::IncreaseValue(_), Op::IncreaseValue(_)) => true,
            (Op::DecreaseValue(_), Op::DecreaseValue(_)) => true,
            _ => false,
        }
    }

    /// The single operation equivalent to `self` followed by `other`, for
    /// cells with `m` distinct values.
    pub open spec fn join(self, other: Op, m: nat) -> Op {
        match (self, other) {
            (Op::IncreaseIndex(x), Op::IncreaseIndex(y)) => Op::IncreaseIndex(x + y),
            (Op::DecreaseIndex(x), Op::DecreaseIndex(y)) => Op::DecreaseIndex(x + y),
            (Op::IncreaseValue(x), Op::IncreaseValue(y)) => Op::IncreaseValue(wrap_add(x, y, m)),
            (Op::DecreaseValue(x), Op::DecreaseValue(y)) => Op::DecreaseValue(wrap_add(x, y, m)),
            _ => self,
        }
    }

    pub open spec fn is_loop(self) -> bool {
        self is LoopStart || self is LoopEnd
    }
}

/// One instruction of a flat program.
#[derive(Clone, Copy, Debug, PartialEq, Eq)]
pub enum Instruction<T: Cell> {
    NoOp,
    IncreaseIndex(usize),
    DecreaseIndex(usize),
    IncreaseValue(T),
    DecreaseValue(T),
    IoRead,
    IoWrite,
    FileIoRead,
    FileIoWrite,
    /// Jump distance to the matching `LoopEnd`.
    LoopStart(usize),
    /// Jump distance back to the matching `LoopStart`.
    LoopEnd(usize),
}

impl<T: Cell> View for Instruction<T> {
    type V = Op;

    open spec fn view(&self) -> Op {
        match *self {
            Instruction::NoOp => Op::NoOp,
            Instruction::IncreaseIndex(n) => Op::IncreaseIndex(n as nat),
            Instruction::DecreaseIndex(n) => Op::DecreaseIndex(n as nat),
            Instruction::IncreaseValue(v) => Op::IncreaseValue(v.as_nat()),
            Instruction::DecreaseValue(v) => Op::DecreaseValue(v.as_nat()),
            Instruction::IoRead => Op::IoRead,
            Instruction::IoWrite => Op::IoWrite,
            Instruction::FileIoRead => Op::FileIoRead,
            Instruction::FileIoWrite => Op::FileIoWrite,
            Instruction::LoopStart(d) => Op::LoopStart(d as nat),
            Instruction::LoopEnd(d) => Op::LoopEnd(d as nat),
        }
    }
}

/// The operations of a sequence of instructions.
pub open spec fn ops_of<T: Cell>(s: Seq<Instruction<T>>) -> Seq<Op> {
    s.map_values(|i: Instruction<T>| i@)
}

impl<T: Cell> Instruction<T> {
    /// Joining `self` with `other` keeps the cursor count within `usize`.
    pub open spec fn join_fits(self, other: Instruction<T>) -> bool {
        match (self, other) {
            (Instruction::IncreaseIndex(x), Instruction::IncreaseIndex(y)) => x + y <= usize::MAX,
            (Instruction::DecreaseIndex(x), Instruction::DecreaseIndex(y)) => x + y <= usize::MAX,
            _ => true,
        }
    }

    pub fn can_join(&self, other: &Instruction<T>) -> (r: bool)
        ensures
            r == self@.joinable(other@),
    {
        match (self, other) {
            (Instruction::IncreaseIndex(_), Instruction::IncreaseIndex(_)) => true,
            (Instruction::DecreaseIndex(_), Instruction::DecreaseIndex(_)) => true,
            (Instruction::IncreaseValue(_), Instruction::IncreaseValue(_)) => true,
            (Instruction::DecreaseValue(_), Instruction::DecreaseValue(_)) => true,
            _ => false,
        }
    }

    /// Fuses two instructions of the same kind into one by adding their
    /// payloads; any other pair gives back `self`.
    pub fn join(self, other: Instruction<T>) -> (r: Instruction<T>)
        requires
            self.join_fits(other),
        ensures
            r@ == self@.join(other@, T::modulus()),
            !self@.joinable(other@) ==> r == self,
    {
        match (self, other) {
            (Instruction::IncreaseIndex(x), Instruction::IncreaseIndex(y)) => {
                Instruction::IncreaseIndex(x + y)
            },
            (Instruction::DecreaseIndex(x), Instruction::DecreaseIndex(y)) => {
                Instruction::DecreaseIndex(x + y)
            },
            (Instruction::IncreaseValue(x), Instruction::IncreaseValue(y)) => {
                Instruction::IncreaseValue(x.add_overflow(&y))
            },
            (Instruction::DecreaseValue(x), Instruction::DecreaseValue(y)) => {
                Instruction::DecreaseValue(x.add_overflow(&y))
            },
            _ => self,
        }
    }

    /// Whether the instruction is one of the two loop brackets.
    pub fn is_loop(&self) -> (r: bool)
        ensures
            r == self@.is_loop(),
    {
        match self {
            Instruction::LoopStart(_) => true,
            Instruction::LoopEnd(_) => true,
            _ => false,
        }
    }
}

} // verus!
