use vstd::prelude::*;

use crate::buffer::VecBuffer;
use crate::tape::{apply_op, index_left, index_right, Tape};
use crate::cell::Cell;
use crate::instruction::{ops_of, Instruction, Op};
use crate::token::{bracket_ok, brackets_matched};
use crate::io::BraindamageIo;

verus! {

/// The state of a run in the abstract: the tape and the instruction pointer.
pub struct Machine {
    pub tape: Tape,
    pub ip: nat,
}

pub open spec fn is_io(op: Op) -> bool {
    op is IoRead || op is IoWrite || op is FileIoRead || op is FileIoWrite
}

/// The cell under the cursor.
pub open spec fn current(t: Tape) -> nat {
    t.cells[t.cursor as int]
}

/// One step of the program `prog` on cells with `m` distinct values. For
/// an I/O instruction, `input` is the value the channel handed back, which
/// lands in the cell under the cursor. A jump that leaves the program halts
/// it.
pub open spec fn step_spec(prog: Seq<Op>, s: Machine, m: nat, input: nat) -> Machine {
    if s.ip >= prog.len() {
        s
    } else {
        let len = prog.len();
        match prog[s.ip as int] {
            Op::LoopStart(d) => Machine {
                tape: s.tape,
                ip: if current(s.tape) == 0 {
                    if s.ip + d + 1 >= len {
                        len
                    } else {
                        s.ip + d + 1
                    }
                } else {
                    s.ip + 1
                },
            },
            Op::LoopEnd(d) => Machine {
                tape: s.tape,
                ip: if current(s.tape) != 0 {
                    if d <= s.ip {
                        (s.ip - d + 1) as nat
                    } else {
                        len
                    }
                } else {
                    s.ip + 1
                },
            },
            op => if is_io(op) {
                Machine {
                    tape: Tape {
                        cells: s.tape.cells.update(s.tape.cursor as int, input),
                        cursor: s.tape.cursor,
                    },
                    ip: s.ip + 1,
                }
            } else {
                Machine { tape: apply_op(op, s.tape, m), ip: s.ip + 1 }
            },
        }
    }
}

/// Steps of `prog` one after the other, the `k`-th taking `inputs[k]` as
/// what its channel handed back, if it does I/O.
pub open spec fn steps_spec(prog: Seq<Op>, s: Machine, m: nat, inputs: Seq<nat>) -> Machine
    decreases inputs.len(),
{
    if inputs.len() == 0 {
        s
    } else {
        step_spec(prog, steps_spec(prog, s, m, inputs.drop_last()), m, inputs.last())
    }
}

pub open spec fn io_free(prog: Seq<Op>) -> bool {
    forall|i: int| 0 <= i < prog.len() ==> !is_io(#[trigger] prog[i])
}

/// In a program whose brackets match, a jump from a `LoopStart(d)` lands
/// one past its `LoopEnd(d)`, and a jump back from a `LoopEnd(d)` lands on
/// its `LoopStart(d)`, after which execution goes on with the loop body.
pub proof fn lemma_jumps_land_by_partner(prog: Seq<Op>, s: Machine, m: nat, input: nat)
    requires
        brackets_matched(prog),
        s.ip < prog.len(),
    ensures
        ({
            let next = step_spec(prog, s, m, input);
            match prog[s.ip as int] {
                Op::LoopStart(d) => current(s.tape) == 0 ==> next.ip == s.ip + d + 1
                    && prog[next.ip - 1] == Op::LoopEnd(d),
                Op::LoopEnd(d) => current(s.tape) != 0 ==> next.ip == s.ip - d + 1
                    && prog[next.ip - 1] == Op::LoopStart(d),
                _ => true,
            }
        }),
{
    assert(bracket_ok(prog, s.ip as int));
}

/// Runs a flat program on a tape, with a console channel `C` and a file
/// channel `F`.
pub struct Interpreter<T: Cell, C: BraindamageIo<T>, F: BraindamageIo<T>> {
    buffer: VecBuffer<T>,
    index: usize,
    instructions: Vec<Instruction<T>>,
    inst_ptr: usize,
    console_io: C,
    file_io: F,
}

impl<T: Cell, C: BraindamageIo<T>, F: BraindamageIo<T>> Interpreter<T, C, F> {
    pub closed spec fn program(&self) -> Seq<Op> {
        ops_of(self.instructions@)
    }

    pub closed spec fn machine(&self) -> Machine {
        Machine { tape: Tape { cells: self.buffer@, cursor: self.index as nat }, ip: self.inst_ptr as nat }
    }

    pub closed spec fn console(&self) -> C {
        self.console_io
    }

    pub closed spec fn file(&self) -> F {
        self.file_io
    }

    /// The cursor is on the tape, and the instruction pointer is at most
    /// one past the program.
    pub closed spec fn inv(&self) -> bool {
        &&& self.index < self.buffer@.len()
        &&& self.inst_ptr <= self.instructions@.len()
    }

    pub open spec fn halted(&self) -> bool {
        self.machine().ip >= self.program().len()
    }

    /// An interpreter at the start of `instructions`, on a tape of
    /// `buffer_size` zero cells with the cursor on the first.
    pub fn new_with_io(
        instructions: Vec<Instruction<T>>,
        buffer_size: usize,
        console_io: C,
        file_io: F,
    ) -> (r: Self)
        requires
            buffer_size > 0,
        ensures
            r.inv(),
            r.program() == ops_of(instructions@),
            r.console() == console_io,
            r.file() == file_io,
            r.machine() == (Machine {
                tape: Tape { cells: Seq::new(buffer_size as nat, |i: int| 0nat), cursor: 0 },
                ip: 0,
            }),
    {
        Interpreter {
            buffer: VecBuffer::new(buffer_size),
            index: 0,
            instructions,
            inst_ptr: 0,
            console_io,
            file_io,
        }
    }

    /// Stores the value an I/O channel handed back in the cell under the
    /// cursor and moves on to the next instruction.
    pub fn finish_io(&mut self, value: T)
        requires
            old(self).inv(),
            !old(self).halted(),
            is_io(old(self).program()[old(self).machine().ip as int]),
        ensures
            final(self).inv(),
            final(self).program() == old(self).program(),
            final(self).console() == old(self).console(),
            final(self).file() == old(self).file(),
            final(self).machine() == step_spec(
                old(self).program(),
                old(self).machine(),
                T::modulus(),
                value.as_nat(),
            ),
    {
        let len = self.instructions.len();
        assert(self.inst_ptr < len);
        self.buffer.set_value(self.index, value);
        self.inst_ptr = self.inst_ptr + 1;
    }

    /// Executes the instruction under the instruction pointer, if any;
    /// returns whether there was one.
    pub fn step(&mut self) -> (r: bool)
        requires
            old(self).inv(),
        ensures
            final(self).inv(),
            final(self).program() == old(self).program(),
            r == !old(self).halted(),
            !r ==> final(self).machine() == old(self).machine(),
            !(r && (old(self).program()[old(self).machine().ip as int] is IoRead
                || old(self).program()[old(self).machine().ip as int] is IoWrite))
                ==> final(self).console() == old(self).console(),
            !(r && (old(self).program()[old(self).machine().ip as int] is FileIoRead
                || old(self).program()[old(self).machine().ip as int] is FileIoWrite))
                ==> final(self).file() == old(self).file(),
            r && !is_io(old(self).program()[old(self).machine().ip as int]) ==> final(self).machine()
                == step_spec(old(self).program(), old(self).machine(), T::modulus(), 0),
            r && is_io(old(self).program()[old(self).machine().ip as int]) ==> exists|v: nat|
                v < T::modulus() && final(self).machine() == step_spec(
                    old(self).program(),
                    old(self).machine(),
                    T::modulus(),
                    v,
                ),
    {
        if self.inst_ptr >= self.instructions.len() {
            return false;
        }
        let ghost prog = self.program();
        let len = self.instructions.len();
        let inst = self.instructions[self.inst_ptr];
        assert(prog[self.inst_ptr as int] == inst@);
        let size = self.buffer.size();
        proof {
            self.buffer.lemma_values_fit();
        }
        match inst {
            Instruction::NoOp => {
                self.inst_ptr = self.inst_ptr + 1;
            },
            Instruction::IncreaseIndex(x) => {
                self.index = index_right(self.index, x, size);
                self.inst_ptr = self.inst_ptr + 1;
            },
            Instruction::DecreaseIndex(x) => {
                self.index = index_left(self.index, x, size);
                self.inst_ptr = self.inst_ptr + 1;
            },
            Instruction::IncreaseValue(x) => {
                let v = self.buffer.get_value(self.index).add_overflow(&x);
                self.buffer.set_value(self.index, v);
                self.inst_ptr = self.inst_ptr + 1;
            },
            Instruction::DecreaseValue(x) => {
                let v = self.buffer.get_value(self.index).sub_overflow(&x);
                self.buffer.set_value(self.index, v);
                self.inst_ptr = self.inst_ptr + 1;
            },
            Instruction::IoRead => {
                let v = self.console_io.read();
                proof {
                    v.lemma_range();
                }
                self.finish_io(v);
            },
            Instruction::IoWrite => {
                let value = self.buffer.get_value(self.index);
                let v = self.console_io.write(value);
                proof {
                    v.lemma_range();
                }
                self.finish_io(v);
            },
            Instruction::FileIoRead => {
                let v = self.file_io.read();
                proof {
                    v.lemma_range();
                }
                self.finish_io(v);
            },
            Instruction::FileIoWrite => {
                let value = self.buffer.get_value(self.index);
                let v = self.file_io.write(value);
                proof {
                    v.lemma_range();
                }
                self.finish_io(v);
            },
            Instruction::LoopStart(x) => {
                if self.buffer.get_value(self.index).is_zero() {
                    if x >= len - self.inst_ptr - 1 {
                        self.inst_ptr = len;
                    } else {
                        self.inst_ptr = self.inst_ptr + x + 1;
                    }
                } else {
                    self.inst_ptr = self.inst_ptr + 1;
                }
            },
            Instruction::LoopEnd(x) => {
                if !self.buffer.get_value(self.index).is_zero() {
                    if x <= self.inst_ptr {
                        self.inst_ptr = self.inst_ptr - x + 1;
                    } else {
                        self.inst_ptr = len;
                    }
                } else {
                    self.inst_ptr = self.inst_ptr + 1;
                }
            },
        }
        true
    }

    /// Executes at most `max_steps` instructions; returns whether the
    /// program has halted. A program may loop forever, so a caller that
    /// wants to run it to its end calls this until it returns `true`. The
    /// run is a sequence of steps, each given what its channel handed back;
    /// without I/O those values play no part and are zero.
    pub fn run(&mut self, max_steps: u64) -> (r: bool)
        requires
            old(self).inv(),
        ensures
            final(self).inv(),
            final(self).program() == old(self).program(),
            r == final(self).halted(),
            io_free(old(self).program()) ==> final(self).console() == old(self).console()
                && final(self).file() == old(self).file(),
            exists|inputs: Seq<nat>|
                {
                    &&& inputs.len() <= max_steps
                    &&& !r ==> inputs.len() == max_steps
                    &&& io_free(old(self).program()) ==> inputs == Seq::new(
                        inputs.len(),
                        |k: int| 0nat,
                    )
                    &&& final(self).machine() == steps_spec(
                        old(self).program(),
                        old(self).machine(),
                        T::modulus(),
                        inputs,
                    )
                },
    {
        let ghost start = self.machine();
        let ghost prog = self.program();
        let ghost m = T::modulus();
        let ghost mut inputs: Seq<nat> = Seq::empty();
        let mut done: u64 = 0;
        while done < max_steps
            invariant
                self.inv(),
                self.program() == prog,
                prog == old(self).program(),
                start == old(self).machine(),
                m == T::modulus(),
                done <= max_steps,
                inputs.len() == done,
                io_free(prog) ==> inputs == Seq::new(inputs.len(), |k: int| 0nat),
                self.machine() == steps_spec(prog, start, m, inputs),
                io_free(prog) ==> self.console() == old(self).console() && self.file() == old(
                    self,
                ).file(),
            decreases max_steps - done,
        {
            let ghost before = self.machine();
            let ghost prev_inputs = inputs;
            if !self.step() {
                return true;
            }
            proof {
                let op = prog[before.ip as int];
                let v = if is_io(op) {
                    choose|v: nat| v < m && self.machine() == step_spec(prog, before, m, v)
                } else {
                    0nat
                };
                inputs = prev_inputs.push(v);
                assert(inputs.drop_last() =~= prev_inputs);
                if io_free(prog) {
                    assert(inputs =~= Seq::new(inputs.len(), |k: int| 0nat));
                }
            }
            done = done + 1;
        }
        self.inst_ptr >= self.instructions.len()
    }

    pub fn is_halted(&self) -> (r: bool)
        ensures
            r == self.halted(),
    {
        self.inst_ptr >= self.instructions.len()
    }

    /// The tape.
    pub fn memory(&self) -> (r: &VecBuffer<T>)
        ensures
            r@ == self.machine().tape.cells,
    {
        &self.buffer
    }

    /// The position of the cursor on the tape.
    pub fn index(&self) -> (r: usize)
        ensures
            r == self.machine().tape.cursor,
    {
        self.index
    }

    pub fn instruction_pointer(&self) -> (r: usize)
        ensures
            r == self.machine().ip,
    {
        self.inst_ptr
    }

    pub fn console_io(&self) -> (r: &C)
        ensures
            *r == self.console(),
    {
        &self.console_io
    }

    pub fn file_io(&self) -> (r: &F)
        ensures
            *r == self.file(),
    {
        &self.file_io
    }
}

} // verus!
