//! The machine that runs a chunk: an instruction pointer, an operand
//! stack, and a loop that decodes and dispatches one instruction at a
//! time until the program returns or faults.
//!
//! The machine moves values and negates them; it does not round. For
//! `ADD`, `SUBTRACT`, `MULTIPLY` and `DIVIDE` it hands the two operands to
//! its caller and takes the result back.

use crate::chunk::{Chunk, ChunkView, Operand};
use crate::listing::{title, Disassembly};
use crate::error::{InterpretErr, RuntimeError};
use crate::opcode::OpCode;
use crate::value::{negate, negated, Value};
use vstd::prelude::*;

verus! {

/// The greatest depth of the operand stack.
pub const STACK_MAX: usize = 256;

/// The four instructions that compute on two operands.
#[derive(Clone, Copy, Debug, PartialEq, Eq, Structural)]
pub enum BinaryOp {
    Add,
    Subtract,
    Multiply,
    Divide,
}

/// Where a machine is in its life. `Returned` and `Faulted` are final.
#[derive(Clone, Copy, Debug, PartialEq, Eq, Structural)]
pub enum Status {
    Running,
    Returned(Value),
    Faulted(RuntimeError),
}

/// What one step of the machine did.
#[derive(Clone, Copy, Debug, PartialEq, Eq, Structural)]
pub enum Step {
    /// A constant was pushed.
    Pushed(Value),
    /// The top of the stack was negated; this is its new value.
    Negated(Value),
    /// The next instruction computes on the two topmost values. The
    /// machine has not moved: it waits for the result.
    Arithmetic { op: BinaryOp, left: Value, right: Value },
    /// The program returned this value.
    Returned(Value),
    /// The program faulted.
    Faulted(RuntimeError),
}

/// A machine as `debug` reports it.
#[derive(Debug)]
pub struct Dump {
    pub stack: Vec<Value>,
    pub listing: Disassembly,
}

/// The binary operation that a mnemonic stands for, if it stands for one.
pub open spec fn binary_op(op: OpCode) -> Option<BinaryOp> {
    match op {
        OpCode::ADD => Some(BinaryOp::Add),
        OpCode::SUBTRACT => Some(BinaryOp::Subtract),
        OpCode::MULTIPLY => Some(BinaryOp::Multiply),
        OpCode::DIVIDE => Some(BinaryOp::Divide),
        _ => None,
    }
}

/// The mathematical content of a machine.
pub struct MachineView {
    pub chunk: ChunkView,
    pub ip: int,
    pub stack: Seq<Value>,
    pub status: Status,
}

impl MachineView {
    /// The machine that is about to run `chunk` from its first byte.
    pub open spec fn start(chunk: ChunkView) -> MachineView {
        MachineView { chunk, ip: 0, stack: Seq::empty(), status: Status::Running }
    }

    /// The invariant of a machine: its chunk is well formed, its pointer
    /// is within the code or at its end, and its stack is within bounds.
    pub open spec fn wf(self) -> bool {
        &&& self.chunk.wf()
        &&& 0 <= self.ip <= self.chunk.code.len()
        &&& self.stack.len() <= STACK_MAX
    }

    /// This machine, stopped by `error`.
    pub open spec fn fault(self, error: RuntimeError) -> (MachineView, Step) {
        (MachineView { status: Status::Faulted(error), ..self }, Step::Faulted(error))
    }

    /// One step: the machine after it, and what the step did.
    ///
    /// A machine that has returned or faulted stays as it is and reports
    /// its end again. A running machine whose pointer is at the end of the
    /// code faults with `TruncatedProgram`. Otherwise the instruction at
    /// the pointer decides.
    pub open spec fn step(self) -> (MachineView, Step) {
        match self.status {
            Status::Returned(value) => (self, Step::Returned(value)),
            Status::Faulted(error) => (self, Step::Faulted(error)),
            Status::Running => {
                if !(0 <= self.ip < self.chunk.code.len()) {
                    self.fault(RuntimeError::TruncatedProgram)
                } else {
                    let instruction = self.chunk.instruction_at(self.ip);
                    let next = self.chunk.next_offset(self.ip);
                    let depth = self.stack.len() as int;
                    match instruction.op {
                        OpCode::CONSTANT | OpCode::CONSTANT_LONG => match instruction.operand {
                            Operand::Value(value) => {
                                if depth >= STACK_MAX {
                                    self.fault(RuntimeError::StackOverflow)
                                } else {
                                    (
                                        MachineView {
                                            ip: next,
                                            stack: self.stack.push(value),
                                            ..self
                                        },
                                        Step::Pushed(value),
                                    )
                                }
                            },
                            Operand::Invalid(_) => self.fault(
                                RuntimeError::InvalidConstantIndex,
                            ),
                            _ => self.fault(RuntimeError::TruncatedProgram),
                        },
                        OpCode::ADD | OpCode::SUBTRACT | OpCode::MULTIPLY | OpCode::DIVIDE => {
                            if depth < 2 {
                                self.fault(RuntimeError::StackUnderflow)
                            } else {
                                (
                                    self,
                                    Step::Arithmetic {
                                        op: binary_op(instruction.op)->0,
                                        left: self.stack[depth - 2],
                                        right: self.stack[depth - 1],
                                    },
                                )
                            }
                        },
                        OpCode::NEGATE => {
                            if depth < 1 {
                                self.fault(RuntimeError::StackUnderflow)
                            } else {
                                let value = negated(self.stack[depth - 1]);
                                (
                                    MachineView {
                                        ip: next,
                                        stack: self.stack.update(depth - 1, value),
                                        ..self
                                    },
                                    Step::Negated(value),
                                )
                            }
                        },
                        OpCode::RETURN => {
                            if depth < 1 {
                                self.fault(RuntimeError::StackUnderflow)
                            } else {
                                let value = self.stack[depth - 1];
                                (
                                    MachineView {
                                        ip: next,
                                        stack: self.stack.drop_last(),
                                        status: Status::Returned(value),
                                        ..self
                                    },
                                    Step::Returned(value),
                                )
                            }
                        },
                        OpCode::UNKNOWN => self.fault(RuntimeError::UnknownOpcode),
                    }
                }
            },
        }
    }

    /// Whether the machine waits for the result of a binary operation:
    /// it is running, an arithmetic instruction is next, and both of its
    /// operands are on the stack.
    pub open spec fn awaits(self) -> bool {
        self.step().1 is Arithmetic
    }

    /// The machine after the binary operation it waits for gave `result`:
    /// both operands are replaced by the result and the pointer moves on.
    /// A machine that waits for no result stays as it is.
    pub open spec fn apply(self, result: Value) -> MachineView {
        if self.awaits() {
            MachineView {
                ip: self.chunk.next_offset(self.ip),
                stack: self.stack.subrange(0, self.stack.len() - 2).push(result),
                ..self
            }
        } else {
            self
        }
    }

    /// One whole instruction, with `f` computing the binary operations.
    pub open spec fn advance(self, f: spec_fn(BinaryOp, Value, Value) -> Value) -> MachineView {
        match self.step().1 {
            Step::Arithmetic { op, left, right } => self.apply(f(op, left, right)),
            _ => self.step().0,
        }
    }

    /// How far a machine is from its end at most: nothing once it has
    /// stopped, else one more than the bytes left before it.
    pub open spec fn distance(self) -> nat {
        if self.status is Running {
            if 0 <= self.ip < self.chunk.code.len() {
                (1 + self.chunk.code.len() - self.ip) as nat
            } else {
                1
            }
        } else {
            0
        }
    }

    /// The machine at its end: the state in which instruction after
    /// instruction leaves it, with `f` computing the binary operations.
    pub open spec fn run(self, f: spec_fn(BinaryOp, Value, Value) -> Value) -> MachineView
        decreases self.distance(),
    {
        if self.status is Running {
            self.advance(f).run(f)
        } else {
            self
        }
    }

    /// What a stopped machine reports to its caller.
    pub open spec fn outcome(self) -> Result<Value, InterpretErr>
        recommends
            !(self.status is Running),
    {
        match self.status {
            Status::Returned(value) => Ok(value),
            Status::Faulted(error) => Err(InterpretErr::RuntimeErr(error)),
            Status::Running => Err(InterpretErr::RuntimeErr(RuntimeError::TruncatedProgram)),
        }
    }
}

/// `f` is what the executable function `arith` computes: whatever
/// `arith` returns on some operands, `f` gives on them.
pub open spec fn computes<F: Fn(BinaryOp, Value, Value) -> Value>(
    arith: F,
    f: spec_fn(BinaryOp, Value, Value) -> Value,
) -> bool {
    forall|op: BinaryOp, left: Value, right: Value, result: Value|
        #[trigger] arith.ensures((op, left, right), result) ==> result == f(op, left, right)
}

/// A chunk with the state of its execution.
pub struct VM {
    chunk: Chunk,
    ip: usize,
    stack: Vec<Value>,
    status: Status,
}

impl View for VM {
    type V = MachineView;

    closed spec fn view(&self) -> MachineView {
        MachineView {
            chunk: self.chunk@,
            ip: self.ip as int,
            stack: self.stack@,
            status: self.status,
        }
    }
}

impl VM {
    /// Makes a machine that is about to run `chunk` from its first byte,
    /// with an empty stack.
    pub fn new(chunk: Chunk) -> (vm: VM)
        requires
            chunk@.wf(),
        ensures
            vm@ == MachineView::start(chunk@),
            vm@.wf(),
    {
        VM { chunk, ip: 0, stack: Vec::new(), status: Status::Running }
    }

    /// The chunk that the machine runs.
    pub fn chunk(&self) -> (r: &Chunk)
        ensures
            r@ == self@.chunk,
    {
        &self.chunk
    }

    /// The offset of the next instruction.
    pub fn ip(&self) -> (r: usize)
        ensures
            r == self@.ip,
    {
        self.ip
    }

    /// The operand stack, bottom first.
    pub fn stack(&self) -> (r: &Vec<Value>)
        ensures
            r@ == self@.stack,
    {
        &self.stack
    }

    /// Where the machine is in its life.
    pub fn status(&self) -> (r: Status)
        ensures
            r == self@.status,
    {
        self.status
    }

    /// Reports the machine for inspection: the operand stack, bottom
    /// first, and the listing of the chunk under the heading
    /// "test chunk". Leaves the machine as it is.
    pub fn debug(&self) -> (r: Dump)
        requires
            self@.wf(),
        ensures
            r.stack@ == self@.stack,
            r.listing.title@ == title("test chunk"@),
            r.listing.rows@ == self@.chunk.rows(),
    {
        let mut stack: Vec<Value> = Vec::new();
        let mut i: usize = 0;
        while i < self.stack.len()
            invariant
                i <= self.stack@.len(),
                stack@ == self.stack@.take(i as int),
            decreases self.stack@.len() - i,
        {
            stack.push(self.stack[i]);
            i += 1;
            proof {
                assert(stack@ =~= self.stack@.take(i as int));
            }
        }
        proof {
            assert(stack@ =~= self.stack@);
        }
        Dump { stack, listing: self.chunk.disassemble("test chunk") }
    }

    /// Releases what the machine holds beyond its state. It holds nothing
    /// of that kind, so the machine stays as it is.
    pub fn free(&mut self)
        ensures
            final(self)@ == old(self)@,
    {
    }

    /// Stops the machine with `error`.
    fn fault(&mut self, error: RuntimeError) -> (out: Step)
        ensures
            final(self)@ == old(self)@.fault(error).0,
            out == old(self)@.fault(error).1,
    {
        self.status = Status::Faulted(error);
        Step::Faulted(error)
    }

    /// Executes the instruction at the pointer and reports what it did.
    ///
    /// `CONSTANT` and `CONSTANT_LONG` push the constant they address.
    /// `NEGATE` negates the top of the stack in place. `RETURN` pops the
    /// top as the result and ends the run. Before `ADD`, `SUBTRACT`,
    /// `MULTIPLY` and `DIVIDE` the machine stops without moving and
    /// reports the operands, left below right: `apply` takes the result.
    /// Everything else is a fault, which ends the run: too few operands,
    /// a full stack, a constant that is not there, a byte that encodes no
    /// instruction, code that ends inside an instruction or before any
    /// `RETURN`. A machine at its end reports that end again.
    pub fn step(&mut self) -> (out: Step)
        requires
            old(self)@.wf(),
        ensures
            final(self)@ == old(self)@.step().0,
            out == old(self)@.step().1,
            final(self)@.wf(),
    {
        match self.status {
            Status::Returned(value) => {
                return Step::Returned(value);
            },
            Status::Faulted(error) => {
                return Step::Faulted(error);
            },
            Status::Running => {},
        }
        if self.ip >= self.chunk.len() {
            return self.fault(RuntimeError::TruncatedProgram);
        }
        let (instruction, next) = self.chunk.fetch(self.ip);
        let depth = self.stack.len();
        match instruction.op {
            OpCode::CONSTANT | OpCode::CONSTANT_LONG => match instruction.operand {
                Operand::Value(value) => {
                    if depth >= STACK_MAX {
                        return self.fault(RuntimeError::StackOverflow);
                    }
                    self.stack.push(value);
                    self.ip = next;
                    Step::Pushed(value)
                },
                Operand::Invalid(_) => self.fault(RuntimeError::InvalidConstantIndex),
                _ => self.fault(RuntimeError::TruncatedProgram),
            },
            OpCode::ADD => self.operands(BinaryOp::Add),
            OpCode::SUBTRACT => self.operands(BinaryOp::Subtract),
            OpCode::MULTIPLY => self.operands(BinaryOp::Multiply),
            OpCode::DIVIDE => self.operands(BinaryOp::Divide),
            OpCode::NEGATE => {
                if depth < 1 {
                    return self.fault(RuntimeError::StackUnderflow);
                }
                let value = negate(self.stack[depth - 1]);
                self.stack[depth - 1] = value;
                self.ip = next;
                Step::Negated(value)
            },
            OpCode::RETURN => {
                match self.stack.pop() {
                    Some(value) => {
                        self.ip = next;
                        self.status = Status::Returned(value);
                        Step::Returned(value)
                    },
                    None => self.fault(RuntimeError::StackUnderflow),
                }
            },
            OpCode::UNKNOWN => self.fault(RuntimeError::UnknownOpcode),
        }
    }

    /// Reports the operands of the binary instruction at the pointer, or
    /// faults where the stack holds fewer than two values.
    fn operands(&mut self, op: BinaryOp) -> (out: Step)
        requires
            old(self)@.wf(),
            old(self)@.status is Running,
            0 <= old(self)@.ip < old(self)@.chunk.code.len(),
            binary_op(old(self)@.chunk.instruction_at(old(self)@.ip).op) == Some(op),
        ensures
            final(self)@ == old(self)@.step().0,
            out == old(self)@.step().1,
            final(self)@.wf(),
    {
        let depth = self.stack.len();
        if depth < 2 {
            return self.fault(RuntimeError::StackUnderflow);
        }
        Step::Arithmetic { op, left: self.stack[depth - 2], right: self.stack[depth - 1] }
    }

    /// Gives the machine the result of the binary operation it waits for:
    /// the two operands leave the stack, the result takes their place, and
    /// the pointer moves to the next instruction. Returns whether the
    /// machine was waiting; if it was not, nothing changes.
    pub fn apply(&mut self, result: Value) -> (applied: bool)
        requires
            old(self)@.wf(),
        ensures
            applied == old(self)@.awaits(),
            final(self)@ == old(self)@.apply(result),
            final(self)@.wf(),
    {
        match self.status {
            Status::Running => {},
            _ => {
                return false;
            },
        }
        if self.ip >= self.chunk.len() {
            return false;
        }
        let (instruction, next) = self.chunk.fetch(self.ip);
        let depth = self.stack.len();
        match instruction.op {
            OpCode::ADD | OpCode::SUBTRACT | OpCode::MULTIPLY | OpCode::DIVIDE => {
                if depth < 2 {
                    return false;
                }
                self.stack.pop();
                self.stack.pop();
                self.stack.push(result);
                self.ip = next;
                proof {
                    assert(self.stack@ =~= old(self).stack@.subrange(
                        0,
                        old(self).stack@.len() - 2,
                    ).push(result));
                }
                true
            },
            _ => false,
        }
    }

    /// Runs the machine to its end, with `arith` computing the binary
    /// operations, and reports the value that the program returned or the
    /// fault that stopped it. `sink` is shown every step as it is taken,
    /// for tracing; what it does with them has no part in the run.
    ///
    /// The end is reached instruction by instruction, as `step` and
    /// `apply` define them. No fault is recovered from, and code that
    /// runs out before a `RETURN` is a fault.
    pub fn run<A: Fn(BinaryOp, Value, Value) -> Value, S: Fn(Step)>(
        &mut self,
        arith: A,
        sink: S,
    ) -> (r: Result<Value, InterpretErr>)
        requires
            old(self)@.wf(),
            forall|op: BinaryOp, left: Value, right: Value|
                #[trigger] arith.requires((op, left, right)),
            forall|step: Step| #[trigger] sink.requires((step,)),
        ensures
            final(self)@.wf(),
            final(self)@.chunk == old(self)@.chunk,
            !(final(self)@.status is Running),
            r == final(self)@.outcome(),
            forall|f: spec_fn(BinaryOp, Value, Value) -> Value| #[trigger]
                computes(arith, f) ==> final(self)@ == old(self)@.run(f),
    {
        let ghost start = self@;
        loop
            invariant
                self@.wf(),
                start == old(self)@,
                self@.chunk == start.chunk,
                forall|op: BinaryOp, left: Value, right: Value|
                    #[trigger] arith.requires((op, left, right)),
                forall|step: Step| #[trigger] sink.requires((step,)),
                forall|f: spec_fn(BinaryOp, Value, Value) -> Value| #[trigger]
                    computes(arith, f) ==> self@.run(f) == start.run(f),
            decreases self@.distance(),
        {
            let ghost before = self@;
            let step = self.step();
            sink(step);
            match step {
                Step::Arithmetic { op, left, right } => {
                    let result = arith(op, left, right);
                    self.apply(result);
                    proof {
                        assert forall|f: spec_fn(BinaryOp, Value, Value) -> Value| #[trigger]
                            computes(arith, f) implies self@.run(f) == start.run(f) by {
                            assert(arith.ensures((op, left, right), result));
                            assert(self@ == before.advance(f));
                        }
                    }
                },
                Step::Returned(value) => {
                    proof {
                        assert forall|f: spec_fn(BinaryOp, Value, Value) -> Value| #[trigger]
                            computes(arith, f) implies self@ == start.run(f) by {
                            lemma_step_to_end(before, f);
                        }
                    }
                    return Ok(value);
                },
                Step::Faulted(error) => {
                    proof {
                        assert forall|f: spec_fn(BinaryOp, Value, Value) -> Value| #[trigger]
                            computes(arith, f) implies self@ == start.run(f) by {
                            lemma_step_to_end(before, f);
                        }
                    }
                    return Err(InterpretErr::RuntimeErr(error));
                },
                _ => {
                    proof {
                        assert forall|f: spec_fn(BinaryOp, Value, Value) -> Value| #[trigger]
                            computes(arith, f) implies self@.run(f) == start.run(f) by {
                            assert(self@ == before.advance(f));
                        }
                    }
                },
            }
        }
    }
}

/// A step that reports an end is the last of the run: the machine it
/// leaves is the machine at the end of the run.
pub proof fn lemma_step_to_end(m: MachineView, f: spec_fn(BinaryOp, Value, Value) -> Value)
    requires
        m.step().1 is Returned || m.step().1 is Faulted,
    ensures
        m.run(f) == m.step().0,
        !(m.step().0.status is Running),
{
    if m.status is Running {
        assert(m.advance(f) == m.step().0);
        assert(m.advance(f).run(f) == m.advance(f));
    }
}

/// A run ends: the machine it leaves has returned or faulted, holds the
/// chunk it started with, and is well formed if the start was.
pub proof fn lemma_run_ends(m: MachineView, f: spec_fn(BinaryOp, Value, Value) -> Value)
    ensures
        !(m.run(f).status is Running),
        m.run(f).chunk == m.chunk,
        m.wf() ==> m.run(f).wf(),
        !(m.status is Running) ==> m.run(f) == m,
    decreases m.distance(),
{
    if m.status is Running {
        lemma_run_ends(m.advance(f), f);
    }
}

/// The first fault is the end: a machine whose next step faults ends
/// its run with that fault, whatever the binary operations compute.
pub proof fn lemma_fault_ends_run(
    m: MachineView,
    f: spec_fn(BinaryOp, Value, Value) -> Value,
    error: RuntimeError,
)
    requires
        m.step().1 == Step::Faulted(error),
    ensures
        m.run(f).status == Status::Faulted(error),
        m.run(f).outcome() == Err::<Value, InterpretErr>(InterpretErr::RuntimeErr(error)),
{
    if m.status is Running {
        assert(m.advance(f) == m.step().0);
        assert(m.advance(f).run(f) == m.advance(f));
    }
}

/// Code that stops short is a fault: a running machine whose pointer is
/// at the end of the code, or at an instruction whose operand bytes the
/// code does not hold in full, ends its run with `TruncatedProgram`.
pub proof fn lemma_truncation_faults(m: MachineView, f: spec_fn(BinaryOp, Value, Value) -> Value)
    requires
        m.status is Running,
        !(0 <= m.ip < m.chunk.code.len()) || m.chunk.instruction_at(m.ip).operand is Truncated,
    ensures
        m.step().1 == Step::Faulted(RuntimeError::TruncatedProgram),
        m.run(f).status == Status::Faulted(RuntimeError::TruncatedProgram),
{
    lemma_fault_ends_run(m, f, RuntimeError::TruncatedProgram);
}

/// No run succeeds without a `RETURN`: where the walk from the pointer
/// of a running machine meets no `RETURN`, the run ends in a fault.
pub proof fn lemma_no_return_no_success(
    m: MachineView,
    f: spec_fn(BinaryOp, Value, Value) -> Value,
)
    requires
        m.status is Running,
        forall|i: int|
            0 <= i < m.chunk.instructions_from(m.ip).len() ==> (
            #[trigger] m.chunk.instructions_from(m.ip)[i]).op != OpCode::RETURN,
    ensures
        m.run(f).status is Faulted,
    decreases m.distance(),
{
    let next = m.advance(f);
    if 0 <= m.ip < m.chunk.code.len() {
        let here = m.chunk.instructions_from(m.ip);
        let rest = m.chunk.instructions_from(m.chunk.next_offset(m.ip));
        assert(here =~= seq![m.chunk.instruction_at(m.ip)] + rest);
        assert(here[0].op != OpCode::RETURN);
        if next.status is Running {
            assert(next.ip == m.chunk.next_offset(m.ip));
            assert forall|i: int| 0 <= i < rest.len() implies (#[trigger] rest[i]).op
                != OpCode::RETURN by {
                assert(here[i + 1] == rest[i]);
            }
            lemma_no_return_no_success(next, f);
        } else {
            lemma_run_ends(next, f);
        }
    } else {
        lemma_fault_ends_run(m, f, RuntimeError::TruncatedProgram);
    }
}

/// Negating twice changes nothing: a running machine with a value on its
/// stack and two `NEGATE` instructions before it has, two steps later,
/// the stack it started with.
pub proof fn lemma_negate_twice_restores(m: MachineView)
    requires
        m.status is Running,
        m.stack.len() >= 1,
        0 <= m.ip < m.chunk.code.len(),
        m.chunk.instruction_at(m.ip).op == OpCode::NEGATE,
        m.chunk.next_offset(m.ip) < m.chunk.code.len(),
        m.chunk.instruction_at(m.chunk.next_offset(m.ip)).op == OpCode::NEGATE,
    ensures
        m.step().0.step().0.status is Running,
        m.step().0.step().0.stack == m.stack,
        m.step().0.step().0.stack.last() == m.stack.last(),
{
    let top = m.stack.last();
    crate::value::lemma_negated_twice(top);
    let once = m.step().0;
    let twice = once.step().0;
    assert(twice.stack =~= m.stack);
}

/// A constant that is pushed and then negated twice is on top of the
/// stack as it was written: the chunk that loads `x` and negates it
/// twice leaves, after its three steps, a stack that holds `x` alone.
pub proof fn lemma_push_negate_twice(x: Value, line: usize)
    ensures
        ({
            let chunk = ChunkView::empty().write_const(x, line).write(OpCode::NEGATE, line).write(
                OpCode::NEGATE,
                line,
            );
            let m = MachineView::start(chunk).step().0.step().0.step().0;
            m.status is Running && m.stack == seq![x]
        }),
{
    let c0 = ChunkView::empty();
    let c1 = c0.write_const(x, line);
    let c2 = c1.write(OpCode::NEGATE, line);
    let chunk = c2.write(OpCode::NEGATE, line);
    assert(chunk.code =~= seq![0u8, 0u8, 6u8, 6u8]);
    assert(chunk.constants =~= seq![x]);
    let m0 = MachineView::start(chunk);
    assert(chunk.instruction_at(0) == crate::chunk::Instruction {
        op: OpCode::CONSTANT,
        operand: Operand::Value(x),
    });
    let m1 = m0.step().0;
    assert(m1.stack =~= seq![x]);
    assert(m1.ip == 2);
    lemma_negate_twice_restores(m1);
}

} // verus!
