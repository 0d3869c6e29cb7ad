//! The chunk: an encoded program made of a byte stream, two constant
//! pools and a line index.
//!
//! Every instruction starts with one opcode byte. `CONSTANT` is followed
//! by one byte that addresses the narrow pool, `CONSTANT_LONG` by three
//! bytes that address the wide pool, most significant byte first; every
//! other instruction is the opcode byte alone.

use crate::error::RuntimeError;
use crate::lines::{line_of, ordered, record, total};
use crate::listing::{title, title_text, Disassembly, Row};
use crate::opcode::OpCode;
use crate::value::Value;
use vstd::prelude::*;

verus! {

/// The most entries the narrow pool holds: what one byte can address.
pub const NARROW_CAPACITY: usize = 256;

/// The most entries the wide pool holds: what three bytes can address.
pub const WIDE_CAPACITY: usize = 16_777_216;

/// What follows the opcode byte of a decoded instruction.
#[derive(Clone, Copy, Debug, PartialEq, Eq, Structural)]
pub enum Operand {
    /// The instruction takes no operand.
    Absent,
    /// The constant that the operand addresses.
    Value(Value),
    /// The operand addresses an entry that its pool does not hold.
    Invalid(usize),
    /// The code ends before the last operand byte.
    Truncated,
}

/// One decoded instruction.
#[derive(Clone, Copy, Debug, PartialEq, Eq, Structural)]
pub struct Instruction {
    pub op: OpCode,
    pub operand: Operand,
}

/// The index that three operand bytes spell, most significant first.
pub open spec fn wide_index(b1: u8, b2: u8, b3: u8) -> int {
    b1 * 65536 + b2 * 256 + b3
}

/// The number of bytes an instruction with this opcode takes.
pub open spec fn width(op: OpCode) -> int {
    match op {
        OpCode::CONSTANT => 2,
        OpCode::CONSTANT_LONG => 4,
        _ => 1,
    }
}

/// The mathematical content of a chunk.
pub struct ChunkView {
    pub code: Seq<u8>,
    pub lines: Seq<usize>,
    pub constants: Seq<Value>,
    pub constants_long: Seq<Value>,
}

impl ChunkView {
    /// The chunk that holds nothing.
    pub open spec fn empty() -> ChunkView {
        ChunkView {
            code: Seq::empty(),
            lines: Seq::empty(),
            constants: Seq::empty(),
            constants_long: Seq::empty(),
        }
    }

    /// The invariant of a chunk: the line index is ordered and accounts
    /// for every byte of the code, neither pool exceeds its capacity, and
    /// the wide pool is in use only once the narrow pool is full.
    pub open spec fn wf(self) -> bool {
        &&& ordered(self.lines)
        &&& total(self.lines) == self.code.len()
        &&& self.constants.len() <= NARROW_CAPACITY
        &&& self.constants_long.len() <= WIDE_CAPACITY
        &&& self.constants_long.len() > 0 ==> self.constants.len() == NARROW_CAPACITY
    }

    /// The source line that owns the byte at `offset`.
    pub open spec fn line_at(self, offset: int) -> int {
        line_of(self.lines, offset)
    }

    /// The instruction whose opcode byte stands at `offset`.
    pub open spec fn instruction_at(self, offset: int) -> Instruction
        recommends
            0 <= offset < self.code.len(),
    {
        let op = OpCode::decode(self.code[offset]);
        let operand = match op {
            OpCode::CONSTANT => {
                if offset + 1 >= self.code.len() {
                    Operand::Truncated
                } else {
                    let index = self.code[offset + 1] as int;
                    if index < self.constants.len() {
                        Operand::Value(self.constants[index])
                    } else {
                        Operand::Invalid(index as usize)
                    }
                }
            },
            OpCode::CONSTANT_LONG => {
                if offset + 3 >= self.code.len() {
                    Operand::Truncated
                } else {
                    let index = wide_index(
                        self.code[offset + 1],
                        self.code[offset + 2],
                        self.code[offset + 3],
                    );
                    if index < self.constants_long.len() {
                        Operand::Value(self.constants_long[index])
                    } else {
                        Operand::Invalid(index as usize)
                    }
                }
            },
            _ => Operand::Absent,
        };
        Instruction { op, operand }
    }

    /// The offset of the instruction after the one at `offset`: the
    /// opcode's width further on, or the end of the code where the
    /// instruction is cut short.
    pub open spec fn next_offset(self, offset: int) -> int
        recommends
            0 <= offset < self.code.len(),
    {
        let w = width(OpCode::decode(self.code[offset]));
        if offset + w <= self.code.len() {
            offset + w
        } else {
            self.code.len() as int
        }
    }

    /// The instructions met by walking the code from `offset` to its end.
    pub open spec fn instructions_from(self, offset: int) -> Seq<Instruction>
        decreases self.code.len() - offset,
    {
        if 0 <= offset < self.code.len() {
            seq![self.instruction_at(offset)] + self.instructions_from(self.next_offset(offset))
        } else {
            Seq::empty()
        }
    }

    /// The offsets at which the instructions of `instructions_from` start.
    pub open spec fn starts_from(self, offset: int) -> Seq<int>
        decreases self.code.len() - offset,
    {
        if 0 <= offset < self.code.len() {
            seq![offset] + self.starts_from(self.next_offset(offset))
        } else {
            Seq::empty()
        }
    }

    /// The whole program, as the walk from offset 0 reads it.
    pub open spec fn instructions(self) -> Seq<Instruction> {
        self.instructions_from(0)
    }

    /// The walk from `offset` meets only whole instructions whose
    /// operands resolve, and ends exactly at the end of the code.
    pub open spec fn clean_from(self, offset: int) -> bool
        decreases self.code.len() - offset,
    {
        if 0 <= offset < self.code.len() {
            &&& self.instruction_at(offset).operand !is Truncated
            &&& self.instruction_at(offset).operand !is Invalid
            &&& self.clean_from(self.next_offset(offset))
        } else {
            offset == self.code.len()
        }
    }

    /// The code is a sequence of whole instructions whose operands
    /// resolve.
    pub open spec fn is_program(self) -> bool {
        self.clean_from(0)
    }

    /// The row of the listing for the instruction at `offset`.
    pub open spec fn row_at(self, offset: int) -> Row
        recommends
            0 <= offset < self.code.len(),
    {
        Row {
            offset: offset as usize,
            line: self.line_at(offset) as usize,
            instruction: self.instruction_at(offset),
        }
    }

    /// The rows of the listing from `offset` to the end of the code.
    pub open spec fn rows_from(self, offset: int) -> Seq<Row>
        decreases self.code.len() - offset,
    {
        if 0 <= offset < self.code.len() {
            seq![self.row_at(offset)] + self.rows_from(self.next_offset(offset))
        } else {
            Seq::empty()
        }
    }

    /// The listing of the whole chunk.
    pub open spec fn rows(self) -> Seq<Row> {
        self.rows_from(0)
    }

    /// The chunk after one opcode byte was appended for `line`.
    pub open spec fn write(self, op: OpCode, line: usize) -> ChunkView {
        ChunkView {
            code: self.code.push(op.byte()),
            lines: record(self.lines, line as int, 1),
            ..self
        }
    }

    /// Whether one more constant can be stored.
    pub open spec fn has_room(self) -> bool {
        self.constants.len() < NARROW_CAPACITY || self.constants_long.len() < WIDE_CAPACITY
    }

    /// The chunk after a constant and the instruction that loads it were
    /// appended for `line`: into the narrow pool while it has room, into
    /// the wide pool from then on.
    pub open spec fn write_const(self, data: Value, line: usize) -> ChunkView
        recommends
            self.has_room(),
    {
        if self.constants.len() < NARROW_CAPACITY {
            ChunkView {
                code: self.code + seq![OpCode::CONSTANT.byte(), self.constants.len() as u8],
                lines: record(self.lines, line as int, 2),
                constants: self.constants.push(data),
                ..self
            }
        } else {
            let index = self.constants_long.len();
            ChunkView {
                code: self.code + seq![
                    OpCode::CONSTANT_LONG.byte(),
                    (index / 65536) as u8,
                    (index / 256 % 256) as u8,
                    (index % 256) as u8,
                ],
                lines: record(self.lines, line as int, 4),
                constants_long: self.constants_long.push(data),
                ..self
            }
        }
    }

    /// The instruction that `write_const` appends for `data`.
    pub open spec fn const_instruction(self, data: Value) -> Instruction {
        Instruction {
            op: if self.constants.len() < NARROW_CAPACITY {
                OpCode::CONSTANT
            } else {
                OpCode::CONSTANT_LONG
            },
            operand: Operand::Value(data),
        }
    }
}

/// `d` holds everything `c` holds, at the same places, and possibly more
/// at the end of the code and of each pool.
pub open spec fn extends(d: ChunkView, c: ChunkView) -> bool {
    &&& c.code.len() <= d.code.len()
    &&& forall|i: int| 0 <= i < c.code.len() ==> d.code[i] == c.code[i]
    &&& c.constants.len() <= d.constants.len()
    &&& forall|i: int| 0 <= i < c.constants.len() ==> d.constants[i] == c.constants[i]
    &&& c.constants_long.len() <= d.constants_long.len()
    &&& forall|i: int|
        0 <= i < c.constants_long.len() ==> d.constants_long[i] == c.constants_long[i]
}

/// Appending to a chunk changes nothing of what a clean walk read
/// before: the walk over the longer chunk reads the same instructions
/// and then goes on where the shorter code ended.
pub proof fn lemma_extension_keeps_walk(c: ChunkView, d: ChunkView, k: int)
    requires
        extends(d, c),
        0 <= k <= c.code.len(),
        c.clean_from(k),
    ensures
        d.instructions_from(k) == c.instructions_from(k) + d.instructions_from(
            c.code.len() as int,
        ),
        d.starts_from(k) == c.starts_from(k) + d.starts_from(c.code.len() as int),
        d.clean_from(k) == d.clean_from(c.code.len() as int),
    decreases c.code.len() - k,
{
    if k < c.code.len() {
        let next = c.next_offset(k);
        assert(d.instruction_at(k) == c.instruction_at(k));
        assert(d.next_offset(k) == next);
        lemma_extension_keeps_walk(c, d, next);
        assert(d.instructions_from(k) =~= c.instructions_from(k) + d.instructions_from(
            c.code.len() as int,
        ));
        assert(d.starts_from(k) =~= c.starts_from(k) + d.starts_from(c.code.len() as int));
    } else {
        assert(c.instructions_from(k) =~= Seq::empty());
        assert(c.starts_from(k) =~= Seq::empty());
        assert(d.instructions_from(k) =~= c.instructions_from(k) + d.instructions_from(k));
        assert(d.starts_from(k) =~= c.starts_from(k) + d.starts_from(k));
    }
}

/// The three operand bytes of a wide index spell that index.
pub proof fn lemma_wide_index_bytes(index: int)
    requires
        0 <= index < WIDE_CAPACITY,
    ensures
        0 <= index / 65536 < 256,
        wide_index((index / 65536) as u8, (index / 256 % 256) as u8, (index % 256) as u8)
            == index,
{
    assert(index / 65536 * 65536 + index / 256 % 256 * 256 + index % 256 == index
        && 0 <= index / 65536 < 256) by (nonlinear_arith)
        requires
            0 <= index < 16_777_216,
    ;
}

/// An opcode byte appended to a program adds the one instruction it
/// encodes, provided the opcode takes no operand.
pub proof fn lemma_write_adds_instruction(c: ChunkView, op: OpCode, line: usize)
    requires
        c.is_program(),
        width(op) == 1,
    ensures
        c.write(op, line).is_program(),
        c.write(op, line).instructions() == c.instructions().push(
            Instruction { op, operand: Operand::Absent },
        ),
        c.write(op, line).starts_from(0) == c.starts_from(0).push(c.code.len() as int),
{
    let d = c.write(op, line);
    let end = c.code.len() as int;
    lemma_extension_keeps_walk(c, d, 0);
    assert(d.code[end] == op.byte());
    assert(OpCode::decode(op.byte()) == op);
    assert(d.next_offset(end) == end + 1);
    assert(d.instructions_from(end + 1) =~= Seq::empty());
    assert(d.starts_from(end + 1) =~= Seq::empty());
    assert(d.instructions_from(end) =~= seq![Instruction { op, operand: Operand::Absent }]);
    assert(d.starts_from(end) =~= seq![end]);
    assert(d.clean_from(end + 1));
    assert(d.clean_from(end));
    assert(d.instructions() =~= c.instructions().push(
        Instruction { op, operand: Operand::Absent },
    ));
    assert(d.starts_from(0) =~= c.starts_from(0).push(end));
}

/// A constant appended to a program adds the one instruction that loads
/// it: `CONSTANT` while the narrow pool has room, `CONSTANT_LONG` after.
pub proof fn lemma_write_const_adds_instruction(c: ChunkView, data: Value, line: usize)
    requires
        c.is_program(),
        c.has_room(),
    ensures
        c.write_const(data, line).is_program(),
        c.write_const(data, line).instructions() == c.instructions().push(
            c.const_instruction(data),
        ),
        c.write_const(data, line).starts_from(0) == c.starts_from(0).push(c.code.len() as int),
{
    let d = c.write_const(data, line);
    let end = c.code.len() as int;
    lemma_extension_keeps_walk(c, d, 0);
    let w = width(c.const_instruction(data).op);
    if c.constants.len() < NARROW_CAPACITY {
        assert(d.code[end] == 0u8);
        assert(d.code[end + 1] == c.constants.len() as u8);
        assert(d.constants[c.constants.len() as int] == data);
    } else {
        lemma_wide_index_bytes(c.constants_long.len() as int);
        assert(d.code[end] == 1u8);
        assert(d.code[end + 1] == (c.constants_long.len() / 65536) as u8);
        assert(d.code[end + 2] == (c.constants_long.len() / 256 % 256) as u8);
        assert(d.code[end + 3] == (c.constants_long.len() % 256) as u8);
        assert(d.constants_long[c.constants_long.len() as int] == data);
    }
    assert(d.instruction_at(end) == c.const_instruction(data));
    assert(d.next_offset(end) == end + w);
    assert(d.instructions_from(end + w) =~= Seq::empty());
    assert(d.starts_from(end + w) =~= Seq::empty());
    assert(d.instructions_from(end) =~= seq![c.const_instruction(data)]);
    assert(d.starts_from(end) =~= seq![end]);
    assert(d.clean_from(end + w));
    assert(d.clean_from(end));
    assert(d.instructions() =~= c.instructions().push(c.const_instruction(data)));
    assert(d.starts_from(0) =~= c.starts_from(0).push(end));
}

/// What recording `count` new bytes against `line` does to the owners
/// of bytes: the index stays well formed, the new bytes belong to `line`
/// if no later line was written to before, and a byte written earlier
/// keeps its line unless it belongs to a later one.
pub proof fn lemma_recorded(c: ChunkView, d: ChunkView, line: usize, count: int)
    requires
        c.wf(),
        0 < count,
        d.code.len() == c.code.len() + count,
        d.code.len() <= usize::MAX,
        d.lines == record(c.lines, line as int, count),
        d.constants.len() <= NARROW_CAPACITY,
        d.constants_long.len() <= WIDE_CAPACITY,
        d.constants_long.len() > 0 ==> d.constants.len() == NARROW_CAPACITY,
    ensures
        d.wf(),
        line + 1 >= c.lines.len() ==> forall|offset: int|
            c.code.len() <= offset < d.code.len() ==> #[trigger] d.line_at(offset) == line,
        forall|offset: int|
            0 <= offset < c.code.len() && c.line_at(offset) <= line ==> #[trigger] d.line_at(
                offset,
            ) == c.line_at(offset),
{
    crate::lines::lemma_record_ordered(c.lines, line as int, count);
    if line + 1 >= c.lines.len() {
        crate::lines::lemma_record_owns_new_bytes(c.lines, line as int, count);
    }
    assert forall|offset: int|
        0 <= offset < c.code.len() && c.line_at(offset) <= line implies #[trigger] d.line_at(
        offset,
    ) == c.line_at(offset) by {
        crate::lines::lemma_record_keeps_owner(c.lines, line as int, count, offset);
    }
}

/// The listing holds one row for each instruction of the walk, in
/// order: the row's instruction is that instruction, its offset is where
/// the instruction starts, and its line is the owner of that offset.
pub proof fn lemma_rows_follow_walk(c: ChunkView, k: int)
    requires
        c.wf(),
        c.code.len() <= usize::MAX,
        c.lines.len() <= usize::MAX,
        0 <= k,
    ensures
        c.rows_from(k).len() == c.instructions_from(k).len(),
        c.rows_from(k).len() == c.starts_from(k).len(),
        forall|i: int|
            0 <= i < c.rows_from(k).len() ==> {
                &&& (#[trigger] c.rows_from(k)[i]).instruction == c.instructions_from(k)[i]
                &&& c.rows_from(k)[i].offset == c.starts_from(k)[i]
                &&& c.rows_from(k)[i].line == c.line_at(c.starts_from(k)[i])
                &&& k <= c.starts_from(k)[i] < c.code.len()
            },
    decreases c.code.len() - k,
{
    if k < c.code.len() {
        let next = c.next_offset(k);
        lemma_rows_follow_walk(c, next);
        crate::lines::lemma_line_of_splits(c.lines, k);
        assert(c.rows_from(k) =~= seq![c.row_at(k)] + c.rows_from(next));
        assert(c.instructions_from(k) =~= seq![c.instruction_at(k)] + c.instructions_from(next));
        assert(c.starts_from(k) =~= seq![k] + c.starts_from(next));
        assert forall|i: int| 0 <= i < c.rows_from(k).len() implies {
            &&& (#[trigger] c.rows_from(k)[i]).instruction == c.instructions_from(k)[i]
            &&& c.rows_from(k)[i].offset == c.starts_from(k)[i]
            &&& c.rows_from(k)[i].line == c.line_at(c.starts_from(k)[i])
            &&& k <= c.starts_from(k)[i] < c.code.len()
        } by {
            if i > 0 {
                assert(c.rows_from(k)[i] == c.rows_from(next)[i - 1]);
                assert(c.instructions_from(k)[i] == c.instructions_from(next)[i - 1]);
                assert(c.starts_from(k)[i] == c.starts_from(next)[i - 1]);
            }
        }
    }
}

/// An encoded program under construction or ready to run.
pub struct Chunk {
    code: Vec<u8>,
    lines: Vec<usize>,
    constants: Vec<Value>,
    constants_long: Vec<Value>,
}

impl View for Chunk {
    type V = ChunkView;

    closed spec fn view(&self) -> ChunkView {
        ChunkView {
            code: self.code@,
            lines: self.lines@,
            constants: self.constants@,
            constants_long: self.constants_long@,
        }
    }
}

impl Chunk {
    /// Makes an empty chunk.
    pub fn new() -> (c: Chunk)
        ensures
            c@ == ChunkView::empty(),
            c@.wf(),
            c@.is_program(),
    {
        Chunk {
            code: Vec::new(),
            lines: Vec::new(),
            constants: Vec::new(),
            constants_long: Vec::new(),
        }
    }

    /// Records `count` more bytes against `line` in the line index.
    fn line_add(&mut self, line: usize, count: usize)
        requires
            ordered(old(self).lines@),
            total(old(self).lines@) + count <= usize::MAX,
        ensures
            final(self).lines@ == record(old(self).lines@, line as int, count as int),
            final(self).code == old(self).code,
            final(self).constants == old(self).constants,
            final(self).constants_long == old(self).constants_long,
    {
        let ghost before = self.lines@;
        let n = self.lines.len();
        let sum: usize = if n == 0 {
            0
        } else {
            self.lines[n - 1]
        };
        while self.lines.len() <= line
            invariant
                self.lines@.len() >= before.len(),
                self.lines@.len() == before.len() || self.lines@.len() <= line + 1,
                forall|i: int| 0 <= i < before.len() ==> self.lines@[i] == before[i],
                forall|i: int| before.len() <= i < self.lines@.len() ==> self.lines@[i] == sum,
                self.code == old(self).code,
                self.constants == old(self).constants,
                self.constants_long == old(self).constants_long,
            decreases line + 1 - self.lines.len(),
        {
            self.lines.push(sum);
        }
        let ghost padded = self.lines@;
        let len = self.lines.len();
        assert(sum == total(before));
        let mut i: usize = line;
        while i < len
            invariant
                line <= i <= len,
                len == self.lines@.len(),
                len == padded.len(),
                ordered(before),
                sum == total(before),
                sum + count <= usize::MAX,
                padded.len() >= before.len(),
                padded.len() == before.len() || padded.len() == line + 1,
                forall|k: int| 0 <= k < before.len() ==> padded[k] == before[k],
                forall|k: int| before.len() <= k < padded.len() ==> padded[k] == sum,
                forall|k: int| 0 <= k < line ==> self.lines@[k] == padded[k],
                forall|k: int| line <= k < i ==> self.lines@[k] == padded[k] + count,
                forall|k: int| i <= k < len ==> self.lines@[k] == padded[k],
                self.code == old(self).code,
                self.constants == old(self).constants,
                self.constants_long == old(self).constants_long,
            decreases len - i,
        {
            let entry = self.lines[i];
            proof {
                if i < before.len() {
                    assert(before[i as int] <= before[before.len() - 1]);
                }
            }
            assert(entry == padded[i as int]);
            assert(entry <= sum);
            let raised: usize = entry + count;
            self.lines[i] = raised;
            i += 1;
        }
        proof {
            let after = record(before, line as int, count as int);
            assert(self.lines@.len() == after.len());
            assert forall|k: int| 0 <= k < after.len() implies self.lines@[k] == after[k] by {
                if k < before.len() {
                    assert(before[k] <= before[before.len() - 1]);
                    assert(padded[k] == before[k]);
                } else {
                    assert(padded[k] == sum);
                }
                if k >= line {
                    assert(self.lines@[k] == padded[k] + count);
                } else {
                    assert(self.lines@[k] == padded[k]);
                }
            }
            assert(self.lines@ =~= after);
        }
    }

    /// Finds the source line that owns the byte at `offset`, by binary
    /// search for the first entry of the line index greater than `offset`.
    /// For an offset at or past the end of the code this is the number of
    /// lines in the index.
    pub fn get_line(&self, offset: usize) -> (line: usize)
        ensures
            line <= self@.lines.len(),
            self@.wf() ==> line == self@.line_at(offset as int),
    {
        let mut low: usize = 0;
        let mut high: usize = self.lines.len();
        while low < high
            invariant
                low <= high <= self.lines@.len(),
                ordered(self.lines@) ==> forall|i: int| 0 <= i < low ==> self.lines@[i] <= offset,
                ordered(self.lines@) ==> (high < self.lines@.len() ==> self.lines@[high as int]
                    > offset),
            decreases high - low,
        {
            let mid = low + (high - low) / 2;
            if self.lines[mid] > offset {
                high = mid;
            } else {
                low = mid + 1;
            }
        }
        proof {
            if self@.wf() {
                crate::lines::lemma_line_of_is(self.lines@, offset as int, low as int);
            }
        }
        low
    }

    /// Appends the opcode byte of `op` and records it against `line`.
    ///
    /// Where the chunk was a program and `op` takes no operand, the
    /// program grows by exactly that instruction. The new byte belongs to
    /// `line` provided no later line was written before, and every
    /// earlier byte keeps its line unless it belongs to a later one.
    pub fn write(&mut self, op: OpCode, line: usize)
        requires
            old(self)@.wf(),
        ensures
            final(self)@ == old(self)@.write(op, line),
            final(self)@.wf(),
            old(self)@.is_program() && width(op) == 1 ==> final(self)@.is_program()
                && final(self)@.instructions() == old(self)@.instructions().push(
                Instruction { op, operand: Operand::Absent },
            ),
            line + 1 >= old(self)@.lines.len() ==> final(self)@.line_at(
                old(self)@.code.len() as int,
            ) == line,
            forall|offset: int|
                0 <= offset < old(self)@.code.len() && old(self)@.line_at(offset) <= line
                    ==> #[trigger] final(self)@.line_at(offset) == old(self)@.line_at(offset),
    {
        let ghost before = self@;
        self.code.push(op.to_byte());
        let _ = self.code.len();
        self.line_add(line, 1);
        proof {
            lemma_recorded(before, self@, line, 1);
            if before.is_program() && width(op) == 1 {
                lemma_write_adds_instruction(before, op, line);
            }
        }
    }

    /// Stores `data` in a constant pool and appends the instruction that
    /// loads it, recorded against `line`: `CONSTANT` with a one-byte index
    /// while the narrow pool has room, `CONSTANT_LONG` with a three-byte
    /// index from then on. Fails with `CapacityExceeded`, leaving the chunk
    /// as it was, when both pools are full.
    pub fn write_const(&mut self, data: Value, line: usize) -> (r: Result<(), RuntimeError>)
        requires
            old(self)@.wf(),
        ensures
            final(self)@.wf(),
            r is Ok <==> old(self)@.has_room(),
            r is Ok ==> final(self)@ == old(self)@.write_const(data, line),
            r is Err ==> r == Err::<(), RuntimeError>(RuntimeError::CapacityExceeded)
                && final(self)@ == old(self)@,
            r is Ok && old(self)@.is_program() ==> final(self)@.is_program()
                && final(self)@.instructions() == old(self)@.instructions().push(
                old(self)@.const_instruction(data),
            ),
            r is Ok && line + 1 >= old(self)@.lines.len() ==> final(self)@.line_at(
                old(self)@.code.len() as int,
            ) == line,
            forall|offset: int|
                0 <= offset < old(self)@.code.len() && old(self)@.line_at(offset) <= line
                    ==> #[trigger] final(self)@.line_at(offset) == old(self)@.line_at(offset),
    {
        let ghost before = self@;
        if self.constants.len() < NARROW_CAPACITY {
            let index = self.constants.len();
            self.constants.push(data);
            self.code.push(OpCode::CONSTANT.to_byte());
            self.code.push(index as u8);
            let _ = self.code.len();
            self.line_add(line, 2);
            proof {
                assert(self@.code =~= before.write_const(data, line).code);
                lemma_recorded(before, self@, line, 2);
                if before.is_program() {
                    lemma_write_const_adds_instruction(before, data, line);
                }
            }
            return Ok(());
        }
        if self.constants_long.len() >= WIDE_CAPACITY {
            return Err(RuntimeError::CapacityExceeded);
        }
        let index = self.constants_long.len();
        proof {
            lemma_wide_index_bytes(index as int);
        }
        self.constants_long.push(data);
        self.code.push(OpCode::CONSTANT_LONG.to_byte());
        self.code.push((index / 65536) as u8);
        self.code.push((index / 256 % 256) as u8);
        self.code.push((index % 256) as u8);
        let _ = self.code.len();
        self.line_add(line, 4);
        proof {
            assert(self@.code =~= before.write_const(data, line).code);
            lemma_recorded(before, self@, line, 4);
            if before.is_program() {
                lemma_write_const_adds_instruction(before, data, line);
            }
        }
        Ok(())
    }

    /// The number of bytes of code.
    pub fn len(&self) -> (n: usize)
        ensures
            n == self@.code.len(),
    {
        self.code.len()
    }

    /// The bytes of code.
    pub fn code(&self) -> (r: &Vec<u8>)
        ensures
            r@ == self@.code,
    {
        &self.code
    }

    /// The line index.
    pub fn lines(&self) -> (r: &Vec<usize>)
        ensures
            r@ == self@.lines,
    {
        &self.lines
    }

    /// The narrow constant pool.
    pub fn constants(&self) -> (r: &Vec<Value>)
        ensures
            r@ == self@.constants,
    {
        &self.constants
    }

    /// The wide constant pool.
    pub fn constants_long(&self) -> (r: &Vec<Value>)
        ensures
            r@ == self@.constants_long,
    {
        &self.constants_long
    }

    /// Reads the operand of the `CONSTANT` at `offset`: the narrow-pool
    /// entry that the next byte addresses.
    fn const_instruction(&self, offset: usize) -> (r: (Instruction, usize))
        requires
            offset < self@.code.len(),
            OpCode::decode(self@.code[offset as int]) == OpCode::CONSTANT,
        ensures
            r.0 == self@.instruction_at(offset as int),
            r.1 == self@.next_offset(offset as int),
    {
        if self.code.len() - offset < 2 {
            return (
                Instruction { op: OpCode::CONSTANT, operand: Operand::Truncated },
                self.code.len(),
            );
        }
        let index: usize = self.code[offset + 1] as usize;
        let operand = if index < self.constants.len() {
            Operand::Value(self.constants[index])
        } else {
            Operand::Invalid(index)
        };
        (Instruction { op: OpCode::CONSTANT, operand }, offset + 2)
    }

    /// Reads the operand of the `CONSTANT_LONG` at `offset`: the wide-pool
    /// entry that the next three bytes address, most significant first.
    fn const_long_instruction(&self, offset: usize) -> (r: (Instruction, usize))
        requires
            offset < self@.code.len(),
            OpCode::decode(self@.code[offset as int]) == OpCode::CONSTANT_LONG,
        ensures
            r.0 == self@.instruction_at(offset as int),
            r.1 == self@.next_offset(offset as int),
    {
        if self.code.len() - offset < 4 {
            return (
                Instruction { op: OpCode::CONSTANT_LONG, operand: Operand::Truncated },
                self.code.len(),
            );
        }
        let high: usize = self.code[offset + 1] as usize;
        let middle: usize = self.code[offset + 2] as usize;
        let low: usize = self.code[offset + 3] as usize;
        let index: usize = high * 65536 + middle * 256 + low;
        let operand = if index < self.constants_long.len() {
            Operand::Value(self.constants_long[index])
        } else {
            Operand::Invalid(index)
        };
        (Instruction { op: OpCode::CONSTANT_LONG, operand }, offset + 4)
    }

    /// Decodes the instruction at `offset` and tells where the next one
    /// starts: one byte further for an instruction without operand, two
    /// for `CONSTANT`, four for `CONSTANT_LONG`, and at the end of the code
    /// where the operand is cut short. A byte that encodes no instruction
    /// decodes to `UNKNOWN` and takes one byte.
    pub fn fetch(&self, offset: usize) -> (r: (Instruction, usize))
        requires
            offset < self@.code.len(),
        ensures
            r.0 == self@.instruction_at(offset as int),
            r.1 == self@.next_offset(offset as int),
            offset < r.1 <= self@.code.len(),
    {
        let _ = self.code.len();
        let op = OpCode::from(self.code[offset]);
        match op {
            OpCode::CONSTANT => self.const_instruction(offset),
            OpCode::CONSTANT_LONG => self.const_long_instruction(offset),
            _ => (Instruction { op, operand: Operand::Absent }, offset + 1),
        }
    }

    /// Decodes the instruction at `offset` into a row of the listing and
    /// tells where the next instruction starts.
    pub fn disassemble_instruction(&self, offset: usize) -> (r: (Row, usize))
        requires
            self@.wf(),
            offset < self@.code.len(),
        ensures
            r.0 == self@.row_at(offset as int),
            r.1 == self@.next_offset(offset as int),
            offset < r.1 <= self@.code.len(),
    {
        let line = self.get_line(offset);
        let (instruction, next) = self.fetch(offset);
        (Row { offset, line, instruction }, next)
    }

    /// Lists the chunk under the heading `name`: walks the code from
    /// offset 0, one instruction per step, and reports each with its
    /// offset, its source line and the constant it loads. Leaves the chunk
    /// as it is.
    pub fn disassemble(&self, name: &str) -> (d: Disassembly)
        requires
            self@.wf(),
        ensures
            d.title@ == title(name@),
            d.rows@ == self@.rows(),
            d.rows@.len() == self@.instructions().len(),
            forall|i: int|
                0 <= i < d.rows@.len() ==> (#[trigger] d.rows@[i]).instruction
                    == self@.instructions()[i],
    {
        let mut rows: Vec<Row> = Vec::new();
        let mut offset: usize = 0;
        while offset < self.code.len()
            invariant
                self@.wf(),
                offset <= self@.code.len(),
                self@.rows() == rows@ + self@.rows_from(offset as int),
            decreases self@.code.len() - offset,
        {
            let (row, next) = self.disassemble_instruction(offset);
            proof {
                assert(rows@ + self@.rows_from(offset as int) =~= rows@.push(row)
                    + self@.rows_from(next as int));
            }
            rows.push(row);
            offset = next;
        }
        let _ = self.lines.len();
        let _ = self.code.len();
        proof {
            assert(self@.rows() =~= rows@);
            lemma_rows_follow_walk(self@, 0);
        }
        Disassembly { title: title_text(name), rows }
    }
}

} // verus!
