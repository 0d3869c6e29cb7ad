//! Chunks as the outcome of a history of writes, and what holds of every
//! chunk that was built by writes alone: its listing gives the writes
//! back, its pools fill in order, and its line index remembers the line
//! of each write.

use crate::chunk::{width, ChunkView, Instruction, Operand, NARROW_CAPACITY, WIDE_CAPACITY};
use crate::opcode::OpCode;
use crate::value::Value;
use vstd::prelude::*;

verus! {

/// One call that extends a chunk.
pub enum Write {
    /// An opcode byte written for a line.
    Instruction { op: OpCode, line: usize },
    /// A constant written for a line, with the instruction that loads it.
    Constant { value: Value, line: usize },
}

impl Write {
    /// The line that the write names.
    pub open spec fn line(self) -> usize {
        match self {
            Write::Instruction { line, .. } => line,
            Write::Constant { line, .. } => line,
        }
    }

    /// Whether `chunk` can take the write: a constant needs room in a
    /// pool, an opcode byte is always taken.
    pub open spec fn stored(self, chunk: ChunkView) -> bool {
        match self {
            Write::Instruction { .. } => true,
            Write::Constant { .. } => chunk.has_room(),
        }
    }

    /// Whether `chunk` takes the write as one whole instruction: it can
    /// take it, and an opcode written alone is one that stands alone.
    pub open spec fn fits(self, chunk: ChunkView) -> bool {
        match self {
            Write::Instruction { op, .. } => width(op) == 1,
            Write::Constant { .. } => chunk.has_room(),
        }
    }

    /// The chunk after the write.
    pub open spec fn on(self, chunk: ChunkView) -> ChunkView {
        match self {
            Write::Instruction { op, line } => chunk.write(op, line),
            Write::Constant { value, line } => chunk.write_const(value, line),
        }
    }

    /// The instruction that the write adds to `chunk`.
    pub open spec fn adds(self, chunk: ChunkView) -> Instruction {
        match self {
            Write::Instruction { op, .. } => Instruction { op, operand: Operand::Absent },
            Write::Constant { value, .. } => chunk.const_instruction(value),
        }
    }
}

/// The chunk that the writes build, in order, from the empty chunk.
pub open spec fn written(writes: Seq<Write>) -> ChunkView
    decreases writes.len(),
{
    if writes.len() == 0 {
        ChunkView::empty()
    } else {
        writes.last().on(written(writes.drop_last()))
    }
}

/// Every write is taken by the chunk that the writes before it built.
pub open spec fn all_stored(writes: Seq<Write>) -> bool {
    forall|k: int| 0 <= k < writes.len() ==> #[trigger] writes[k].stored(written(writes.take(k)))
}

/// Every write fits the chunk that the writes before it built.
pub open spec fn all_fit(writes: Seq<Write>) -> bool {
    forall|k: int| 0 <= k < writes.len() ==> #[trigger] writes[k].fits(written(writes.take(k)))
}

/// No write names a line before the line of an earlier write.
pub open spec fn lines_ascend(writes: Seq<Write>) -> bool {
    forall|i: int, j: int|
        0 <= i <= j < writes.len() ==> (#[trigger] writes[i]).line() <= (#[trigger] writes[j]).line()
}

/// The number of constants among the writes.
pub open spec fn constants_in(writes: Seq<Write>) -> nat
    decreases writes.len(),
{
    if writes.len() == 0 {
        0
    } else if writes.last() is Constant {
        constants_in(writes.drop_last()) + 1
    } else {
        constants_in(writes.drop_last())
    }
}

/// The offset at which the instruction of write `k` starts: the length
/// of the code that the writes before it built.
pub open spec fn start_of(writes: Seq<Write>, k: int) -> int {
    written(writes.take(k)).code.len() as int
}

/// A prefix of a prefix is a prefix of the whole.
proof fn lemma_take_of_drop_last(writes: Seq<Write>, k: int)
    requires
        0 <= k < writes.len(),
    ensures
        writes.drop_last().take(k) == writes.take(k),
        writes.take(writes.len() as int) == writes,
        writes.take(writes.len() - 1) == writes.drop_last(),
{
    assert(writes.drop_last().take(k) =~= writes.take(k));
    assert(writes.take(writes.len() as int) =~= writes);
    assert(writes.take(writes.len() - 1) =~= writes.drop_last());
}

/// Writes that are all taken stay so when the last is left out.
proof fn lemma_all_stored_before(writes: Seq<Write>)
    requires
        all_stored(writes),
        writes.len() > 0,
    ensures
        all_stored(writes.drop_last()),
        writes.last().stored(written(writes.drop_last())),
{
    let before = writes.drop_last();
    assert forall|k: int| 0 <= k < before.len() implies #[trigger] before[k].stored(
        written(before.take(k)),
    ) by {
        lemma_take_of_drop_last(writes, k);
        assert(writes[k].stored(written(writes.take(k))));
    }
    lemma_take_of_drop_last(writes, writes.len() - 1);
    assert(writes[writes.len() - 1].stored(written(writes.take(writes.len() - 1))));
}

/// Writes that all fit are all taken.
pub proof fn lemma_fit_is_stored(writes: Seq<Write>)
    requires
        all_fit(writes),
    ensures
        all_stored(writes),
{
    assert forall|k: int| 0 <= k < writes.len() implies #[trigger] writes[k].stored(
        written(writes.take(k)),
    ) by {
        assert(writes[k].fits(written(writes.take(k))));
    }
}

/// Fitting writes stay fitting when the last is left out.
proof fn lemma_all_fit_before(writes: Seq<Write>)
    requires
        all_fit(writes),
        writes.len() > 0,
    ensures
        all_fit(writes.drop_last()),
        writes.last().fits(written(writes.drop_last())),
{
    let before = writes.drop_last();
    assert forall|k: int| 0 <= k < before.len() implies #[trigger] before[k].fits(
        written(before.take(k)),
    ) by {
        lemma_take_of_drop_last(writes, k);
        assert(writes[k].fits(written(writes.take(k))));
    }
    lemma_take_of_drop_last(writes, writes.len() - 1);
    assert(writes[writes.len() - 1].fits(written(writes.take(writes.len() - 1))));
}

/// The pools fill in order: the first 256 constants are in the narrow
/// pool, every later one is in the wide pool, and no constant is lost.
pub proof fn lemma_pools_fill_in_order(writes: Seq<Write>)
    requires
        all_stored(writes),
    ensures
        written(writes).constants.len() == if constants_in(writes) <= NARROW_CAPACITY {
            constants_in(writes)
        } else {
            NARROW_CAPACITY as nat
        },
        written(writes).constants_long.len() == if constants_in(writes) <= NARROW_CAPACITY {
            0
        } else {
            constants_in(writes) - NARROW_CAPACITY
        },
        written(writes).constants_long.len() <= WIDE_CAPACITY,
    decreases writes.len(),
{
    if writes.len() > 0 {
        lemma_all_stored_before(writes);
        lemma_pools_fill_in_order(writes.drop_last());
    }
}

/// Disassembling gives the writes back: a chunk built by fitting writes
/// is a program, and its instructions are, in order, those that the
/// writes added, each constant under `CONSTANT` if fewer than 256
/// constants were written before it and under `CONSTANT_LONG` otherwise.
pub proof fn lemma_round_trip(writes: Seq<Write>)
    requires
        all_fit(writes),
    ensures
        written(writes).is_program(),
        written(writes).instructions().len() == writes.len(),
        forall|k: int|
            0 <= k < writes.len() ==> #[trigger] written(writes).instructions()[k] == writes[k].adds(
                written(writes.take(k)),
            ),
        forall|k: int|
            0 <= k < writes.len() ==> #[trigger] written(writes).starts_from(0)[k] == start_of(
                writes,
                k,
            ),
        written(writes).starts_from(0).len() == writes.len(),
        forall|k: int|
            0 <= k < writes.len() ==> (writes[k] matches Write::Constant { value, .. } ==> (
            #[trigger] written(writes).instructions()[k]) == Instruction {
                op: if constants_in(writes.take(k)) < NARROW_CAPACITY {
                    OpCode::CONSTANT
                } else {
                    OpCode::CONSTANT_LONG
                },
                operand: Operand::Value(value),
            }),
    decreases writes.len(),
{
    if writes.len() == 0 {
        assert(written(writes).instructions() =~= Seq::empty());
        assert(written(writes).starts_from(0) =~= Seq::empty());
    } else {
        let before = writes.drop_last();
        let last = writes.last();
        let c = written(before);
        let d = written(writes);
        lemma_all_fit_before(writes);
        lemma_round_trip(before);
        match last {
            Write::Instruction { op, line } => {
                crate::chunk::lemma_write_adds_instruction(c, op, line);
            },
            Write::Constant { value, line } => {
                crate::chunk::lemma_write_const_adds_instruction(c, value, line);
            },
        }
        assert forall|k: int| 0 <= k < writes.len() implies #[trigger] d.instructions()[k]
            == writes[k].adds(written(writes.take(k))) by {
            lemma_take_of_drop_last(writes, k);
            if k < before.len() {
                assert(d.instructions()[k] == c.instructions()[k]);
                assert(before[k] == writes[k]);
            }
        }
        assert forall|k: int| 0 <= k < writes.len() implies #[trigger] d.starts_from(0)[k]
            == start_of(writes, k) by {
            lemma_take_of_drop_last(writes, k);
            if k < before.len() {
                assert(d.starts_from(0)[k] == c.starts_from(0)[k]);
                assert(start_of(before, k) == start_of(writes, k));
            }
        }
        assert forall|k: int| 0 <= k < writes.len() implies (writes[k] matches Write::Constant {
            value,
            ..
        } ==> (#[trigger] d.instructions()[k]) == Instruction {
            op: if constants_in(writes.take(k)) < NARROW_CAPACITY {
                OpCode::CONSTANT
            } else {
                OpCode::CONSTANT_LONG
            },
            operand: Operand::Value(value),
        }) by {
            let prefix = writes.take(k);
            assert(d.instructions()[k] == writes[k].adds(written(prefix)));
            assert forall|i: int| 0 <= i < prefix.len() implies #[trigger] prefix[i].stored(
                written(prefix.take(i)),
            ) by {
                assert(prefix.take(i) =~= writes.take(i));
                assert(writes[i].fits(written(writes.take(i))));
            }
            lemma_pools_fill_in_order(prefix);
        }
    }
}

/// What one write does to the line index of a well-formed chunk: the
/// chunk stays well formed and grows, the index reaches the line of the
/// write, the new bytes belong to that line if no later line was written
/// before, and a byte of an earlier or the same line keeps its owner.
pub proof fn lemma_write_keeps_lines(c: ChunkView, w: Write)
    requires
        c.wf(),
        w.stored(c),
        w.on(c).code.len() <= usize::MAX,
    ensures
        w.on(c).wf(),
        w.on(c).code.len() > c.code.len(),
        w.on(c).lines.len() == if w.line() + 1 > c.lines.len() {
            w.line() + 1
        } else {
            c.lines.len() as int
        },
        w.line() + 1 >= c.lines.len() ==> w.on(c).line_at(c.code.len() as int) == w.line(),
        forall|offset: int|
            0 <= offset < c.code.len() && c.line_at(offset) <= w.line() ==> #[trigger] w.on(
                c,
            ).line_at(offset) == c.line_at(offset),
{
    let d = w.on(c);
    let count = d.code.len() - c.code.len();
    crate::chunk::lemma_recorded(c, d, w.line(), count);
}

/// The line index remembers each write: in a chunk built by writes whose
/// lines never go back, the first byte of every write is owned by the
/// line that the write named. The chunk is well formed, and its index
/// ends with the line of the last write.
pub proof fn lemma_line_fidelity(writes: Seq<Write>)
    requires
        all_stored(writes),
        lines_ascend(writes),
        written(writes).code.len() <= usize::MAX,
    ensures
        written(writes).wf(),
        forall|k: int|
            0 <= k < writes.len() ==> #[trigger] written(writes).line_at(start_of(writes, k))
                == writes[k].line(),
        forall|k: int|
            0 <= k < writes.len() ==> 0 <= #[trigger] start_of(writes, k) < written(
                writes,
            ).code.len(),
        written(writes).lines.len() == if writes.len() == 0 {
            0
        } else {
            writes.last().line() + 1
        },
    decreases writes.len(),
{
    if writes.len() > 0 {
        let before = writes.drop_last();
        let last = writes.last();
        let c = written(before);
        let d = written(writes);
        lemma_all_stored_before(writes);
        assert(lines_ascend(before)) by {
            assert forall|i: int, j: int| 0 <= i <= j < before.len() implies (
            #[trigger] before[i]).line() <= (#[trigger] before[j]).line() by {
                assert(writes[i].line() <= writes[j].line());
            }
        }
        assert(d == last.on(c));
        assert(c.code.len() <= d.code.len());
        lemma_line_fidelity(before);
        lemma_write_keeps_lines(c, last);
        if before.len() > 0 {
            assert(writes[before.len() - 1].line() <= writes[writes.len() - 1].line());
            assert(before.last() == writes[before.len() - 1]);
        }
        assert(last.line() + 1 >= c.lines.len());
        assert forall|k: int| 0 <= k < writes.len() implies #[trigger] start_of(writes, k)
            == if k < before.len() {
            start_of(before, k)
        } else {
            c.code.len() as int
        } by {
            lemma_take_of_drop_last(writes, k);
        }
        assert forall|k: int| 0 <= k < writes.len() implies #[trigger] d.line_at(
            start_of(writes, k),
        ) == writes[k].line() by {
            if k < before.len() {
                let offset = start_of(before, k);
                assert(0 <= offset < c.code.len());
                assert(c.line_at(offset) == before[k].line());
                assert(writes[k].line() <= writes[writes.len() - 1].line());
                assert(d.line_at(offset) == c.line_at(offset));
            }
        }
    }
}

} // verus!
