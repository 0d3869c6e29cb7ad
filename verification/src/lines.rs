//! The line index: a prefix-sum array that maps byte offsets to source
//! lines. Entry `i` holds the number of instruction bytes emitted through
//! source line `i`, so the entries never decrease and the last one is the
//! length of the code.

use vstd::prelude::*;

verus! {

/// The entries never decrease.
pub open spec fn ordered(lines: Seq<usize>) -> bool {
    forall|i: int, j: int| 0 <= i <= j < lines.len() ==> lines[i] <= lines[j]
}

/// The number of bytes recorded in all: the last entry, or 0 for an empty
/// index.
pub open spec fn total(lines: Seq<usize>) -> int {
    if lines.len() == 0 {
        0
    } else {
        lines.last() as int
    }
}

/// The source line that owns the byte at `offset`: the position of the
/// first entry greater than `offset`, or the number of entries when there
/// is none.
pub open spec fn line_of(lines: Seq<usize>, offset: int) -> int
    decreases lines.len(),
{
    if lines.len() == 0 || lines[0] > offset {
        0
    } else {
        1 + line_of(lines.drop_first(), offset)
    }
}

/// The index after `count` more bytes were recorded against `line`: the
/// index grows to hold `line`, each new entry starting from the old total,
/// and every entry from `line` on rises by `count`.
pub open spec fn record(lines: Seq<usize>, line: int, count: int) -> Seq<usize> {
    let len = if line + 1 > lines.len() {
        line + 1
    } else {
        lines.len() as int
    };
    Seq::new(
        len as nat,
        |i: int|
            {
                let before = if i < lines.len() {
                    lines[i] as int
                } else {
                    total(lines)
                };
                if i >= line {
                    (before + count) as usize
                } else {
                    before as usize
                }
            },
    )
}

/// `line_of` is the one position that splits the entries into those at
/// most `offset` and, from there on, one greater than `offset`.
pub proof fn lemma_line_of_is(lines: Seq<usize>, offset: int, r: int)
    requires
        0 <= r <= lines.len(),
        forall|i: int| 0 <= i < r ==> lines[i] <= offset,
        r < lines.len() ==> lines[r] > offset,
    ensures
        line_of(lines, offset) == r,
    decreases lines.len(),
{
    if lines.len() == 0 || lines[0] > offset {
    } else {
        let rest = lines.drop_first();
        assert forall|i: int| 0 <= i < r - 1 implies rest[i] <= offset by {
            assert(rest[i] == lines[i + 1]);
        }
        lemma_line_of_is(rest, offset, r - 1);
    }
}

/// What `line_of` finds: every entry before it is at most `offset`, and
/// the entry at it, if there is one, is greater.
pub proof fn lemma_line_of_splits(lines: Seq<usize>, offset: int)
    ensures
        0 <= line_of(lines, offset) <= lines.len(),
        forall|i: int| 0 <= i < line_of(lines, offset) ==> lines[i] <= offset,
        line_of(lines, offset) < lines.len() ==> lines[line_of(lines, offset)] > offset,
    decreases lines.len(),
{
    if lines.len() == 0 || lines[0] > offset {
    } else {
        let rest = lines.drop_first();
        lemma_line_of_splits(rest, offset);
        let r = line_of(lines, offset);
        assert forall|i: int| 0 <= i < r implies lines[i] <= offset by {
            if i > 0 {
                assert(rest[i - 1] == lines[i]);
            }
        }
        if r < lines.len() {
            assert(rest[r - 1] == lines[r]);
        }
    }
}

/// Recording keeps an ordered index ordered, with the total raised by
/// `count`, as long as the new total fits the machine word.
pub proof fn lemma_record_ordered(lines: Seq<usize>, line: int, count: int)
    requires
        ordered(lines),
        0 <= line,
        0 <= count,
        total(lines) + count <= usize::MAX,
    ensures
        ordered(record(lines, line, count)),
        total(record(lines, line, count)) == total(lines) + count,
        record(lines, line, count).len() >= lines.len(),
        record(lines, line, count).len() > line,
{
    let after = record(lines, line, count);
    assert forall|i: int| 0 <= i < lines.len() implies lines[i] <= total(lines) by {}
    assert forall|i: int, j: int| 0 <= i <= j < after.len() implies after[i] <= after[j] by {}
}

/// A byte recorded against a line that is not before the last line of
/// the index is owned by that line.
pub proof fn lemma_record_owns_new_bytes(lines: Seq<usize>, line: int, count: int)
    requires
        ordered(lines),
        0 <= line,
        line + 1 >= lines.len(),
        0 < count,
        total(lines) + count <= usize::MAX,
    ensures
        forall|offset: int|
            total(lines) <= offset < total(lines) + count ==> #[trigger] line_of(
                record(lines, line, count),
                offset,
            ) == line,
{
    let after = record(lines, line, count);
    assert forall|offset: int| total(lines) <= offset < total(lines) + count implies #[trigger] line_of(
        after,
        offset,
    ) == line by {
        assert forall|i: int| 0 <= i < line implies after[i] <= offset by {
            if i < lines.len() {
                assert(lines[i] <= lines.last());
            }
        }
        lemma_line_of_is(after, offset, line);
    }
}

/// Recording against `line` leaves the owner of every earlier byte that
/// belongs to `line` or to a line before it.
pub proof fn lemma_record_keeps_owner(lines: Seq<usize>, line: int, count: int, offset: int)
    requires
        ordered(lines),
        0 <= line,
        0 <= count,
        total(lines) + count <= usize::MAX,
        0 <= offset < total(lines),
        line_of(lines, offset) <= line,
    ensures
        line_of(record(lines, line, count), offset) == line_of(lines, offset),
{
    let after = record(lines, line, count);
    let r = line_of(lines, offset);
    lemma_line_of_splits(lines, offset);
    if r == lines.len() {
        assert(lines[lines.len() - 1] <= offset);
    }
    lemma_line_of_is(after, offset, r);
}

} // verus!
