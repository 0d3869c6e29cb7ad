use rock::chunk::{Chunk, Instruction, Operand, NARROW_CAPACITY, WIDE_CAPACITY};
use rock::error::RuntimeError;
use rock::opcode::OpCode;

fn bits(x: f64) -> u64 {
    x.to_bits()
}

#[test]
fn new_chunk_is_empty() {
    let chunk = Chunk::new();
    assert_eq!(chunk.len(), 0);
    assert!(chunk.code().is_empty());
    assert!(chunk.lines().is_empty());
    assert!(chunk.constants().is_empty());
    assert!(chunk.constants_long().is_empty());
}

#[test]
fn opcode_bytes_are_stable() {
    assert_eq!(OpCode::CONSTANT.to_byte(), 0);
    assert_eq!(OpCode::CONSTANT_LONG.to_byte(), 1);
    assert_eq!(OpCode::ADD.to_byte(), 2);
    assert_eq!(OpCode::SUBTRACT.to_byte(), 3);
    assert_eq!(OpCode::MULTIPLY.to_byte(), 4);
    assert_eq!(OpCode::DIVIDE.to_byte(), 5);
    assert_eq!(OpCode::NEGATE.to_byte(), 6);
    assert_eq!(OpCode::RETURN.to_byte(), 7);
    assert_eq!(OpCode::UNKNOWN.to_byte(), 8);
}

#[test]
fn every_byte_decodes() {
    let expected = [
        OpCode::CONSTANT,
        OpCode::CONSTANT_LONG,
        OpCode::ADD,
        OpCode::SUBTRACT,
        OpCode::MULTIPLY,
        OpCode::DIVIDE,
        OpCode::NEGATE,
        OpCode::RETURN,
    ];
    for byte in 0..=255u8 {
        let op = OpCode::from(byte);
        if byte < 8 {
            assert_eq!(op, expected[byte as usize]);
            assert_eq!(op.to_byte(), byte);
        } else {
            assert_eq!(op, OpCode::UNKNOWN);
        }
    }
}

#[test]
fn write_appends_one_byte_and_records_it() {
    let mut chunk = Chunk::new();
    chunk.write(OpCode::RETURN, 0);
    assert_eq!(chunk.code(), &vec![7u8]);
    assert_eq!(chunk.lines(), &vec![1usize]);
    chunk.write(OpCode::ADD, 0);
    assert_eq!(chunk.code(), &vec![7u8, 2]);
    assert_eq!(chunk.lines(), &vec![2usize]);
    chunk.write(OpCode::NEGATE, 1);
    assert_eq!(chunk.code(), &vec![7u8, 2, 6]);
    assert_eq!(chunk.lines(), &vec![2usize, 3]);
}

#[test]
fn write_const_uses_the_narrow_pool_first() {
    let mut chunk = Chunk::new();
    assert_eq!(chunk.write_const(bits(1.2), 0), Ok(()));
    assert_eq!(chunk.write_const(bits(3.2), 0), Ok(()));
    assert_eq!(chunk.code(), &vec![0u8, 0, 0, 1]);
    assert_eq!(chunk.constants(), &vec![bits(1.2), bits(3.2)]);
    assert!(chunk.constants_long().is_empty());
    assert_eq!(chunk.lines(), &vec![4usize]);
}

#[test]
fn line_index_of_a_small_program() {
    let mut chunk = Chunk::new();
    chunk.write_const(bits(1.2), 0).unwrap();
    chunk.write_const(bits(3.2), 0).unwrap();
    chunk.write(OpCode::NEGATE, 0);
    chunk.write_const(bits(2.0), 0).unwrap();
    chunk.write(OpCode::MULTIPLY, 0);
    chunk.write(OpCode::RETURN, 1);
    assert_eq!(chunk.lines(), &vec![8usize, 9]);
    assert_eq!(chunk.code(), &vec![0u8, 0, 0, 1, 6, 0, 2, 4, 7]);
    for offset in 0..8 {
        assert_eq!(chunk.get_line(offset), 0);
    }
    assert_eq!(chunk.get_line(8), 1);
    assert_eq!(chunk.get_line(9), 2);
    assert_eq!(chunk.get_line(usize::MAX), 2);
}

#[test]
fn get_line_on_an_empty_chunk() {
    let chunk = Chunk::new();
    assert_eq!(chunk.get_line(0), 0);
    assert_eq!(chunk.get_line(17), 0);
}

#[test]
fn first_write_may_name_a_later_line() {
    let mut chunk = Chunk::new();
    chunk.write(OpCode::RETURN, 3);
    assert_eq!(chunk.lines(), &vec![0usize, 0, 0, 1]);
    assert_eq!(chunk.get_line(0), 3);
    chunk.write_const(bits(1.0), 5).unwrap();
    assert_eq!(chunk.lines(), &vec![0usize, 0, 0, 1, 1, 3]);
    assert_eq!(chunk.get_line(0), 3);
    assert_eq!(chunk.get_line(1), 5);
    assert_eq!(chunk.get_line(2), 5);
}

#[test]
fn line_fidelity_for_ascending_lines() {
    let lines = [0usize, 0, 2, 2, 2, 5, 9, 9];
    let mut chunk = Chunk::new();
    let mut starts = Vec::new();
    for (i, line) in lines.iter().enumerate() {
        starts.push(chunk.len());
        if i % 2 == 0 {
            chunk.write_const(bits(i as f64), *line).unwrap();
        } else {
            chunk.write(OpCode::ADD, *line);
        }
        for k in 0..=i {
            assert_eq!(chunk.get_line(starts[k]), lines[k]);
        }
    }
}

#[test]
fn a_line_that_goes_back_is_counted_but_blurs_owners() {
    let mut chunk = Chunk::new();
    chunk.write(OpCode::RETURN, 1);
    chunk.write(OpCode::RETURN, 0);
    assert_eq!(chunk.lines(), &vec![1usize, 2]);
    assert_eq!(chunk.get_line(0), 0);
    assert_eq!(chunk.get_line(1), 1);
}

#[test]
fn pool_switch_boundary() {
    let mut chunk = Chunk::new();
    for i in 0..256usize {
        assert_eq!(chunk.write_const(bits(i as f64), 0), Ok(()));
    }
    assert_eq!(chunk.constants().len(), NARROW_CAPACITY);
    assert!(chunk.constants_long().is_empty());
    assert_eq!(chunk.len(), 512);
    for i in 0..256usize {
        assert_eq!(chunk.code()[2 * i], 0);
        assert_eq!(chunk.code()[2 * i + 1], i as u8);
    }
    assert_eq!(chunk.write_const(bits(256.0), 0), Ok(()));
    assert_eq!(chunk.constants().len(), 256);
    assert_eq!(chunk.constants_long(), &vec![bits(256.0)]);
    assert_eq!(&chunk.code()[512..], &[1u8, 0, 0, 0]);
    assert_eq!(chunk.lines(), &vec![516usize]);
    let (instruction, next) = chunk.fetch(512);
    assert_eq!(
        instruction,
        Instruction {
            op: OpCode::CONSTANT_LONG,
            operand: Operand::Value(bits(256.0))
        }
    );
    assert_eq!(next, 516);
    let listing = chunk.disassemble("switch");
    assert_eq!(listing.rows.len(), 257);
    assert_eq!(listing.rows[255].instruction.op, OpCode::CONSTANT);
    assert_eq!(listing.rows[256].instruction.op, OpCode::CONSTANT_LONG);
    assert_eq!(listing.rows[256].offset, 512);
}

#[test]
fn wide_index_is_big_endian() {
    let mut chunk = Chunk::new();
    for i in 0..(256 + 0x1_02_03 + 1) {
        chunk.write_const(i as u64, 0).unwrap();
    }
    let n = chunk.len();
    assert_eq!(&chunk.code()[n - 4..], &[1u8, 0x01, 0x02, 0x03]);
    let (instruction, next) = chunk.fetch(n - 4);
    assert_eq!(instruction.op, OpCode::CONSTANT_LONG);
    assert_eq!(instruction.operand, Operand::Value((256 + 0x1_02_03) as u64));
    assert_eq!(next, n);
}

#[test]
fn capacity_exceeded_when_both_pools_are_full() {
    let mut chunk = Chunk::new();
    for i in 0..(NARROW_CAPACITY + WIDE_CAPACITY) {
        assert_eq!(chunk.write_const(i as u64, 0), Ok(()));
    }
    let code_len = chunk.len();
    assert_eq!(chunk.constants().len(), NARROW_CAPACITY);
    assert_eq!(chunk.constants_long().len(), WIDE_CAPACITY);
    assert_eq!(
        chunk.write_const(7, 0),
        Err(RuntimeError::CapacityExceeded)
    );
    assert_eq!(chunk.len(), code_len);
    assert_eq!(chunk.constants_long().len(), WIDE_CAPACITY);
    assert_eq!(chunk.lines(), &vec![code_len]);
    let (instruction, _) = chunk.fetch(code_len - 4);
    assert_eq!(
        instruction.operand,
        Operand::Value((NARROW_CAPACITY + WIDE_CAPACITY - 1) as u64)
    );
    assert_eq!(&chunk.code()[code_len - 4..], &[1u8, 0xff, 0xff, 0xff]);
}

#[test]
fn fetch_reports_widths_and_bad_operands() {
    let mut chunk = Chunk::new();
    chunk.write(OpCode::ADD, 0);
    chunk.write(OpCode::UNKNOWN, 0);
    chunk.write(OpCode::CONSTANT, 0);
    chunk.write(OpCode::RETURN, 0);
    chunk.write(OpCode::CONSTANT_LONG, 0);
    chunk.write(OpCode::ADD, 0);
    assert_eq!(
        chunk.fetch(0),
        (
            Instruction {
                op: OpCode::ADD,
                operand: Operand::Absent
            },
            1
        )
    );
    assert_eq!(
        chunk.fetch(1),
        (
            Instruction {
                op: OpCode::UNKNOWN,
                operand: Operand::Absent
            },
            2
        )
    );
    assert_eq!(
        chunk.fetch(2),
        (
            Instruction {
                op: OpCode::CONSTANT,
                operand: Operand::Invalid(7)
            },
            4
        )
    );
    assert_eq!(
        chunk.fetch(4),
        (
            Instruction {
                op: OpCode::CONSTANT_LONG,
                operand: Operand::Truncated
            },
            6
        )
    );
}

#[test]
fn round_trip_of_a_mixed_program() {
    let mut chunk = Chunk::new();
    let mut expected = Vec::new();
    let ops = [
        OpCode::ADD,
        OpCode::SUBTRACT,
        OpCode::MULTIPLY,
        OpCode::DIVIDE,
        OpCode::NEGATE,
        OpCode::RETURN,
        OpCode::UNKNOWN,
    ];
    for i in 0..300usize {
        let value = bits(i as f64 + 0.5);
        chunk.write_const(value, i / 10).unwrap();
        expected.push(Instruction {
            op: if i < 256 {
                OpCode::CONSTANT
            } else {
                OpCode::CONSTANT_LONG
            },
            operand: Operand::Value(value),
        });
        let op = ops[i % ops.len()];
        chunk.write(op, i / 10);
        expected.push(Instruction {
            op,
            operand: Operand::Absent,
        });
    }
    let listing = chunk.disassemble("mixed");
    let got: Vec<Instruction> = listing.rows.iter().map(|row| row.instruction).collect();
    assert_eq!(got, expected);
    let mut offset = 0;
    for (i, row) in listing.rows.iter().enumerate() {
        assert_eq!(row.offset, offset);
        assert_eq!(row.line, (i / 2) / 10);
        offset += match row.instruction.op {
            OpCode::CONSTANT => 2,
            OpCode::CONSTANT_LONG => 4,
            _ => 1,
        };
    }
    assert_eq!(offset, chunk.len());
}

#[test]
fn an_opcode_written_without_its_operand_breaks_the_round_trip() {
    let mut chunk = Chunk::new();
    chunk.write(OpCode::CONSTANT, 0);
    chunk.write(OpCode::RETURN, 0);
    let listing = chunk.disassemble("raw");
    assert_eq!(listing.rows.len(), 1);
    assert_eq!(
        listing.rows[0].instruction,
        Instruction {
            op: OpCode::CONSTANT,
            operand: Operand::Invalid(7)
        }
    );
}
