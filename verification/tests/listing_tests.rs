use rock::chunk::{Chunk, Instruction, Operand};
use rock::listing::{decimal_text, mnemonic_text, title_text, zero_padded_text, Row};
use rock::opcode::OpCode;

#[test]
fn decimal_text_of_numbers() {
    assert_eq!(decimal_text(0), "0");
    assert_eq!(decimal_text(7), "7");
    assert_eq!(decimal_text(10), "10");
    assert_eq!(decimal_text(1234567890), "1234567890");
    assert_eq!(decimal_text(usize::MAX), format!("{}", usize::MAX));
}

#[test]
fn zero_padding_to_four_digits() {
    assert_eq!(zero_padded_text(0), "0000");
    assert_eq!(zero_padded_text(9), "0009");
    assert_eq!(zero_padded_text(10), "0010");
    assert_eq!(zero_padded_text(99), "0099");
    assert_eq!(zero_padded_text(100), "0100");
    assert_eq!(zero_padded_text(999), "0999");
    assert_eq!(zero_padded_text(1000), "1000");
    assert_eq!(zero_padded_text(9999), "9999");
    assert_eq!(zero_padded_text(10000), "10000");
    for n in [0usize, 5, 42, 321, 4096, 65536] {
        assert_eq!(zero_padded_text(n), format!("{:0>4}", n));
    }
}

#[test]
fn mnemonics() {
    assert_eq!(mnemonic_text(OpCode::CONSTANT), "OP_CONSTANT");
    assert_eq!(mnemonic_text(OpCode::CONSTANT_LONG), "OP_CONSTANT_LONG");
    assert_eq!(mnemonic_text(OpCode::ADD), "OP_ADD");
    assert_eq!(mnemonic_text(OpCode::SUBTRACT), "OP_SUBTRACT");
    assert_eq!(mnemonic_text(OpCode::MULTIPLY), "OP_MULTIPLY");
    assert_eq!(mnemonic_text(OpCode::DIVIDE), "OP_DIVIDE");
    assert_eq!(mnemonic_text(OpCode::NEGATE), "OP_NEGATE");
    assert_eq!(mnemonic_text(OpCode::RETURN), "OP_RETURN");
    assert_eq!(mnemonic_text(OpCode::UNKNOWN), "Unknown opcode 8");
}

#[test]
fn title_of_a_listing() {
    assert_eq!(title_text("test chunk"), "==== test chunk ====");
    assert_eq!(title_text(""), "====  ====");
}

#[test]
fn row_text_with_and_without_operand() {
    let row = Row {
        offset: 2,
        line: 123,
        instruction: Instruction {
            op: OpCode::CONSTANT,
            operand: Operand::Value(1.2f64.to_bits()),
        },
    };
    assert_eq!(row.text(Some("1.2")), "0002 0123 OP_CONSTANT 1.2");
    assert_eq!(row.text(None), "0002 0123 OP_CONSTANT");
    let plain = Row {
        offset: 12345,
        line: 0,
        instruction: Instruction {
            op: OpCode::RETURN,
            operand: Operand::Absent,
        },
    };
    assert_eq!(plain.text(None), "12345 0000 OP_RETURN");
}

#[test]
fn listing_of_a_small_program() {
    let mut chunk = Chunk::new();
    chunk.write_const(1.2f64.to_bits(), 0).unwrap();
    chunk.write(OpCode::NEGATE, 0);
    chunk.write(OpCode::UNKNOWN, 1);
    chunk.write(OpCode::RETURN, 1);
    let before = chunk.code().clone();
    let listing = chunk.disassemble("small");
    assert_eq!(chunk.code(), &before);
    assert_eq!(listing.title, "==== small ====");
    let text: Vec<String> = listing
        .rows
        .iter()
        .map(|row| match row.instruction.operand {
            Operand::Value(v) => row.text(Some(&format!("{}", f64::from_bits(v)))),
            _ => row.text(None),
        })
        .collect();
    assert_eq!(
        text,
        vec![
            "0000 0000 OP_CONSTANT 1.2",
            "0002 0000 OP_NEGATE",
            "0003 0001 Unknown opcode 8",
            "0004 0001 OP_RETURN",
        ]
    );
}

#[test]
fn disassemble_instruction_steps_by_width() {
    let mut chunk = Chunk::new();
    chunk.write_const(5, 0).unwrap();
    chunk.write(OpCode::ADD, 2);
    let (row, next) = chunk.disassemble_instruction(0);
    assert_eq!(
        row,
        Row {
            offset: 0,
            line: 0,
            instruction: Instruction {
                op: OpCode::CONSTANT,
                operand: Operand::Value(5)
            }
        }
    );
    assert_eq!(next, 2);
    let (row, next) = chunk.disassemble_instruction(2);
    assert_eq!(row.line, 2);
    assert_eq!(row.instruction.op, OpCode::ADD);
    assert_eq!(next, 3);
}

#[test]
fn listing_of_an_empty_chunk_has_no_rows() {
    let chunk = Chunk::new();
    let listing = chunk.disassemble("empty");
    assert!(listing.rows.is_empty());
    assert_eq!(listing.title, "==== empty ====");
}
