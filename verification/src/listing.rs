//! The disassembly of a chunk as data and as text.
//!
//! A line of the listing reads: the offset of the instruction, padded
//! with zeros to four digits; the source line, padded likewise; the
//! mnemonic; and, for an instruction that loads a constant, the constant.
//! The fields are separated by single spaces. How a constant reads as
//! text is the caller's choice: it hands the text in.

use crate::chunk::Instruction;
use crate::opcode::OpCode;
use vstd::prelude::*;
use vstd::string::StringExecFns;

verus! {

/// One instruction of a listing, with where it stands and the source
/// line it came from.
#[derive(Clone, Copy, Debug, PartialEq, Eq, Structural)]
pub struct Row {
    pub offset: usize,
    pub line: usize,
    pub instruction: Instruction,
}

/// The listing of a whole chunk under a title.
#[derive(Debug)]
pub struct Disassembly {
    pub title: String,
    pub rows: Vec<Row>,
}

/// The character of a decimal digit.
pub open spec fn digit(d: int) -> char {
    if d == 0 {
        '0'
    } else if d == 1 {
        '1'
    } else if d == 2 {
        '2'
    } else if d == 3 {
        '3'
    } else if d == 4 {
        '4'
    } else if d == 5 {
        '5'
    } else if d == 6 {
        '6'
    } else if d == 7 {
        '7'
    } else if d == 8 {
        '8'
    } else {
        '9'
    }
}

/// The decimal digits of `n`, most significant first, without leading
/// zeros (the number 0 reads "0").
pub open spec fn decimal(n: nat) -> Seq<char>
    decreases n,
{
    if n < 10 {
        seq![digit(n as int)]
    } else {
        decimal(n / 10).push(digit((n % 10) as int))
    }
}

/// The zeros that bring the decimal digits of `n` up to four characters.
pub open spec fn padding(n: nat) -> Seq<char> {
    if n < 10 {
        seq!['0', '0', '0']
    } else if n < 100 {
        seq!['0', '0']
    } else if n < 1000 {
        seq!['0']
    } else {
        Seq::empty()
    }
}

/// `n` in decimal, at least four digits wide.
pub open spec fn zero_padded(n: nat) -> Seq<char> {
    padding(n) + decimal(n)
}

/// The name under which a mnemonic is listed. A byte that encodes no
/// instruction is listed as a diagnostic.
pub open spec fn mnemonic(op: OpCode) -> Seq<char> {
    match op {
        OpCode::CONSTANT => "OP_CONSTANT"@,
        OpCode::CONSTANT_LONG => "OP_CONSTANT_LONG"@,
        OpCode::ADD => "OP_ADD"@,
        OpCode::SUBTRACT => "OP_SUBTRACT"@,
        OpCode::MULTIPLY => "OP_MULTIPLY"@,
        OpCode::DIVIDE => "OP_DIVIDE"@,
        OpCode::NEGATE => "OP_NEGATE"@,
        OpCode::RETURN => "OP_RETURN"@,
        OpCode::UNKNOWN => "Unknown opcode 8"@,
    }
}

/// The heading line of a listing.
pub open spec fn title(name: Seq<char>) -> Seq<char> {
    "==== "@ + name + " ===="@
}

/// The text of one decimal digit.
fn digit_text(d: usize) -> (r: &'static str)
    requires
        d < 10,
    ensures
        r@ == seq![digit(d as int)],
{
    proof {
        reveal_strlit("0");
        reveal_strlit("1");
        reveal_strlit("2");
        reveal_strlit("3");
        reveal_strlit("4");
        reveal_strlit("5");
        reveal_strlit("6");
        reveal_strlit("7");
        reveal_strlit("8");
        reveal_strlit("9");
    }
    let r = if d == 0 {
        "0"
    } else if d == 1 {
        "1"
    } else if d == 2 {
        "2"
    } else if d == 3 {
        "3"
    } else if d == 4 {
        "4"
    } else if d == 5 {
        "5"
    } else if d == 6 {
        "6"
    } else if d == 7 {
        "7"
    } else if d == 8 {
        "8"
    } else {
        "9"
    };
    assert(r@ =~= seq![digit(d as int)]);
    r
}

/// Appends the decimal digits of `n` to `text`.
fn push_decimal(text: &mut String, n: usize)
    ensures
        final(text)@ == old(text)@ + decimal(n as nat),
    decreases n,
{
    if n >= 10 {
        push_decimal(text, n / 10);
    }
    text.append(digit_text(n % 10));
    proof {
        if n >= 10 {
            assert(old(text)@ + decimal((n / 10) as nat) + seq![digit((n % 10) as int)]
                =~= old(text)@ + decimal(n as nat));
        }
    }
}

/// Writes `n` in decimal.
pub fn decimal_text(n: usize) -> (r: String)
    ensures
        r@ == decimal(n as nat),
{
    let mut text = String::new();
    push_decimal(&mut text, n);
    assert(text@ =~= decimal(n as nat));
    text
}

/// Writes `n` in decimal, padded with zeros to four digits; a number of
/// more digits is written in full.
pub fn zero_padded_text(n: usize) -> (r: String)
    ensures
        r@ == zero_padded(n as nat),
{
    proof {
        reveal_strlit("000");
        reveal_strlit("00");
        reveal_strlit("0");
        reveal_strlit("");
    }
    let zeros = if n < 10 {
        "000"
    } else if n < 100 {
        "00"
    } else if n < 1000 {
        "0"
    } else {
        ""
    };
    assert(zeros@ =~= padding(n as nat));
    let mut text = String::from_str(zeros);
    push_decimal(&mut text, n);
    text
}

/// The name under which a mnemonic is listed.
pub fn mnemonic_text(op: OpCode) -> (r: &'static str)
    ensures
        r@ == mnemonic(op),
{
    match op {
        OpCode::CONSTANT => "OP_CONSTANT",
        OpCode::CONSTANT_LONG => "OP_CONSTANT_LONG",
        OpCode::ADD => "OP_ADD",
        OpCode::SUBTRACT => "OP_SUBTRACT",
        OpCode::MULTIPLY => "OP_MULTIPLY",
        OpCode::DIVIDE => "OP_DIVIDE",
        OpCode::NEGATE => "OP_NEGATE",
        OpCode::RETURN => "OP_RETURN",
        OpCode::UNKNOWN => "Unknown opcode 8",
    }
}

/// Writes the heading line of a listing: the name between two runs of
/// four equal signs.
pub fn title_text(name: &str) -> (r: String)
    ensures
        r@ == title(name@),
{
    let mut text = String::from_str("==== ");
    text.append(name);
    text.append(" ====");
    text
}

impl Row {
    /// The text of the row without its operand: offset, line and
    /// mnemonic.
    pub open spec fn label(self) -> Seq<char> {
        zero_padded(self.offset as nat) + seq![' '] + zero_padded(self.line as nat) + seq![' ']
            + mnemonic(self.instruction.op)
    }

    /// The text of the row, with the operand's text after one more
    /// space where there is one.
    pub open spec fn line_of_text(self, operand: Option<Seq<char>>) -> Seq<char> {
        match operand {
            Some(value) => self.label() + seq![' '] + value,
            None => self.label(),
        }
    }

    /// Writes the row as one line of the listing. `operand` is the text
    /// of the constant that the instruction loads, if it loads one.
    pub fn text(&self, operand: Option<&str>) -> (r: String)
        ensures
            r@ == self.line_of_text(
                match operand {
                    Some(value) => Some(value@),
                    None => None,
                },
            ),
    {
        proof {
            reveal_strlit(" ");
        }
        let mut text = zero_padded_text(self.offset);
        text.append(" ");
        let line = zero_padded_text(self.line);
        text.append(line.as_str());
        text.append(" ");
        text.append(mnemonic_text(self.instruction.op));
        match operand {
            Some(value) => {
                text.append(" ");
                text.append(value);
            },
            None => {},
        }
        assert(" "@ =~= seq![' ']);
        text
    }
}

} // verus!
