//! The front end. So far it reads the first token of a source and
//! reports it for tracing; it emits no code yet.

use crate::listing::{decimal, decimal_text};
use crate::scanner::{Scanner, ScannerView, Token};
use vstd::prelude::*;
use vstd::string::StringExecFns;

verus! {

/// A token as the trace of the front end shows it.
#[derive(Debug)]
pub struct Traced {
    /// The token.
    pub token: Token,
    /// The token's line, if it is the first token of that line.
    pub new_line: Option<usize>,
}

/// What the trace shows before a token: the line number and a space for
/// the first token of a line, a bar between two spaces for every other.
pub open spec fn margin(new_line: Option<usize>) -> Seq<char> {
    match new_line {
        Some(line) => decimal(line as nat) + seq![' '],
        None => seq![' ', '|', ' '],
    }
}

impl Traced {
    /// Writes what the trace shows before the token.
    pub fn margin_text(&self) -> (r: String)
        ensures
            r@ == margin(self.new_line),
    {
        proof {
            reveal_strlit(" ");
            reveal_strlit(" | ");
        }
        match self.new_line {
            Some(line) => {
                let mut text = decimal_text(line);
                text.append(" ");
                assert(text@ =~= margin(self.new_line));
                text
            },
            None => {
                let text = String::from_str(" | ");
                assert(text@ =~= margin(self.new_line));
                text
            },
        }
    }
}

/// Reads the first token of `source`: the token that a scanner at the
/// start of the source cuts, marked as the first of its line.
pub fn compile(source: String) -> (r: Traced)
    ensures
        r.token.token_type == ScannerView::begin(source@).scanned_type(),
        r.token.data@ == ScannerView::begin(source@).scanned().token_text(),
        r.token.line == 1,
        r.new_line == Some(1usize),
{
    let mut scanner = Scanner::from(source);
    let line: usize = 0;
    let token = scanner.scan_token();
    let new_line = if token.line != line {
        Some(token.line)
    } else {
        None
    };
    Traced { token, new_line }
}

} // verus!
