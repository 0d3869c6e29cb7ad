//! The scanner: cuts a source text into tokens, one per call.
//!
//! The scanner counts characters, and a token's text is cut from the
//! source at those counts taken as byte positions. On a source of
//! one-byte characters the two agree and a token's text is the characters
//! it spans; elsewhere a cut that would split a character gives no text.

use std::ops::Range;
use vstd::prelude::*;
use vstd::string::StringSliceAdditionalSpecFns;
use vstd::utf8::{decode_utf8, encode_utf8, is_ascii_chars, is_char_boundary, valid_utf8};

verus! {

/// The kinds of token.
#[derive(Clone, Copy, Debug, PartialEq, Eq, Structural)]
pub enum TokenType {
    LeftParen,
    RightParen,
    LeftBrace,
    RightBrace,
    Comma,
    Dot,
    Minus,
    Plus,
    Semicolon,
    Slash,
    Star,
    Bang,
    BangEqual,
    Equal,
    EqualEqual,
    Greater,
    GreaterEqual,
    Less,
    LessEqual,
    Identifier,
    String,
    Number,
    And,
    Class,
    Else,
    False,
    For,
    Fun,
    If,
    Nil,
    Or,
    Print,
    Return,
    Super,
    This,
    True,
    Var,
    While,
    ERROR,
    EOF,
}

/// One token: its kind, its text and the line it stands on.
#[derive(Debug)]
pub struct Token {
    pub token_type: TokenType,
    pub data: String,
    pub line: usize,
}

/// The text between two byte positions of `text`, if both positions are
/// in order, within the encoded text, and at the edge of a character.
pub open spec fn text_between(text: Seq<char>, start: int, end: int) -> Option<Seq<char>> {
    let bytes = encode_utf8(text);
    if 0 <= start <= end <= bytes.len() && is_char_boundary(bytes, start) && is_char_boundary(
        bytes,
        end,
    ) {
        Some(decode_utf8(bytes.subrange(start, end)))
    } else {
        None
    }
}

/// A character edge of a text is a character edge of each of its
/// prefixes that ends at a character edge and reaches it.
pub proof fn lemma_boundary_in_prefix(bytes: Seq<u8>, start: int, end: int)
    requires
        valid_utf8(bytes),
        0 <= start <= end <= bytes.len(),
        is_char_boundary(bytes, start),
        is_char_boundary(bytes, end),
    ensures
        valid_utf8(bytes.subrange(0, end)),
        is_char_boundary(bytes.subrange(0, end), start),
{
    let head = bytes.subrange(0, end);
    vstd::utf8::valid_utf8_split(bytes, end);
    if start == end {
        vstd::utf8::is_char_boundary_start_end_of_seq(head);
    } else {
        vstd::utf8::is_char_boundary_iff_not_is_continuation_byte(bytes, start);
        vstd::utf8::is_char_boundary_iff_not_is_continuation_byte(head, start);
    }
}

/// In a text of one-byte characters, bytes and characters count alike:
/// the text between two positions is the characters between them.
pub proof fn lemma_text_between_ascii(text: Seq<char>, start: int, end: int)
    requires
        is_ascii_chars(text),
        0 <= start <= end <= text.len(),
    ensures
        text_between(text, start, end) == Some(text.subrange(start, end)),
{
    let bytes = encode_utf8(text);
    let part = text.subrange(start, end);
    vstd::utf8::is_ascii_chars_encode_utf8(text);
    vstd::utf8::is_ascii_chars_nat_bound(text);
    vstd::utf8::encode_utf8_valid_utf8(text);
    vstd::utf8::is_char_boundary_start_end_of_seq(bytes);
    if start < bytes.len() {
        assert(text[start] as u8 == bytes[start]);
        vstd::utf8::is_char_boundary_iff_not_is_continuation_byte(bytes, start);
    }
    if end < bytes.len() {
        assert(text[end] as u8 == bytes[end]);
        vstd::utf8::is_char_boundary_iff_not_is_continuation_byte(bytes, end);
    }
    assert(is_ascii_chars(part));
    vstd::utf8::is_ascii_chars_encode_utf8(part);
    assert(encode_utf8(part) =~= bytes.subrange(start, end)) by {
        assert forall|i: int| 0 <= i < part.len() implies encode_utf8(part)[i] == bytes.subrange(
            start,
            end,
        )[i] by {
            assert(part[i] as u8 == encode_utf8(part)[i]);
            assert(text[start + i] as u8 == bytes[start + i]);
        }
    }
    vstd::utf8::encode_utf8_decode_utf8(part);
}

/// The mathematical content of a source: its characters and how many of
/// them were taken.
pub struct SourceView {
    pub text: Seq<char>,
    pub cursor: int,
}

/// A source text with a cursor that walks its characters.
pub struct InnerSrc {
    src: String,
    chars: Vec<char>,
    cursor: usize,
}

impl View for InnerSrc {
    type V = SourceView;

    closed spec fn view(&self) -> SourceView {
        SourceView { text: self.chars@, cursor: self.cursor as int }
    }
}

/// Copies the characters of a text into a vector.
fn characters(text: &str) -> (chars: Vec<char>)
    ensures
        chars@ == text@,
{
    let mut chars: Vec<char> = Vec::new();
    for c in it: text.chars()
        invariant
            it.seq() == text@,
            chars@ == it.seq().take(it.index()),
    {
        chars.push(c);
        proof {
            assert(chars@ =~= it.seq().take(it.index() + 1));
        }
    }
    proof {
        assert(chars@ =~= text@);
    }
    chars
}

impl InnerSrc {
    /// The invariant of a source: the cursor is within the text, and the
    /// text held for cutting is the text that the cursor walks.
    pub closed spec fn wf(&self) -> bool {
        &&& self.src@ == self.chars@
        &&& self.cursor <= self.chars@.len()
    }

    /// Takes a text, with the cursor before its first character.
    pub fn from(src: String) -> (s: InnerSrc)
        ensures
            s.wf(),
            s@ == (SourceView { text: src@, cursor: 0 }),
    {
        let chars = characters(src.as_str());
        InnerSrc { src, chars, cursor: 0 }
    }

    /// The number of characters of the text.
    pub fn count(&self) -> (n: usize)
        requires
            self.wf(),
        ensures
            n == self@.text.len(),
    {
        self.chars.len()
    }

    /// The character under the cursor, if the cursor is not at the end.
    pub fn peek(&self) -> (c: Option<char>)
        requires
            self.wf(),
        ensures
            c == if self@.cursor < self@.text.len() {
                Some(self@.text[self@.cursor])
            } else {
                None
            },
    {
        if self.cursor < self.chars.len() {
            Some(self.chars[self.cursor])
        } else {
            None
        }
    }

    /// Takes the character under the cursor and moves the cursor past it.
    /// At the end of the text there is none to take and nothing moves.
    pub fn next(&mut self) -> (c: Option<char>)
        requires
            old(self).wf(),
        ensures
            final(self).wf(),
            final(self)@.text == old(self)@.text,
            old(self)@.cursor < old(self)@.text.len() ==> c == Some(
                old(self)@.text[old(self)@.cursor],
            ) && final(self)@.cursor == old(self)@.cursor + 1,
            old(self)@.cursor >= old(self)@.text.len() ==> c is None && final(self)@.cursor
                == old(self)@.cursor,
    {
        if self.cursor < self.chars.len() {
            let c = self.chars[self.cursor];
            self.cursor += 1;
            Some(c)
        } else {
            None
        }
    }

    /// Cuts the text between two byte positions out of the source. There
    /// is no such text where the positions are out of order, past the end
    /// of the encoded text, or inside a character.
    pub fn get(&self, range: Range<usize>) -> (r: Option<&str>)
        requires
            self.wf(),
        ensures
            match r {
                Some(text) => Some(text@),
                None => None,
            } == text_between(self@.text, range.start as int, range.end as int),
    {
        let text = self.src.as_str();
        let start = range.start;
        let end = range.end;
        proof {
            vstd::utf8::encode_utf8_valid_utf8(text@);
        }
        let size = text.as_bytes().len();
        if start <= end && end <= size && text.is_char_boundary(start) && text.is_char_boundary(
            end,
        ) {
            proof {
                lemma_boundary_in_prefix(text.spec_bytes(), start as int, end as int);
            }
            let (head, _) = text.split_at(end);
            let (_, cut) = head.split_at(start);
            proof {
                assert(cut.spec_bytes() =~= text.spec_bytes().subrange(start as int, end as int));
                vstd::utf8::encode_utf8_decode_utf8(cut@);
            }
            Some(cut)
        } else {
            None
        }
    }
}

/// Whether the standard library classes a character as white space.
pub uninterp spec fn white_space(c: char) -> bool;

/// `char::is_whitespace` of the standard library: the answer depends on
/// the character alone, and is taken as given.
#[verifier::external_body]
fn is_white_space(c: char) -> (r: bool)
    ensures
        r == white_space(c),
{
    c.is_whitespace()
}

/// The kind of the token that starts with `first`, given the character
/// that follows it, if any.
///
/// Each of `( ) { } ; , . - + / *` is a token of its own kind. `=`, `<`
/// and `>` are `EqualEqual`, `LessEqual` and `GreaterEqual` before an
/// `=`, else `Equal`, `Less` and `Greater`. `!` is `BangEqual` before an
/// `=`, else `Equal`. Every other character gives `EOF`.
pub open spec fn classify(first: char, following: Option<char>) -> TokenType {
    let before_equal = following == Some('=');
    if first == '(' {
        TokenType::LeftParen
    } else if first == ')' {
        TokenType::RightParen
    } else if first == '{' {
        TokenType::LeftBrace
    } else if first == '}' {
        TokenType::RightBrace
    } else if first == ';' {
        TokenType::Semicolon
    } else if first == ',' {
        TokenType::Comma
    } else if first == '.' {
        TokenType::Dot
    } else if first == '-' {
        TokenType::Minus
    } else if first == '+' {
        TokenType::Plus
    } else if first == '/' {
        TokenType::Slash
    } else if first == '*' {
        TokenType::Star
    } else if first == '!' {
        if before_equal {
            TokenType::BangEqual
        } else {
            TokenType::Equal
        }
    } else if first == '=' {
        if before_equal {
            TokenType::EqualEqual
        } else {
            TokenType::Equal
        }
    } else if first == '<' {
        if before_equal {
            TokenType::LessEqual
        } else {
            TokenType::Less
        }
    } else if first == '>' {
        if before_equal {
            TokenType::GreaterEqual
        } else {
            TokenType::Greater
        }
    } else {
        TokenType::EOF
    }
}

/// The position of the first character at or after `from` that is not
/// white space, or the length of the text if there is none.
pub open spec fn skip_white_space(text: Seq<char>, from: int) -> int
    decreases text.len() - from,
{
    if 0 <= from < text.len() && white_space(text[from]) {
        skip_white_space(text, from + 1)
    } else {
        from
    }
}

/// The mathematical content of a scanner. `start` and `offset` count
/// characters: the token being cut starts at `start`, and `offset`
/// characters were taken so far.
pub struct ScannerView {
    pub text: Seq<char>,
    pub start: int,
    pub offset: int,
    pub line: int,
    pub end: int,
}

impl ScannerView {
    /// The scanner that is about to cut the first token of `text`.
    pub open spec fn begin(text: Seq<char>) -> ScannerView {
        ScannerView { text, start: 0, offset: 0, line: 1, end: text.len() as int }
    }

    /// The invariant of a scanner: the positions are in order and within
    /// the text.
    pub open spec fn wf(self) -> bool {
        &&& 0 <= self.start <= self.offset <= self.end
        &&& self.end == self.text.len()
        &&& 0 <= self.line
    }

    /// Whether every character was taken.
    pub open spec fn at_end(self) -> bool {
        self.offset >= self.end
    }

    /// The character that would be taken next, if any is left.
    pub open spec fn upcoming(self) -> Option<char> {
        if 0 <= self.offset < self.text.len() {
            Some(self.text[self.offset])
        } else {
            None
        }
    }

    /// The text of the token being cut: the source between `start` and
    /// `offset` taken as byte positions, or nothing where there is no
    /// such text.
    pub open spec fn token_text(self) -> Seq<char> {
        match text_between(self.text, self.start, self.offset) {
            Some(text) => text,
            None => Seq::empty(),
        }
    }

    /// The scanner after it cut one token: the token starts where the
    /// last one ended and, unless the text is used up, spans one
    /// character.
    pub open spec fn scanned(self) -> ScannerView {
        if self.at_end() {
            ScannerView { start: self.offset, ..self }
        } else {
            ScannerView { start: self.offset, offset: self.offset + 1, ..self }
        }
    }

    /// The kind of the token that `scanned` cut: `EOF` when the text is
    /// used up, else what the character taken and the one after it say.
    pub open spec fn scanned_type(self) -> TokenType {
        if self.at_end() {
            TokenType::EOF
        } else {
            classify(self.text[self.offset], self.scanned().upcoming())
        }
    }
}

/// A source text and the state of cutting it into tokens.
pub struct Scanner {
    source: InnerSrc,
    start: usize,
    offset: usize,
    line: usize,
    end: usize,
}

impl View for Scanner {
    type V = ScannerView;

    closed spec fn view(&self) -> ScannerView {
        ScannerView {
            text: self.source@.text,
            start: self.start as int,
            offset: self.offset as int,
            line: self.line as int,
            end: self.end as int,
        }
    }
}

impl Scanner {
    /// The invariant of a scanner: that of its content, with the cursor
    /// of the source at the scanner's offset.
    pub closed spec fn wf(&self) -> bool {
        &&& self@.wf()
        &&& self.source.wf()
        &&& self.source@.cursor == self.offset
    }

    /// Makes a scanner that is about to cut the first token of `source`,
    /// on line 1.
    pub fn from(source: String) -> (s: Scanner)
        ensures
            s.wf(),
            s@ == ScannerView::begin(source@),
    {
        let source = InnerSrc::from(source);
        let end = source.count();
        Scanner { source, start: 0, offset: 0, line: 1, end }
    }

    /// Tells whether every character was taken.
    pub fn end(&self) -> (b: bool)
        ensures
            b == self@.at_end(),
    {
        self.offset >= self.end
    }

    /// Makes the token of the given kind from the text cut so far.
    fn make_token(&self, token_type: TokenType) -> (t: Token)
        requires
            self.wf(),
        ensures
            t.token_type == token_type,
            t.data@ == self@.token_text(),
            t.line == self@.line,
    {
        let data = match self.source.get(self.start..self.offset) {
            Some(text) => text.to_owned(),
            None => String::new(),
        };
        Token { token_type, data, line: self.line }
    }

    /// Makes an error token that carries `data` as its message.
    pub fn error_token(&self, data: String) -> (t: Token)
        ensures
            t.token_type == TokenType::ERROR,
            t.data == data,
            t.line == self@.line,
    {
        Token { token_type: TokenType::ERROR, data, line: self.line }
    }

    /// Takes the next character.
    fn advance(&mut self) -> (c: char)
        requires
            old(self).wf(),
            !old(self)@.at_end(),
        ensures
            final(self).wf(),
            c == old(self)@.text[old(self)@.offset],
            final(self)@ == (ScannerView { offset: old(self)@.offset + 1, ..old(self)@ }),
    {
        self.offset += 1;
        match self.source.next() {
            Some(c) => c,
            None => '\0',
        }
    }

    /// Tells whether the next character is `c`, without taking it.
    fn match_char(&self, c: char) -> (b: bool)
        requires
            self.wf(),
        ensures
            b == (self@.upcoming() == Some(c)),
    {
        match self.source.peek() {
            Some(next) => !self.end() && c == next,
            None => false,
        }
    }

    /// Takes characters up to the first that is not white space, or to
    /// the end of the text.
    pub fn skip_whitespace(&mut self)
        requires
            old(self).wf(),
        ensures
            final(self).wf(),
            final(self)@ == (ScannerView {
                offset: skip_white_space(old(self)@.text, old(self)@.offset),
                ..old(self)@
            }),
    {
        loop
            invariant
                self.wf(),
                self@.text == old(self)@.text,
                self@.start == old(self)@.start,
                self@.line == old(self)@.line,
                self@.end == old(self)@.end,
                old(self)@.offset <= self@.offset,
                skip_white_space(self@.text, self@.offset) == skip_white_space(
                    old(self)@.text,
                    old(self)@.offset,
                ),
            decreases self@.end - self@.offset,
        {
            match self.source.peek() {
                Some(c) => {
                    if !is_white_space(c) {
                        return ;
                    }
                },
                None => {
                    return ;
                },
            }
            self.advance();
        }
    }

    /// Cuts the next token. At the end of the text the token is `EOF`
    /// with no text. Otherwise one character is taken, and it and the
    /// character after it decide the kind; the token's text is the source
    /// between the counts of characters taken before and after, read as
    /// byte positions.
    pub fn scan_token(&mut self) -> (t: Token)
        requires
            old(self).wf(),
        ensures
            final(self).wf(),
            final(self)@ == old(self)@.scanned(),
            t.token_type == old(self)@.scanned_type(),
            t.data@ == final(self)@.token_text(),
            t.line == old(self)@.line,
    {
        self.start = self.offset;
        if self.end() {
            return self.make_token(TokenType::EOF);
        }
        let c = self.advance();
        let token_type = match c {
            '(' => TokenType::LeftParen,
            ')' => TokenType::RightParen,
            '{' => TokenType::LeftBrace,
            '}' => TokenType::RightBrace,
            ';' => TokenType::Semicolon,
            ',' => TokenType::Comma,
            '.' => TokenType::Dot,
            '-' => TokenType::Minus,
            '+' => TokenType::Plus,
            '/' => TokenType::Slash,
            '*' => TokenType::Star,
            '!' => {
                if self.match_char('=') {
                    TokenType::BangEqual
                } else {
                    TokenType::Equal
                }
            },
            '=' => {
                if self.match_char('=') {
                    TokenType::EqualEqual
                } else {
                    TokenType::Equal
                }
            },
            '<' => {
                if self.match_char('=') {
                    TokenType::LessEqual
                } else {
                    TokenType::Less
                }
            },
            '>' => {
                if self.match_char('=') {
                    TokenType::GreaterEqual
                } else {
                    TokenType::Greater
                }
            },
            _ => TokenType::EOF,
        };
        self.make_token(token_type)
    }
}

} // verus!
