//! Tokens and character classes of the language's lexical grammar.

use vstd::prelude::*;

verus! {

/// The lexical classes a token can belong to.
#[derive(Clone, Copy, Debug, PartialEq, Eq, Structural)]
pub enum TokenKind {
    LeftBrace,
    RightBrace,
    LeftSquare,
    RightSquare,
    Atom,
    Integer,
    Float,
    CharLit,
    StringLit,
    Identifier,
    Comma,
    Assign,
    EndOfFile,
}

/// Whitespace characters: the members of the Unicode `White_Space` set.
pub open spec fn is_ws_char(c: char) -> bool {
    let u = c as u32;
    (0x9 <= u && u <= 0xD) || u == 0x20 || u == 0x85 || u == 0xA0 || u == 0x1680 || (0x2000 <= u
        && u <= 0x200A) || u == 0x2028 || u == 0x2029 || u == 0x202F || u == 0x205F || u == 0x3000
}

pub fn ws_char(c: char) -> (b: bool)
    ensures
        b == is_ws_char(c),
{
    let u = c as u32;
    (0x9 <= u && u <= 0xD) || u == 0x20 || u == 0x85 || u == 0xA0 || u == 0x1680 || (0x2000 <= u
        && u <= 0x200A) || u == 0x2028 || u == 0x2029 || u == 0x202F || u == 0x205F || u == 0x3000
}

/// Decimal digits.
pub open spec fn is_digit_char(c: char) -> bool {
    let u = c as u32;
    0x30 <= u && u <= 0x39
}

pub fn digit_char(c: char) -> (b: bool)
    ensures
        b == is_digit_char(c),
{
    let u = c as u32;
    0x30 <= u && u <= 0x39
}

/// Characters that may continue an atom literal after the leading dot:
/// ASCII letters and digits, `_`, `-` and `?`.
pub open spec fn is_atom_char(c: char) -> bool {
    let u = c as u32;
    (0x30 <= u && u <= 0x39) || (0x41 <= u && u <= 0x5A) || (0x61 <= u && u <= 0x7A) || u == 0x5F
        || u == 0x2D || u == 0x3F
}

pub fn atom_char(c: char) -> (b: bool)
    ensures
        b == is_atom_char(c),
{
    let u = c as u32;
    (0x30 <= u && u <= 0x39) || (0x41 <= u && u <= 0x5A) || (0x61 <= u && u <= 0x7A) || u == 0x5F
        || u == 0x2D || u == 0x3F
}

/// Classification of a raw text run: the six punctuation marks match exactly,
/// a leading dot makes an atom, a leading digit an integer, and anything else
/// is a bare identifier (which no grammar production accepts).
pub open spec fn spec_kind_of(s: Seq<char>) -> TokenKind
    recommends
        s.len() > 0,
{
    if s.len() == 1 && s[0] == '{' {
        TokenKind::LeftBrace
    } else if s.len() == 1 && s[0] == '}' {
        TokenKind::RightBrace
    } else if s.len() == 1 && s[0] == '[' {
        TokenKind::LeftSquare
    } else if s.len() == 1 && s[0] == ']' {
        TokenKind::RightSquare
    } else if s.len() == 1 && s[0] == ',' {
        TokenKind::Comma
    } else if s.len() == 1 && s[0] == '=' {
        TokenKind::Assign
    } else if s[0] == '.' {
        TokenKind::Atom
    } else if is_digit_char(s[0]) {
        TokenKind::Integer
    } else {
        TokenKind::Identifier
    }
}

impl TokenKind {
    /// Classify a raw text run, as `spec_kind_of` does.
    pub fn from_string(s: &str) -> (k: TokenKind)
        requires
            s@.len() > 0,
        ensures
            k == spec_kind_of(s@),
    {
        let len = s.unicode_len();
        let first = s.get_char(0);
        if len == 1 {
            match first {
                '{' => TokenKind::LeftBrace,
                '}' => TokenKind::RightBrace,
                '[' => TokenKind::LeftSquare,
                ']' => TokenKind::RightSquare,
                ',' => TokenKind::Comma,
                '=' => TokenKind::Assign,
                '.' => TokenKind::Atom,
                _ => {
                    if digit_char(first) {
                        TokenKind::Integer
                    } else {
                        TokenKind::Identifier
                    }
                },
            }
        } else if first == '.' {
            TokenKind::Atom
        } else if digit_char(first) {
            TokenKind::Integer
        } else {
            TokenKind::Identifier
        }
    }
}

/// The name of a token kind as it appears in error messages.
pub open spec fn spec_kind_name(k: TokenKind) -> Seq<char> {
    match k {
        TokenKind::LeftBrace => "LeftBrace"@,
        TokenKind::RightBrace => "RightBrace"@,
        TokenKind::LeftSquare => "LeftSquare"@,
        TokenKind::RightSquare => "RightSquare"@,
        TokenKind::Atom => "Atom"@,
        TokenKind::Integer => "Integer"@,
        TokenKind::Float => "Float"@,
        TokenKind::CharLit => "Char"@,
        TokenKind::StringLit => "String"@,
        TokenKind::Identifier => "Identifier"@,
        TokenKind::Comma => "Comma"@,
        TokenKind::Assign => "Assign"@,
        TokenKind::EndOfFile => "EndOfFile"@,
    }
}

pub fn kind_name(k: TokenKind) -> (r: &'static str)
    ensures
        r@ == spec_kind_name(k),
{
    match k {
        TokenKind::LeftBrace => "LeftBrace",
        TokenKind::RightBrace => "RightBrace",
        TokenKind::LeftSquare => "LeftSquare",
        TokenKind::RightSquare => "RightSquare",
        TokenKind::Atom => "Atom",
        TokenKind::Integer => "Integer",
        TokenKind::Float => "Float",
        TokenKind::CharLit => "Char",
        TokenKind::StringLit => "String",
        TokenKind::Identifier => "Identifier",
        TokenKind::Comma => "Comma",
        TokenKind::Assign => "Assign",
        TokenKind::EndOfFile => "EndOfFile",
    }
}

/// The mathematical model of a token: its text, class and the line and
/// column of its last character.
pub ghost struct SpecToken {
    pub data: Seq<char>,
    pub kind: TokenKind,
    pub line: nat,
    pub col: nat,
}

/// A single piece of text of the source, with its class and position.
pub struct Token {
    /// The text of the token.
    pub data: String,
    /// The lexical class.
    pub kind: TokenKind,
    /// Line of the token's last character, starting at 1.
    pub line: usize,
    /// Column of the token's last character, starting at 1.
    pub col: usize,
}

impl View for Token {
    type V = SpecToken;

    open spec fn view(&self) -> SpecToken {
        SpecToken { data: self.data@, kind: self.kind, line: self.line as nat, col: self.col as nat }
    }
}

impl Token {
    /// An owned copy of this token.
    pub fn duplicate(&self) -> (r: Token)
        ensures
            r@ == self@,
    {
        Token { data: self.data.clone(), kind: self.kind, line: self.line, col: self.col }
    }
}

/// The views of a sequence of tokens.
pub open spec fn toks_view(ts: Seq<Token>) -> Seq<SpecToken> {
    ts.map_values(|t: Token| t@)
}

} // verus!
