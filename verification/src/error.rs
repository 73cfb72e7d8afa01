//! Typed errors of tokenizing, parsing and querying, each rendering to the
//! exact human-readable message of the language.

use vstd::prelude::*;

use crate::ast::{spec_ast_kind_name, ast_kind_name, AstKind};
use crate::token::{spec_kind_name, kind_name, TokenKind};

verus! {

/// What a parse step expected to see next.
#[derive(Clone, Copy, Debug, PartialEq, Eq, Structural)]
pub enum Expectation {
    /// A specific token kind.
    Kind(TokenKind),
    /// Any expression.
    AnExpression,
}

/// The target type of a failed query coercion.
#[derive(Clone, Copy, Debug, PartialEq, Eq, Structural)]
pub enum CoerceTarget {
    Int,
    Float,
    Str,
}

/// Every error the library reports.
#[derive(Clone, Copy, Debug, PartialEq, Eq, Structural)]
pub enum KartaError {
    /// A char literal was still open at the end of the source.
    CharGoesToEndOfFile,
    /// A string literal was still open at the end of the source.
    StringGoesToEndOfFile,
    /// A required token kind (or an expression) was not next in the stream.
    Expected { line: usize, col: usize, expected: Expectation, got: TokenKind },
    /// A map key expression did not resolve to an atom.
    BadKey,
    /// An integer literal does not fit the 64-bit signed range.
    InvalidIntLiteral { line: usize, col: usize },
    /// A char literal token with fewer than two characters.
    MalformedCharLiteral { line: usize, col: usize },
    /// A string literal token with fewer than two characters.
    MalformedStringLiteral { line: usize, col: usize },
    /// `get_field` was applied to a node that is not a map.
    CannotGet { kind: AstKind },
    /// A terminal coercion was applied to a node of the wrong kind.
    CannotConvert { kind: AstKind, target: CoerceTarget },
}

/// The digit character of `d`, for `d < 10`.
pub open spec fn digit_char_of(d: nat) -> char {
    if d == 0 {
        '0'
    } else if d == 1 {
        '1'
    } else if d == 2 {
        '2'
    } else if d == 3 {
        '3'
    } else if d == 4 {
        '4'
    } else if d == 5 {
        '5'
    } else if d == 6 {
        '6'
    } else if d == 7 {
        '7'
    } else if d == 8 {
        '8'
    } else {
        '9'
    }
}

/// The decimal rendering of `n`, most significant digit first.
pub open spec fn spec_dec(n: nat) -> Seq<char>
    decreases n,
{
    if n < 10 {
        seq![digit_char_of(n)]
    } else {
        spec_dec(n / 10).push(digit_char_of(n % 10))
    }
}

/// Append one decimal digit to `out`.
fn push_digit(out: &mut String, d: u8)
    requires
        d < 10,
    ensures
        final (out)@ == old(out)@ + seq![digit_char_of(d as nat)],
{
    let s: &'static str = match d {
        0 => "0",
        1 => "1",
        2 => "2",
        3 => "3",
        4 => "4",
        5 => "5",
        6 => "6",
        7 => "7",
        8 => "8",
        _ => "9",
    };
    proof {
        reveal_strlit("0");
        reveal_strlit("1");
        reveal_strlit("2");
        reveal_strlit("3");
        reveal_strlit("4");
        reveal_strlit("5");
        reveal_strlit("6");
        reveal_strlit("7");
        reveal_strlit("8");
        reveal_strlit("9");
        assert(s@ =~= seq![digit_char_of(d as nat)]);
    }
    out.append(s);
}

/// Append the decimal rendering of `n` to `out`.
pub fn push_dec(out: &mut String, n: u64)
    ensures
        final (out)@ == old(out)@ + spec_dec(n as nat),
    decreases n,
{
    if n >= 10 {
        push_dec(out, n / 10);
        push_digit(out, (n % 10) as u8);
        proof {
            assert(out@ =~= old(out)@ + spec_dec(n as nat));
        }
    } else {
        push_digit(out, n as u8);
    }
}

/// The decimal rendering of a signed value.
pub open spec fn spec_dec_signed(v: int) -> Seq<char> {
    if v < 0 {
        seq!['-'] + spec_dec((-v) as nat)
    } else {
        spec_dec(v as nat)
    }
}

/// Append the decimal rendering of `v` to `out`.
pub fn push_dec_signed(out: &mut String, v: i64)
    ensures
        final (out)@ == old(out)@ + spec_dec_signed(v as int),
{
    if v >= 0 {
        push_dec(out, v as u64);
    } else {
        proof {
            reveal_strlit("-");
            assert("-"@ =~= seq!['-']);
        }
        out.append("-");
        let m: u64 = ((-(v + 1)) as u64) + 1;
        proof {
            assert(m as nat == (-(v as int)) as nat);
        }
        push_dec(out, m);
        proof {
            assert(out@ =~= old(out)@ + spec_dec_signed(v as int));
        }
    }
}

pub open spec fn spec_expectation_name(x: Expectation) -> Seq<char> {
    match x {
        Expectation::Kind(k) => spec_kind_name(k),
        Expectation::AnExpression => "an expression"@,
    }
}

pub open spec fn spec_coerce_target_name(t: CoerceTarget) -> Seq<char> {
    match t {
        CoerceTarget::Int => "int"@,
        CoerceTarget::Float => "float"@,
        CoerceTarget::Str => "string"@,
    }
}

/// The rendered message of an error.
pub open spec fn spec_message(e: KartaError) -> Seq<char> {
    match e {
        KartaError::CharGoesToEndOfFile => "error: char goes to end of file"@,
        KartaError::StringGoesToEndOfFile => "error: string goes to end of file"@,
        KartaError::Expected { line, col, expected, got } => "error: "@ + spec_dec(line as nat)
            + ":"@ + spec_dec(col as nat) + ": expected "@ + spec_expectation_name(expected)
            + ", got "@ + spec_kind_name(got),
        KartaError::BadKey => "bad!"@,
        KartaError::InvalidIntLiteral { line, col } => "error: "@ + spec_dec(line as nat) + ":"@
            + spec_dec(col as nat) + ": invalid integer literal"@,
        KartaError::MalformedCharLiteral { line, col } => "error: "@ + spec_dec(line as nat) + ":"@
            + spec_dec(col as nat) + ": malformed char literal"@,
        KartaError::MalformedStringLiteral { line, col } => "error: "@ + spec_dec(line as nat)
            + ":"@ + spec_dec(col as nat) + ": malformed string literal"@,
        KartaError::CannotGet { kind } => "cannot call `get` on "@ + spec_ast_kind_name(kind)
            + " type AST"@,
        KartaError::CannotConvert { kind, target } => "cannot convert "@ + spec_ast_kind_name(kind)
            + " to "@ + spec_coerce_target_name(target),
    }
}

/// Append `error: <line>:<col>` to `out`.
fn push_position(out: &mut String, line: usize, col: usize)
    ensures
        final (out)@ == old(out)@ + "error: "@ + spec_dec(line as nat) + ":"@ + spec_dec(
            col as nat,
        ),
{
    out.append("error: ");
    push_dec(out, line as u64);
    out.append(":");
    push_dec(out, col as u64);
}

impl KartaError {
    /// Render this error as its human-readable message.
    pub fn message(&self) -> (r: String)
        ensures
            r@ == spec_message(*self),
    {
        let mut out = String::new();
        match *self {
            KartaError::CharGoesToEndOfFile => {
                out.append("error: char goes to end of file");
            },
            KartaError::StringGoesToEndOfFile => {
                out.append("error: string goes to end of file");
            },
            KartaError::Expected { line, col, expected, got } => {
                push_position(&mut out, line, col);
                out.append(": expected ");
                match expected {
                    Expectation::Kind(k) => out.append(kind_name(k)),
                    Expectation::AnExpression => out.append("an expression"),
                }
                out.append(", got ");
                out.append(kind_name(got));
            },
            KartaError::BadKey => {
                out.append("bad!");
            },
            KartaError::InvalidIntLiteral { line, col } => {
                push_position(&mut out, line, col);
                out.append(": invalid integer literal");
            },
            KartaError::MalformedCharLiteral { line, col } => {
                push_position(&mut out, line, col);
                out.append(": malformed char literal");
            },
            KartaError::MalformedStringLiteral { line, col } => {
                push_position(&mut out, line, col);
                out.append(": malformed string literal");
            },
            KartaError::CannotGet { kind } => {
                out.append("cannot call `get` on ");
                out.append(ast_kind_name(kind));
                out.append(" type AST");
            },
            KartaError::CannotConvert { kind, target } => {
                out.append("cannot convert ");
                out.append(ast_kind_name(kind));
                out.append(" to ");
                match target {
                    CoerceTarget::Int => out.append("int"),
                    CoerceTarget::Float => out.append("float"),
                    CoerceTarget::Str => out.append("string"),
                }
            },
        }
        out
    }
}

} // verus!
