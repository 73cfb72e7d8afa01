//! Document-level laws: what parsing a numeric literal and reading it back
//! yields, which atom is falsey, and how a misdirected field access freezes
//! a query.

use vstd::prelude::*;

use crate::ast::{ast_kind, entries_map, Ast, AstId};
use crate::atoms::{
    distinct_names,
    lemma_find_intern,
    lemma_intern_bounds,
    spec_find,
    spec_intern,
    spec_intern_id,
    AtomId,
};
use crate::error::KartaError;
use crate::file::{builtin_atoms, initial_heap, KartaFile};
use crate::numbers::{all_digits, int_value, lemma_int_value_nonneg};
use crate::parser::single_int_pair;
use crate::query::{spec_as_float_text, spec_as_int, spec_as_string, spec_get_field, spec_truthy};
use crate::token::{is_atom_char, is_digit_char, is_ws_char, SpecToken, TokenKind};
use crate::tokenizer::{
    init_lex_state,
    lex_consume,
    lex_emit,
    lex_eof_tok,
    lex_tok,
    spec_tokenize,
    spec_tokenize_from,
    LexState,
    ScanMode,
};

verus! {

/// Scanning digits to the end of the text emits one integer token and the
/// end-of-file token.
proof fn lemma_digit_run(s: Seq<char>, st: LexState)
    requires
        st.mode == ScanMode::Integer,
        0 <= st.cursor <= s.len(),
        forall|i: int| st.cursor <= i < s.len() ==> is_digit_char(#[trigger] s[i]),
    ensures
        spec_tokenize_from(s, st) == Ok::<Seq<SpecToken>, KartaError>(
            seq![
                SpecToken {
                    data: s.subrange(st.start, s.len() as int),
                    kind: TokenKind::Integer,
                    line: st.line as nat,
                    col: (st.col + (s.len() - st.cursor) - 1) as nat,
                },
                SpecToken {
                    data: Seq::empty(),
                    kind: TokenKind::EndOfFile,
                    line: st.line as nat,
                    col: (st.col + (s.len() - st.cursor) - 1) as nat,
                },
            ],
        ),
    decreases s.len() - st.cursor,
{
    if st.cursor >= s.len() {
    } else {
        let c = s[st.cursor];
        assert(is_digit_char(c));
        assert(c != '.') by {
            if c == '.' {
                assert(c as u32 == 0x2E);
            }
        }
        lemma_digit_run(s, lex_consume(st, ScanMode::Integer));
    }
}

/// Scanning digits to the end of the text in the float state emits one float
/// token and the end-of-file token.
proof fn lemma_float_run(s: Seq<char>, st: LexState)
    requires
        st.mode == ScanMode::Float,
        0 <= st.cursor <= s.len(),
        forall|i: int| st.cursor <= i < s.len() ==> is_digit_char(#[trigger] s[i]),
    ensures
        spec_tokenize_from(s, st) == Ok::<Seq<SpecToken>, KartaError>(
            seq![
                SpecToken {
                    data: s.subrange(st.start, s.len() as int),
                    kind: TokenKind::Float,
                    line: st.line as nat,
                    col: (st.col + (s.len() - st.cursor) - 1) as nat,
                },
                SpecToken {
                    data: Seq::empty(),
                    kind: TokenKind::EndOfFile,
                    line: st.line as nat,
                    col: (st.col + (s.len() - st.cursor) - 1) as nat,
                },
            ],
        ),
    decreases s.len() - st.cursor,
{
    if st.cursor >= s.len() {
    } else {
        lemma_float_run(s, lex_consume(st, ScanMode::Float));
    }
}

/// Scanning digits, a dot, then digits to the end of the text emits one
/// float token and the end-of-file token.
proof fn lemma_int_dot_run(s: Seq<char>, st: LexState, k: int)
    requires
        st.mode == ScanMode::Integer,
        0 <= st.cursor <= k < s.len(),
        forall|i: int| st.cursor <= i < k ==> is_digit_char(#[trigger] s[i]),
        s[k] == '.',
        forall|i: int| k < i < s.len() ==> is_digit_char(#[trigger] s[i]),
    ensures
        spec_tokenize_from(s, st) == Ok::<Seq<SpecToken>, KartaError>(
            seq![
                SpecToken {
                    data: s.subrange(st.start, s.len() as int),
                    kind: TokenKind::Float,
                    line: st.line as nat,
                    col: (st.col + (s.len() - st.cursor) - 1) as nat,
                },
                SpecToken {
                    data: Seq::empty(),
                    kind: TokenKind::EndOfFile,
                    line: st.line as nat,
                    col: (st.col + (s.len() - st.cursor) - 1) as nat,
                },
            ],
        ),
    decreases k - st.cursor,
{
    let c = s[st.cursor];
    if st.cursor == k {
        assert(c == '.');
        lemma_float_run(s, lex_consume(st, ScanMode::Float));
    } else {
        assert(is_digit_char(c));
        assert(c != '.') by {
            if c == '.' {
                assert(c as u32 == 0x2E);
            }
        }
        lemma_int_dot_run(s, lex_consume(st, ScanMode::Integer), k);
    }
}

/// A digit never dispatches as whitespace.
proof fn lemma_digit_not_ws(c: char)
    requires
        is_digit_char(c),
    ensures
        !is_ws_char(c),
{
}

/// Scanning atom characters to the end of the text emits one atom token and
/// the end-of-file token.
proof fn lemma_atom_run(s: Seq<char>, st: LexState)
    requires
        st.mode == ScanMode::Atom,
        0 <= st.cursor <= s.len(),
        forall|i: int| st.cursor <= i < s.len() ==> is_atom_char(#[trigger] s[i]),
    ensures
        spec_tokenize_from(s, st) == Ok::<Seq<SpecToken>, KartaError>(
            seq![
                SpecToken {
                    data: s.subrange(st.start, s.len() as int),
                    kind: TokenKind::Atom,
                    line: st.line as nat,
                    col: (st.col + (s.len() - st.cursor) - 1) as nat,
                },
                SpecToken {
                    data: Seq::empty(),
                    kind: TokenKind::EndOfFile,
                    line: st.line as nat,
                    col: (st.col + (s.len() - st.cursor) - 1) as nat,
                },
            ],
        ),
    decreases s.len() - st.cursor,
{
    if st.cursor >= s.len() {
    } else {
        lemma_atom_run(s, lex_consume(st, ScanMode::Atom));
    }
}

/// Text matching `'.' [A-Za-z0-9_?-]*` tokenizes to exactly one atom token
/// holding the whole text, followed by the end-of-file token.
pub proof fn lemma_tokenize_atom_literal(s: Seq<char>)
    requires
        s.len() >= 1,
        s[0] == '.',
        forall|i: int| 1 <= i < s.len() ==> is_atom_char(#[trigger] s[i]),
    ensures
        spec_tokenize(s) == Ok::<Seq<SpecToken>, KartaError>(
            seq![
                SpecToken { data: s, kind: TokenKind::Atom, line: 1, col: s.len() },
                SpecToken { data: Seq::empty(), kind: TokenKind::EndOfFile, line: 1, col: s.len() },
            ],
        ),
{
    let st0 = init_lex_state();
    let c = s[0];
    assert(!is_ws_char(c) && !is_digit_char(c)) by {
        assert(c as u32 == 0x2E);
    }
    lemma_atom_run(s, lex_consume(st0, ScanMode::Atom));
    assert(s.subrange(0, s.len() as int) =~= s);
}

/// Scanning string characters up to the closing quote at the text's end
/// emits one string token and the end-of-file token.
proof fn lemma_string_run(s: Seq<char>, st: LexState)
    requires
        st.mode == ScanMode::StringLit,
        0 <= st.cursor < s.len(),
        forall|i: int| st.cursor <= i < s.len() - 1 ==> (#[trigger] s[i]) != '"',
        s.last() == '"',
    ensures
        spec_tokenize_from(s, st) == Ok::<Seq<SpecToken>, KartaError>(
            seq![
                SpecToken {
                    data: s.subrange(st.start, s.len() as int),
                    kind: TokenKind::StringLit,
                    line: st.line as nat,
                    col: (st.col + (s.len() - st.cursor) - 1) as nat,
                },
                SpecToken {
                    data: Seq::empty(),
                    kind: TokenKind::EndOfFile,
                    line: st.line as nat,
                    col: (st.col + (s.len() - st.cursor) - 1) as nat,
                },
            ],
        ),
    decreases s.len() - st.cursor,
{
    let c = s[st.cursor];
    if st.cursor == s.len() - 1 {
        assert(c == '"');
        let st2 = lex_consume(st, ScanMode::Start);
        assert(spec_tokenize_from(s, lex_emit(st2)) == Ok::<Seq<SpecToken>, KartaError>(
            seq![lex_eof_tok(lex_emit(st2))],
        ));
        assert(seq![lex_tok(s, st2, TokenKind::StringLit)] + seq![lex_eof_tok(lex_emit(st2))]
            =~= seq![lex_tok(s, st2, TokenKind::StringLit), lex_eof_tok(lex_emit(st2))]);
    } else {
        assert(c != '"');
        lemma_string_run(s, lex_consume(st, ScanMode::StringLit));
    }
}

/// Text matching `'"' <quote-free body> '"'` tokenizes to exactly one string
/// token holding the whole text, followed by the end-of-file token.
pub proof fn lemma_tokenize_string_literal(s: Seq<char>)
    requires
        s.len() >= 2,
        s[0] == '"',
        s.last() == '"',
        forall|i: int| 1 <= i < s.len() - 1 ==> (#[trigger] s[i]) != '"',
    ensures
        spec_tokenize(s) == Ok::<Seq<SpecToken>, KartaError>(
            seq![
                SpecToken { data: s, kind: TokenKind::StringLit, line: 1, col: s.len() },
                SpecToken { data: Seq::empty(), kind: TokenKind::EndOfFile, line: 1, col: s.len() },
            ],
        ),
{
    let st0 = init_lex_state();
    let c = s[0];
    assert(!is_ws_char(c) && !is_digit_char(c) && c != '.' && c != '\'') by {
        assert(c as u32 == 0x22);
    }
    lemma_string_run(s, lex_consume(st0, ScanMode::StringLit));
    assert(s.subrange(0, s.len() as int) =~= s);
}

/// Text matching `[0-9]+` tokenizes to exactly one integer token holding the
/// whole text, followed by the end-of-file token.
pub proof fn lemma_tokenize_int_literal(s: Seq<char>)
    requires
        s.len() >= 1,
        all_digits(s),
    ensures
        spec_tokenize(s) == Ok::<Seq<SpecToken>, KartaError>(
            seq![
                SpecToken {
                    data: s,
                    kind: TokenKind::Integer,
                    line: 1,
                    col: s.len(),
                },
                SpecToken { data: Seq::empty(), kind: TokenKind::EndOfFile, line: 1, col: s.len() },
            ],
        ),
{
    let st0 = init_lex_state();
    let c = s[0];
    assert(is_digit_char(c));
    lemma_digit_not_ws(c);
    lemma_digit_run(s, lex_consume(st0, ScanMode::Integer));
    assert(s.subrange(0, s.len() as int) =~= s);
}

/// Text matching `[0-9]+ '.' [0-9]*` tokenizes to exactly one float token
/// holding the whole text, followed by the end-of-file token.
pub proof fn lemma_tokenize_float_literal(s: Seq<char>, k: int)
    requires
        1 <= k < s.len(),
        forall|i: int| 0 <= i < k ==> is_digit_char(#[trigger] s[i]),
        s[k] == '.',
        forall|i: int| k < i < s.len() ==> is_digit_char(#[trigger] s[i]),
    ensures
        spec_tokenize(s) == Ok::<Seq<SpecToken>, KartaError>(
            seq![
                SpecToken { data: s, kind: TokenKind::Float, line: 1, col: s.len() },
                SpecToken { data: Seq::empty(), kind: TokenKind::EndOfFile, line: 1, col: s.len() },
            ],
        ),
{
    let st0 = init_lex_state();
    let c = s[0];
    assert(is_digit_char(c));
    lemma_digit_not_ws(c);
    lemma_int_dot_run(s, lex_consume(st0, ScanMode::Integer), k);
    assert(s.subrange(0, s.len() as int) =~= s);
}

/// Scanning char-literal characters up to the closing quote at the text's
/// end emits one char token and the end-of-file token.
proof fn lemma_char_run(s: Seq<char>, st: LexState)
    requires
        st.mode == ScanMode::CharLit,
        0 <= st.cursor < s.len(),
        forall|i: int| st.cursor <= i < s.len() - 1 ==> (#[trigger] s[i]) != '\'',
        s.last() == '\'',
    ensures
        spec_tokenize_from(s, st) == Ok::<Seq<SpecToken>, KartaError>(
            seq![
                SpecToken {
                    data: s.subrange(st.start, s.len() as int),
                    kind: TokenKind::CharLit,
                    line: st.line as nat,
                    col: (st.col + (s.len() - st.cursor) - 1) as nat,
                },
                SpecToken {
                    data: Seq::empty(),
                    kind: TokenKind::EndOfFile,
                    line: st.line as nat,
                    col: (st.col + (s.len() - st.cursor) - 1) as nat,
                },
            ],
        ),
    decreases s.len() - st.cursor,
{
    let c = s[st.cursor];
    if st.cursor == s.len() - 1 {
        assert(c == '\'');
        let st2 = lex_consume(st, ScanMode::Start);
        assert(spec_tokenize_from(s, lex_emit(st2)) == Ok::<Seq<SpecToken>, KartaError>(
            seq![lex_eof_tok(lex_emit(st2))],
        ));
        assert(seq![lex_tok(s, st2, TokenKind::CharLit)] + seq![lex_eof_tok(lex_emit(st2))]
            =~= seq![lex_tok(s, st2, TokenKind::CharLit), lex_eof_tok(lex_emit(st2))]);
    } else {
        assert(c != '\'');
        lemma_char_run(s, lex_consume(st, ScanMode::CharLit));
    }
}

/// Text matching `"'" <quote-free body> "'"` tokenizes to exactly one char
/// token holding the whole text, followed by the end-of-file token.
pub proof fn lemma_tokenize_char_literal(s: Seq<char>)
    requires
        s.len() >= 2,
        s[0] == '\'',
        s.last() == '\'',
        forall|i: int| 1 <= i < s.len() - 1 ==> (#[trigger] s[i]) != '\'',
    ensures
        spec_tokenize(s) == Ok::<Seq<SpecToken>, KartaError>(
            seq![
                SpecToken { data: s, kind: TokenKind::CharLit, line: 1, col: s.len() },
                SpecToken { data: Seq::empty(), kind: TokenKind::EndOfFile, line: 1, col: s.len() },
            ],
        ),
{
    let st0 = init_lex_state();
    let c = s[0];
    assert(!is_ws_char(c) && !is_digit_char(c) && c != '.') by {
        assert(c as u32 == 0x27);
    }
    lemma_char_run(s, lex_consume(st0, ScanMode::CharLit));
    assert(s.subrange(0, s.len() as int) =~= s);
}

/// Parsing a document whose text is one char literal and coercing its root
/// with `as_int` yields the code of the character between the quotes,
/// truncated to a byte.
pub proof fn lemma_char_literal_round_trip(text: Seq<char>, f: KartaFile)
    requires
        text.len() >= 2,
        text[0] == '\'',
        text.last() == '\'',
        forall|i: int| 1 <= i < text.len() - 1 ==> (#[trigger] text[i]) != '\'',
        f.wf(),
        f.parsed_from(text),
    ensures
        f.root.0 == 1,
        spec_as_int(f, Ok(f.root)) == Ok::<i64, KartaError>(
            (((text[1] as u32) as u8) as i64),
        ),
{
    lemma_tokenize_char_literal(text);
    let ts = spec_tokenize(text)->Ok_0;
    assert(ts[0].kind == TokenKind::CharLit && ts[0].data == text);
    assert(f.ast_heap@ == initial_heap().push(Ast::Char((text[1] as u32) as u8)));
    assert(f.ast_heap@[1] == Ast::Char((text[1] as u32) as u8));
}

/// Parsing a document whose text is one integer literal and coercing its
/// root with `as_int` yields exactly the literal's value: a round trip.
pub proof fn lemma_int_literal_round_trip(text: Seq<char>, f: KartaFile)
    requires
        text.len() >= 1,
        all_digits(text),
        int_value(text) <= i64::MAX,
        f.wf(),
        f.parsed_from(text),
    ensures
        f.root.0 == 1,
        f.ast_heap@ == initial_heap().push(Ast::Int(int_value(text) as i64)),
        spec_as_int(f, Ok(f.root)) == Ok::<i64, KartaError>(int_value(text) as i64),
{
    lemma_tokenize_int_literal(text);
    lemma_int_value_nonneg(text);
    let ts = spec_tokenize(text)->Ok_0;
    assert(ts[0].kind == TokenKind::Integer && ts[0].data == text);
    assert(f.ast_heap@ == initial_heap().push(Ast::Int(int_value(text) as i64)));
    assert(f.ast_heap@[1] == Ast::Int(int_value(text) as i64));
}

/// Parsing a document whose text is one float literal and reading its root
/// back with `as_float_text` yields exactly the literal's text: the value a
/// host float obtains from it is the literal's own.
pub proof fn lemma_float_literal_round_trip(text: Seq<char>, k: int, f: KartaFile)
    requires
        1 <= k < text.len(),
        forall|i: int| 0 <= i < k ==> is_digit_char(#[trigger] text[i]),
        text[k] == '.',
        forall|i: int| k < i < text.len() ==> is_digit_char(#[trigger] text[i]),
        f.wf(),
        f.parsed_from(text),
    ensures
        f.root.0 == 1,
        spec_as_float_text(f, Ok(f.root)) == Ok::<Seq<char>, KartaError>(text),
{
    lemma_tokenize_float_literal(text, k);
    let ts = spec_tokenize(text)->Ok_0;
    assert(ts[0].kind == TokenKind::Float && ts[0].data == text);
    assert(f.ast_heap@.len() == 2);
    assert(f.ast_heap@[1] == f.ast_heap@.last());
    assert(f.ast_heap@.last() matches Ast::Float(x) && x@ == text);
}

/// The nil atom is the one falsey value: a query resting on an atom node is
/// truthy exactly when the atom's handle is not zero, and handle zero names
/// `.nil` (no other atom does).
pub proof fn lemma_nil_atom_falsey(f: KartaFile, id: AstId)
    requires
        f.wf(),
        id.0 < f.ast_heap@.len(),
        f.ast_heap@[id.0 as int] is Atom,
    ensures
        ({
            let a = f.ast_heap@[id.0 as int]->Atom_0;
            &&& spec_truthy(f, Ok(id)) == Ok::<bool, KartaError>(a.0 != 0)
            &&& ((a.0 == 0) <==> f.atoms@[a.0 as int] == ".nil"@)
        }),
{
    let a = f.ast_heap@[id.0 as int]->Atom_0;
    assert(crate::ast::node_wf(
        f.ast_heap@[id.0 as int],
        f.ast_heap@.len() as int,
        f.atoms@.len() as int,
    ));
    assert(a.0 < f.atoms@.len());
    if f.atoms@[a.0 as int] == ".nil"@ && a.0 != 0 {
        assert(distinct_names(f.atoms@));
        assert(f.atoms@[0] == f.atoms@[a.0 as int]);
        assert(false);
    }
}

/// Parsing a document whose text is one atom literal interns that text: the
/// root is an atom node, falsey exactly when the text is `.nil`.
pub proof fn lemma_atom_literal_round_trip(text: Seq<char>, f: KartaFile)
    requires
        text.len() >= 1,
        text[0] == '.',
        forall|i: int| 1 <= i < text.len() ==> is_atom_char(#[trigger] text[i]),
        f.wf(),
        f.parsed_from(text),
    ensures
        f.root.0 == 1,
        spec_truthy(f, Ok(f.root)) == Ok::<bool, KartaError>(text != ".nil"@),
{
    lemma_tokenize_atom_literal(text);
    let ts = spec_tokenize(text)->Ok_0;
    assert(ts[0].kind == TokenKind::Atom && ts[0].data == text);
    let id = spec_intern_id(builtin_atoms(), text);
    lemma_intern_bounds(builtin_atoms(), text);
    assert(builtin_atoms()[0] == ".nil"@);
    if id == 0 {
        assert(spec_intern(builtin_atoms(), text)[0] == text);
        assert(spec_intern(builtin_atoms(), text)[0] == ".nil"@);
    } else if text == ".nil"@ {
        assert(spec_find(builtin_atoms(), text) == Some(0int));
    }
    assert(f.ast_heap@[1] == Ast::Atom(AtomId(id as usize)));
}

/// Parsing a document whose text is one string literal and reading its root
/// back with `as_string` yields the text between the quotes, verbatim.
pub proof fn lemma_string_literal_round_trip(text: Seq<char>, f: KartaFile)
    requires
        text.len() >= 2,
        text[0] == '"',
        text.last() == '"',
        forall|i: int| 1 <= i < text.len() - 1 ==> (#[trigger] text[i]) != '"',
        f.wf(),
        f.parsed_from(text),
    ensures
        f.root.0 == 1,
        spec_as_string(f, Ok(f.root)) == Ok::<Seq<char>, KartaError>(
            text.subrange(1, text.len() - 1),
        ),
{
    lemma_tokenize_string_literal(text);
    let ts = spec_tokenize(text)->Ok_0;
    assert(ts[0].kind == TokenKind::StringLit && ts[0].data == text);
    assert(f.ast_heap@.len() == 2);
    assert(f.ast_heap@[1] == f.ast_heap@.last());
    assert(f.ast_heap@.last() matches Ast::Str(x) && x@ == text.subrange(1, text.len() - 1));
}

/// A document `{ .key = n }` — one field holding an integer literal —
/// yields exactly that integer when the field is followed with `get_field`
/// and coerced with `as_int`.
pub proof fn lemma_single_int_field_round_trip(text: Seq<char>, f: KartaFile)
    requires
        f.wf(),
        f.parsed_from(text),
        spec_tokenize(text) matches Ok(ts) && ts[0].kind == TokenKind::LeftBrace
            && single_int_pair(ts, 1),
    ensures
        ({
            let ts = spec_tokenize(text)->Ok_0;
            spec_as_int(f, spec_get_field(f, Ok(f.root), ts[1].data)) == Ok::<i64, KartaError>(
                int_value(ts[3].data) as i64,
            )
        }),
{
    let ts = spec_tokenize(text)->Ok_0;
    let kdata = ts[1].data;
    let katom = AtomId(spec_intern_id(builtin_atoms(), kdata) as usize);
    let vid = AstId((initial_heap().len() + 1) as usize);
    assert(f.root == AstId(3));
    lemma_find_intern(builtin_atoms(), kdata);
    lemma_intern_bounds(builtin_atoms(), kdata);
    assert(f.atoms@ == spec_intern(builtin_atoms(), kdata));
    assert(spec_find(f.atoms@, kdata) == Some(spec_intern_id(builtin_atoms(), kdata)));
    assert(f.ast_heap@[3] matches Ast::MapNode(es) && entries_map(es@) == Map::<
        AtomId,
        AstId,
    >::empty().insert(katom, vid));
    assert(f.ast_heap@[vid.0 as int] == Ast::Int(int_value(ts[3].data) as i64));
}

/// An empty list literal parses to the nil atom: the document's root is
/// handle zero, and a query at the root is falsey.
pub proof fn lemma_empty_list_is_nil(text: Seq<char>, f: KartaFile)
    requires
        f.wf(),
        f.parsed_from(text),
        spec_tokenize(text) matches Ok(ts) && ts[0].kind == TokenKind::LeftSquare && ts.len() > 1
            && ts[1].kind == TokenKind::RightSquare,
    ensures
        f.root == AstId(0),
        spec_truthy(f, Ok(f.root)) == Ok::<bool, KartaError>(false),
{
}

/// Every non-atom node is truthy.
pub proof fn lemma_non_atom_truthy(f: KartaFile, id: AstId)
    requires
        f.wf(),
        id.0 < f.ast_heap@.len(),
        !(f.ast_heap@[id.0 as int] is Atom),
    ensures
        spec_truthy(f, Ok(id)) == Ok::<bool, KartaError>(true),
{
}

/// `get_field` applied while the cursor rests on a node that is not a map
/// (and the name is known to the document) freezes the query on the "cannot
/// call `get`" error, and the next coercion returns that same error.
pub proof fn lemma_get_field_non_map(f: KartaFile, id: AstId, name: Seq<char>)
    requires
        f.wf(),
        id.0 < f.ast_heap@.len(),
        !(f.ast_heap@[id.0 as int] is MapNode),
        crate::atoms::spec_find(f.atoms@, name) is Some,
    ensures
        ({
            let e = KartaError::CannotGet { kind: ast_kind(f.ast_heap@[id.0 as int]) };
            &&& spec_get_field(f, Ok(id), name) == Err::<AstId, KartaError>(e)
            &&& spec_as_int(f, spec_get_field(f, Ok(id), name)) == Err::<i64, KartaError>(e)
        }),
{
}

} // verus!
