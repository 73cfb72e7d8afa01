//! The recursive-descent parser: consumes the token stream and builds AST
//! heap entries, producing the handle of the root expression. Its whole
//! behaviour is given by the spec-level parser `sp_expr`, and the executable
//! parser is proved to return exactly its result, error values included.

use vstd::prelude::*;
use vstd::pervasive::arbitrary;
use vstd::pervasive::unreached;
use vstd::string::*;

use crate::ast::{
    entries_map,
    heap_abs,
    heap_wf,
    lemma_heap_push_wf,
    lemma_heap_wf_grow_atoms,
    node_wf,
    seq_extends,
    lemma_heap_abs_push,
    node_abs,
    unique_keys,
    entries_bounded,
    Ast,
    AstHeap,
    AstId,
    SpecAst,
};
use crate::atoms::{
    lemma_intern_bounds,
    lemma_intern_handles,
    spec_intern,
    spec_intern_id,
    AtomId,
    AtomTable,
};
use crate::error::{Expectation, KartaError};
use crate::numbers::{all_digits, int_value, parse_i64_digits};
use crate::token::{toks_view, SpecToken, Token, TokenKind};
use crate::tokenizer::{spec_tokenize, stoks_wf, lemma_tokenize_wf, init_lex_state, Tokenizer};

verus! {

/// A well-formed token stream: nonempty, ending in exactly one end-of-file
/// token.
pub open spec fn tokens_wf(ts: Seq<Token>) -> bool {
    &&& ts.len() >= 1
    &&& ts.last().kind == TokenKind::EndOfFile
    &&& forall|i: int| 0 <= i < ts.len() - 1 ==> (#[trigger] ts[i]).kind != TokenKind::EndOfFile
}

/// What the parser returns and appends for each kind of leading token.
///
/// The five literal kinds pin the new heap node exactly; a brace or bracket
/// yields a map node (or the nil handle for an empty list); any other kind
/// is exactly the "expected an expression" error.
pub open spec fn expression_cases(
    t: SpecToken,
    heap0: Seq<Ast>,
    atoms0: Seq<Seq<char>>,
    heap1: Seq<Ast>,
    atoms1: Seq<Seq<char>>,
    r: Result<AstId, KartaError>,
) -> bool {
    &&& (t.kind == TokenKind::Integer ==> (if t.data.len() > 0 && all_digits(t.data) && int_value(
        t.data,
    ) <= i64::MAX {
        &&& r matches Ok(id) && id.0 == heap0.len()
        &&& heap1 == heap0.push(Ast::Int(int_value(t.data) as i64))
        &&& atoms1 == atoms0
    } else {
        &&& r == Err::<AstId, KartaError>(
            KartaError::InvalidIntLiteral { line: t.line as usize, col: t.col as usize },
        )
        &&& heap1 == heap0
        &&& atoms1 == atoms0
    }))
    &&& (t.kind == TokenKind::Float ==> {
        &&& r matches Ok(id) && id.0 == heap0.len()
        &&& heap1.len() == heap0.len() + 1
        &&& heap1.last() matches Ast::Float(x) && x@ == t.data
        &&& atoms1 == atoms0
    })
    &&& (t.kind == TokenKind::CharLit ==> (if t.data.len() >= 2 {
        &&& r matches Ok(id) && id.0 == heap0.len()
        &&& heap1 == heap0.push(Ast::Char((t.data[1] as u32) as u8))
        &&& atoms1 == atoms0
    } else {
        &&& r == Err::<AstId, KartaError>(
            KartaError::MalformedCharLiteral { line: t.line as usize, col: t.col as usize },
        )
        &&& heap1 == heap0
        &&& atoms1 == atoms0
    }))
    &&& (t.kind == TokenKind::StringLit ==> (if t.data.len() >= 2 {
        &&& r matches Ok(id) && id.0 == heap0.len()
        &&& heap1.len() == heap0.len() + 1
        &&& heap1.last() matches Ast::Str(x) && x@ == t.data.subrange(1, t.data.len() - 1)
        &&& atoms1 == atoms0
    } else {
        &&& r == Err::<AstId, KartaError>(
            KartaError::MalformedStringLiteral { line: t.line as usize, col: t.col as usize },
        )
        &&& heap1 == heap0
        &&& atoms1 == atoms0
    }))
    &&& (t.kind == TokenKind::Atom ==> {
        &&& r matches Ok(id) && id.0 == heap0.len()
        &&& atoms1 == spec_intern(atoms0, t.data)
        &&& heap1 == heap0.push(
            Ast::Atom(AtomId(spec_intern_id(atoms0, t.data) as usize)),
        )
    })
    &&& (t.kind == TokenKind::LeftBrace ==> (r matches Ok(id) ==> id.0 < heap1.len()
        && heap1[id.0 as int] is MapNode))
    &&& (t.kind == TokenKind::LeftSquare ==> (r matches Ok(id) ==> id.0 < heap1.len() && (id.0 == 0
        || heap1[id.0 as int] is MapNode)))
    &&& ((t.kind == TokenKind::RightBrace || t.kind == TokenKind::RightSquare || t.kind
        == TokenKind::Comma || t.kind == TokenKind::Assign || t.kind == TokenKind::Identifier
        || t.kind == TokenKind::EndOfFile) ==> {
        &&& r == Err::<AstId, KartaError>(
            KartaError::Expected {
                line: t.line as usize,
                col: t.col as usize,
                expected: Expectation::AnExpression,
                got: t.kind,
            },
        )
        &&& heap1 == heap0
        &&& atoms1 == atoms0
    })
}

/// The spec-level parser state: the index of the next token, the abstracted
/// heap, and the atom table.
pub ghost struct PState {
    pub cur: int,
    pub heap: Seq<SpecAst>,
    pub atoms: Seq<Seq<char>>,
}

/// The "expected ..., got ..." error at a token.
pub open spec fn expected_err(t: SpecToken, expected: Expectation) -> KartaError {
    KartaError::Expected { line: t.line as usize, col: t.col as usize, expected, got: t.kind }
}

/// The spec-level parser. `sp_expr` parses one expression from `st`,
/// yielding the root handle and the state after it, or the exact error.
///
/// The executable parser never consumes the end-of-file token and always
/// advances on success; configurations that violate this (a cursor running
/// off the stream, or a nested parse that did not advance) are unreachable
/// and left unspecified with `arbitrary()`.
pub open spec fn sp_expr(ts: Seq<SpecToken>, st: PState) -> Result<(AstId, PState), KartaError>
    decreases ts.len() - st.cur, 0int,
    when 0 <= st.cur <= ts.len()
{
    if st.cur >= ts.len() {
        arbitrary()
    } else {
        let t = ts[st.cur];
        if t.kind == TokenKind::Integer {
            if t.data.len() > 0 && all_digits(t.data) && int_value(t.data) <= i64::MAX {
                Ok(
                    (
                        AstId(st.heap.len() as usize),
                        PState {
                            cur: st.cur + 1,
                            heap: st.heap.push(SpecAst::Int(int_value(t.data) as i64)),
                            atoms: st.atoms,
                        },
                    ),
                )
            } else {
                Err(KartaError::InvalidIntLiteral { line: t.line as usize, col: t.col as usize })
            }
        } else if t.kind == TokenKind::Float {
            Ok(
                (
                    AstId(st.heap.len() as usize),
                    PState {
                        cur: st.cur + 1,
                        heap: st.heap.push(SpecAst::Float(t.data)),
                        atoms: st.atoms,
                    },
                ),
            )
        } else if t.kind == TokenKind::CharLit {
            if t.data.len() >= 2 {
                Ok(
                    (
                        AstId(st.heap.len() as usize),
                        PState {
                            cur: st.cur + 1,
                            heap: st.heap.push(SpecAst::Char((t.data[1] as u32) as u8)),
                            atoms: st.atoms,
                        },
                    ),
                )
            } else {
                Err(KartaError::MalformedCharLiteral { line: t.line as usize, col: t.col as usize })
            }
        } else if t.kind == TokenKind::StringLit {
            if t.data.len() >= 2 {
                Ok(
                    (
                        AstId(st.heap.len() as usize),
                        PState {
                            cur: st.cur + 1,
                            heap: st.heap.push(
                                SpecAst::Str(t.data.subrange(1, t.data.len() - 1)),
                            ),
                            atoms: st.atoms,
                        },
                    ),
                )
            } else {
                Err(
                    KartaError::MalformedStringLiteral {
                        line: t.line as usize,
                        col: t.col as usize,
                    },
                )
            }
        } else if t.kind == TokenKind::Atom {
            Ok(
                (
                    AstId(st.heap.len() as usize),
                    PState {
                        cur: st.cur + 1,
                        heap: st.heap.push(
                            SpecAst::Atom(AtomId(spec_intern_id(st.atoms, t.data) as usize)),
                        ),
                        atoms: spec_intern(st.atoms, t.data),
                    },
                ),
            )
        } else if t.kind == TokenKind::LeftBrace {
            sp_pairs(ts, PState { cur: st.cur + 1, ..st }, Map::empty())
        } else if t.kind == TokenKind::LeftSquare {
            sp_list(ts, PState { cur: st.cur + 1, ..st })
        } else {
            Err(expected_err(t, Expectation::AnExpression))
        }
    }
}

/// Close a map body: a right brace inserts the collected fields as a fresh
/// map node; anything else is the exact "expected RightBrace" error.
pub open spec fn sp_close_map(ts: Seq<SpecToken>, st: PState, children: Map<AtomId, AstId>) -> Result<
    (AstId, PState),
    KartaError,
> {
    if st.cur < ts.len() && ts[st.cur].kind == TokenKind::RightBrace {
        Ok(
            (
                AstId(st.heap.len() as usize),
                PState {
                    cur: st.cur + 1,
                    heap: st.heap.push(SpecAst::MapNode(children)),
                    atoms: st.atoms,
                },
            ),
        )
    } else if st.cur < ts.len() {
        Err(expected_err(ts[st.cur], Expectation::Kind(TokenKind::RightBrace)))
    } else {
        arbitrary()
    }
}

/// Parse the pairs of a map body: a key expression that must be an atom
/// node, `=`, a value expression, collected with later writes overriding
/// earlier ones, repeating while a comma follows.
pub open spec fn sp_pairs(
    ts: Seq<SpecToken>,
    st: PState,
    children: Map<AtomId, AstId>,
) -> Result<(AstId, PState), KartaError>
    decreases ts.len() - st.cur, 1int,
    when 0 <= st.cur <= ts.len()
{
    if st.cur >= ts.len() {
        arbitrary()
    } else {
        match sp_expr(ts, st) {
            Err(e) => Err(e),
            Ok(pr) => {
                let key_id = pr.0;
                let st1 = pr.1;
                if !(st.cur < st1.cur < ts.len()) {
                    arbitrary()
                } else if !(0 <= key_id.0 < st1.heap.len()) {
                    arbitrary()
                } else if !(st1.heap[key_id.0 as int] is Atom) {
                    Err(KartaError::BadKey)
                } else {
                    let k = st1.heap[key_id.0 as int]->Atom_0;
                    if ts[st1.cur].kind != TokenKind::Assign {
                        Err(expected_err(ts[st1.cur], Expectation::Kind(TokenKind::Assign)))
                    } else {
                        let st2 = PState { cur: st1.cur + 1, ..st1 };
                        match sp_expr(ts, st2) {
                            Err(e) => Err(e),
                            Ok(pr2) => {
                                let val_id = pr2.0;
                                let st3 = pr2.1;
                                if !(st2.cur < st3.cur < ts.len()) {
                                    arbitrary()
                                } else {
                                    let children2 = children.insert(k, val_id);
                                    if ts[st3.cur].kind == TokenKind::Comma {
                                        sp_pairs(
                                            ts,
                                            PState { cur: st3.cur + 1, ..st3 },
                                            children2,
                                        )
                                    } else {
                                        sp_close_map(ts, st3, children2)
                                    }
                                }
                            },
                        }
                    }
                }
            },
        }
    }
}

/// Close a list: a right bracket returns the first cell; anything else is
/// the exact "expected RightSquare" error.
pub open spec fn sp_close_list(ts: Seq<SpecToken>, st: PState, retval: AstId) -> Result<
    (AstId, PState),
    KartaError,
> {
    if st.cur < ts.len() && ts[st.cur].kind == TokenKind::RightSquare {
        Ok((retval, PState { cur: st.cur + 1, ..st }))
    } else if st.cur < ts.len() {
        Err(expected_err(ts[st.cur], Expectation::Kind(TokenKind::RightSquare)))
    } else {
        arbitrary()
    }
}

/// Parse the remaining elements of a list: while a comma follows, parse an
/// element, append a fresh `{head, tail: nil}` cell, and thread the previous
/// cell's tail to it.
pub open spec fn sp_items(
    ts: Seq<SpecToken>,
    st: PState,
    head_atom: AtomId,
    tail_atom: AtomId,
    retval: AstId,
    curr: AstId,
) -> Result<(AstId, PState), KartaError>
    decreases ts.len() - st.cur, 1int,
    when 0 <= st.cur <= ts.len()
{
    if st.cur >= ts.len() {
        arbitrary()
    } else if ts[st.cur].kind != TokenKind::Comma {
        sp_close_list(ts, st, retval)
    } else {
        let st1 = PState { cur: st.cur + 1, ..st };
        match sp_expr(ts, st1) {
            Err(e) => Err(e),
            Ok(pr) => {
                let h2 = pr.0;
                let st2 = pr.1;
                if !(st1.cur < st2.cur < ts.len()) {
                    arbitrary()
                } else if !(0 <= curr.0 < st2.heap.len() && st2.heap[curr.0 as int] is MapNode) {
                    arbitrary()
                } else {
                    let new_id = AstId(st2.heap.len() as usize);
                    let cell = SpecAst::MapNode(
                        Map::<AtomId, AstId>::empty().insert(head_atom, h2).insert(
                            tail_atom,
                            AstId(0),
                        ),
                    );
                    let m = st2.heap[curr.0 as int]->MapNode_0;
                    let heap3 = st2.heap.push(cell).update(
                        curr.0 as int,
                        SpecAst::MapNode(m.insert(tail_atom, new_id)),
                    );
                    sp_items(
                        ts,
                        PState { cur: st2.cur, heap: heap3, atoms: st2.atoms },
                        head_atom,
                        tail_atom,
                        retval,
                        new_id,
                    )
                }
            },
        }
    }
}

/// Parse a list body after its opening bracket: the two list atoms are
/// interned first; an immediate right bracket yields the nil handle, else
/// the first cell is built and the rest threaded on by `sp_items`.
pub open spec fn sp_list(ts: Seq<SpecToken>, st: PState) -> Result<(AstId, PState), KartaError>
    decreases ts.len() - st.cur, 1int,
    when 0 <= st.cur <= ts.len()
{
    if st.cur >= ts.len() {
        arbitrary()
    } else {
        let head_atom = AtomId(spec_intern_id(st.atoms, ".head"@) as usize);
        let atoms1 = spec_intern(st.atoms, ".head"@);
        let tail_atom = AtomId(spec_intern_id(atoms1, ".tail"@) as usize);
        let atoms2 = spec_intern(atoms1, ".tail"@);
        let st0 = PState { atoms: atoms2, ..st };
        if ts[st.cur].kind == TokenKind::RightSquare {
            Ok((AstId(0), PState { cur: st.cur + 1, ..st0 }))
        } else {
            match sp_expr(ts, st0) {
                Err(e) => Err(e),
                Ok(pr) => {
                    let head = pr.0;
                    let st1 = pr.1;
                    if !(st.cur < st1.cur < ts.len()) {
                        arbitrary()
                    } else {
                        let retval = AstId(st1.heap.len() as usize);
                        let cell = SpecAst::MapNode(
                            Map::<AtomId, AstId>::empty().insert(head_atom, head).insert(
                                tail_atom,
                                AstId(0),
                            ),
                        );
                        sp_items(
                            ts,
                            PState { cur: st1.cur, heap: st1.heap.push(cell), atoms: st1.atoms },
                            head_atom,
                            tail_atom,
                            retval,
                            retval,
                        )
                    }
                },
            }
        }
    }
}

/// A map body of exactly one pair whose value is an integer literal: the
/// tokens `atom`, `=`, `integer`, `}` in a row, starting at `c`.
pub open spec fn single_int_pair(sts: Seq<SpecToken>, c: int) -> bool {
    &&& sts[c].kind == TokenKind::Atom
    &&& sts[c + 1].kind == TokenKind::Assign
    &&& sts[c + 2].kind == TokenKind::Integer
    &&& sts[c + 2].data.len() > 0
    &&& all_digits(sts[c + 2].data)
    &&& int_value(sts[c + 2].data) <= i64::MAX
    &&& sts[c + 3].kind == TokenKind::RightBrace
}

/// What parsing such a map body yields: the key atom interned and inserted
/// as a node, the integer value node, and a map node holding exactly the one
/// field.
pub open spec fn single_int_pair_result(
    sts: Seq<SpecToken>,
    c: int,
    heap0: Seq<Ast>,
    atoms0: Seq<Seq<char>>,
    heap1: Seq<Ast>,
    atoms1: Seq<Seq<char>>,
    r: Result<AstId, KartaError>,
) -> bool {
    let kdata = sts[c].data;
    let vdata = sts[c + 2].data;
    let katom = AtomId(spec_intern_id(atoms0, kdata) as usize);
    let vid = AstId((heap0.len() + 1) as usize);
    &&& r == Ok::<AstId, KartaError>(AstId((heap0.len() + 2) as usize))
    &&& atoms1 == spec_intern(atoms0, kdata)
    &&& heap1.len() == heap0.len() + 3
    &&& heap1[heap0.len() as int] == Ast::Atom(katom)
    &&& heap1[heap0.len() as int + 1] == Ast::Int(int_value(vdata) as i64)
    &&& heap1[heap0.len() as int + 2] matches Ast::MapNode(es) && entries_map(es@) == Map::<
        AtomId,
        AstId,
    >::empty().insert(katom, vid)
}

/// Parses a stream of tokens into AST nodes.
pub struct Parser {
    /// Index of the next unconsumed token.
    pub cursor: usize,
    /// The token stream, ending in an end-of-file token.
    pub tokens: Vec<Token>,
}

impl Parser {
    /// The stream is well formed and the cursor rests on a token (the
    /// end-of-file token is never consumed).
    pub open spec fn wf(&self) -> bool {
        tokens_wf(self.tokens@) && self.cursor < self.tokens@.len()
    }

    /// Create a parser with an empty stream.
    pub fn new() -> (r: Self)
        ensures
            r.cursor == 0,
            r.tokens@.len() == 0,
    {
        Parser { cursor: 0, tokens: Vec::new() }
    }

    /// The next unconsumed token, without removing it.
    pub fn peek(&self) -> (t: &Token)
        requires
            self.cursor < self.tokens@.len(),
        ensures
            *t == self.tokens@[self.cursor as int],
    {
        &self.tokens[self.cursor]
    }

    /// Remove and return (a copy of) the next token.
    pub fn pop(&mut self) -> (t: Token)
        requires
            old(self).cursor < old(self).tokens@.len(),
        ensures
            final (self).cursor == old(self).cursor + 1,
            final (self).tokens@ == old(self).tokens@,
            t@ == old(self).tokens@[old(self).cursor as int]@,
    {
        let n = self.tokens.len();
        proof {
            assert(self.cursor < n);
        }
        let t = self.tokens[self.cursor].duplicate();
        self.cursor = self.cursor + 1;
        t
    }

    /// Whether the cursor is past the end of the stream.
    pub fn eos(&self) -> (b: bool)
        ensures
            b == (self.cursor >= self.tokens@.len()),
    {
        self.cursor >= self.tokens.len()
    }

    /// The error for an unmet expectation at the current token.
    pub fn parse_error(&self, expected: Expectation) -> (e: KartaError)
        requires
            self.cursor < self.tokens@.len(),
        ensures
            e == (KartaError::Expected {
                line: self.tokens@[self.cursor as int].line,
                col: self.tokens@[self.cursor as int].col,
                expected,
                got: self.tokens@[self.cursor as int].kind,
            }),
    {
        let t = self.peek();
        KartaError::Expected { line: t.line, col: t.col, expected, got: t.kind }
    }

    /// Consume and return the next token if it has the given kind.
    pub fn accept(&mut self, kind: TokenKind) -> (r: Option<Token>)
        requires
            old(self).wf(),
            kind != TokenKind::EndOfFile,
        ensures
            final (self).wf(),
            final (self).tokens@ == old(self).tokens@,
            if old(self).tokens@[old(self).cursor as int].kind == kind {
                &&& r matches Some(t) && t@ == old(self).tokens@[old(self).cursor as int]@
                &&& final (self).cursor == old(self).cursor + 1
            } else {
                r is None && final (self).cursor == old(self).cursor
            },
    {
        if !self.eos() && self.peek().kind == kind {
            proof {
                assert(old(self).cursor as int != old(self).tokens@.len() - 1);
            }
            Some(self.pop())
        } else {
            None
        }
    }

    /// Consume and return the next token if it has the given kind, else the
    /// exact "expected ..., got ..." error.
    pub fn expect(&mut self, kind: TokenKind) -> (r: Result<Token, KartaError>)
        requires
            old(self).wf(),
            kind != TokenKind::EndOfFile,
        ensures
            final (self).wf(),
            final (self).tokens@ == old(self).tokens@,
            if old(self).tokens@[old(self).cursor as int].kind == kind {
                &&& r matches Ok(t) && t@ == old(self).tokens@[old(self).cursor as int]@
                &&& final (self).cursor == old(self).cursor + 1
            } else {
                &&& r == Err::<Token, KartaError>(
                    KartaError::Expected {
                        line: old(self).tokens@[old(self).cursor as int].line,
                        col: old(self).tokens@[old(self).cursor as int].col,
                        expected: Expectation::Kind(kind),
                        got: old(self).tokens@[old(self).cursor as int].kind,
                    },
                )
                &&& final (self).cursor == old(self).cursor
            },
    {
        let err = self.parse_error(Expectation::Kind(kind));
        match self.accept(kind) {
            Some(t) => Ok(t),
            None => Err(err),
        }
    }

    /// Tokenize the text and parse one expression, returning the root handle.
    pub fn parse(
        &mut self,
        file_contents: String,
        ast_heap: &mut AstHeap,
        atoms: &mut AtomTable,
    ) -> (r: Result<AstId, KartaError>)
        requires
            old(self).cursor == 0,
            old(self).tokens@.len() == 0,
            file_contents@.len() < usize::MAX,
            old(atoms).wf(),
            heap_wf(old(ast_heap)@, old(atoms)@.len() as int),
            old(ast_heap)@.len() >= 1,
        ensures
            seq_extends(final (atoms)@, old(atoms)@),
            final (atoms).wf(),
            seq_extends(final (ast_heap)@, old(ast_heap)@),
            heap_wf(final (ast_heap)@, final (atoms)@.len() as int),
            r matches Ok(id) ==> id.0 < final (ast_heap)@.len(),
            match spec_tokenize(file_contents@) {
                Ok(ts) => expression_cases(
                    ts[0],
                    old(ast_heap)@,
                    old(atoms)@,
                    final (ast_heap)@,
                    final (atoms)@,
                    r,
                ) && ((ts[0].kind == TokenKind::LeftSquare && ts.len() > 1 && ts[1].kind
                    == TokenKind::RightSquare) ==> r == Ok::<AstId, KartaError>(AstId(0))) && ((
                ts[0].kind == TokenKind::LeftBrace && single_int_pair(ts, 1))
                    ==> single_int_pair_result(
                    ts,
                    1,
                    old(ast_heap)@,
                    old(atoms)@,
                    final (ast_heap)@,
                    final (atoms)@,
                    r,
                )) && ({
                    let st0 = PState {
                        cur: 0,
                        heap: heap_abs(old(ast_heap)@),
                        atoms: old(atoms)@,
                    };
                    match sp_expr(ts, st0) {
                        Ok(pr) => r == Ok::<AstId, KartaError>(pr.0) && heap_abs(
                            final (ast_heap)@,
                        ) == pr.1.heap && final (atoms)@ == pr.1.atoms,
                        Err(e) => r == Err::<AstId, KartaError>(e),
                    }
                }),
                Err(e) => r == Err::<AstId, KartaError>(e) && final (ast_heap)@ == old(ast_heap)@
                    && final (atoms)@ == old(atoms)@,
            },
    {
        let ghost src = file_contents@;
        let mut tokenizer = Tokenizer::new(file_contents);
        let tok_result = tokenizer.tokenize(&mut self.tokens);
        match tok_result {
            Err(e) => {
                return Err(e);
            },
            Ok(_) => {},
        }
        proof {
            lemma_tokenize_wf(src, init_lex_state());
            let ts = spec_tokenize(src)->Ok_0;
            assert(toks_view(self.tokens@) =~= Seq::<SpecToken>::empty() + ts);
            assert(toks_view(self.tokens@) =~= ts);
            assert(self.tokens@.len() == ts.len());
            assert forall|i: int| 0 <= i < ts.len() implies self.tokens@[i]@ == ts[i] by {
                assert(toks_view(self.tokens@)[i] == self.tokens@[i]@);
            }
            assert(self.tokens@.last()@ == ts.last());
            let toks = self.tokens@;
            assert forall|i: int| 0 <= i < toks.len() - 1 implies (#[trigger] toks[i]).kind
                != TokenKind::EndOfFile by {
                assert(toks_view(self.tokens@)[i] == self.tokens@[i]@);
                assert(ts[i].kind != TokenKind::EndOfFile);
            }
            assert(tokens_wf(self.tokens@));
            assert(self.tokens@[0]@ == ts[0]);
        }
        self.parse_expression(ast_heap, atoms)
    }

    /// Parse one expression, chosen by the kind of the next token.
    pub fn parse_expression(&mut self, ast_heap: &mut AstHeap, atoms: &mut AtomTable) -> (r: Result<
        AstId,
        KartaError,
    >)
        requires
            old(self).wf(),
            old(atoms).wf(),
            heap_wf(old(ast_heap)@, old(atoms)@.len() as int),
            old(ast_heap)@.len() >= 1,
        ensures
            final (self).wf(),
            final (self).tokens@ == old(self).tokens@,
            final (self).cursor >= old(self).cursor,
            seq_extends(final (atoms)@, old(atoms)@),
            final (atoms).wf(),
            seq_extends(final (ast_heap)@, old(ast_heap)@),
            heap_wf(final (ast_heap)@, final (atoms)@.len() as int),
            final (ast_heap)@.len() >= 1,
            r matches Ok(id) ==> id.0 < final (ast_heap)@.len() && final (self).cursor > old(
                self,
            ).cursor,
            expression_cases(
                old(self).tokens@[old(self).cursor as int]@,
                old(ast_heap)@,
                old(atoms)@,
                final (ast_heap)@,
                final (atoms)@,
                r,
            ),
            (old(self).tokens@[old(self).cursor as int].kind == TokenKind::LeftSquare && old(
                self,
            ).tokens@[old(self).cursor as int + 1].kind == TokenKind::RightSquare) ==> r == Ok::<
                AstId,
                KartaError,
            >(AstId(0)),
            ({
                let t = old(self).tokens@[old(self).cursor as int].kind;
                (t == TokenKind::Integer || t == TokenKind::Float || t == TokenKind::CharLit || t
                    == TokenKind::StringLit || t == TokenKind::Atom) ==> final (self).cursor == old(
                    self,
                ).cursor + 1
            }),
            (old(self).tokens@[old(self).cursor as int].kind == TokenKind::LeftBrace
                && single_int_pair(toks_view(old(self).tokens@), old(self).cursor as int + 1))
                ==> single_int_pair_result(
                toks_view(old(self).tokens@),
                old(self).cursor as int + 1,
                old(ast_heap)@,
                old(atoms)@,
                final (ast_heap)@,
                final (atoms)@,
                r,
            ),
            ({
                let ts = toks_view(old(self).tokens@);
                let st0 = PState {
                    cur: old(self).cursor as int,
                    heap: heap_abs(old(ast_heap)@),
                    atoms: old(atoms)@,
                };
                match sp_expr(ts, st0) {
                    Ok(pr) => r == Ok::<AstId, KartaError>(pr.0) && final (self).cursor as int
                        == pr.1.cur && heap_abs(final (ast_heap)@) == pr.1.heap && final (atoms)@
                        == pr.1.atoms,
                    Err(e) => r == Err::<AstId, KartaError>(e),
                }
            }),
        decreases old(self).tokens@.len() - old(self).cursor, 0int,
    {
        let ghost t0 = self.tokens@[self.cursor as int]@;
        proof {
            assert(toks_view(self.tokens@)[self.cursor as int] == t0);
        }
        if let Some(token) = self.accept(TokenKind::Integer) {
            match parse_i64_digits(token.data.as_str()) {
                Some(v) => {
                    let id = ast_heap.create_int(v);
                    proof {
                        lemma_heap_push_wf(
                            old(ast_heap)@,
                            Ast::Int(v),
                            old(atoms)@.len() as int,
                        );
                        lemma_heap_abs_push(old(ast_heap)@, Ast::Int(v));
                    }
                    Ok(id)
                },
                None => Err(
                    KartaError::InvalidIntLiteral { line: token.line, col: token.col },
                ),
            }
        } else if let Some(token) = self.accept(TokenKind::Float) {
            let id = ast_heap.create_float(token.data);
            proof {
                lemma_heap_push_wf(old(ast_heap)@, ast_heap@.last(), old(atoms)@.len() as int);
                lemma_heap_abs_push(old(ast_heap)@, ast_heap@.last());
                assert(node_abs(ast_heap@.last()) == SpecAst::Float(t0.data));
            }
            Ok(id)
        } else if let Some(token) = self.accept(TokenKind::CharLit) {
            if token.data.as_str().unicode_len() >= 2 {
                let code = token.data.as_str().get_char(1) as u32;
                let byte = #[verifier::truncate] (code as u8);
                let id = ast_heap.create_char(byte);
                proof {
                    lemma_heap_push_wf(
                        old(ast_heap)@,
                        Ast::Char(byte),
                        old(atoms)@.len() as int,
                    );
                    lemma_heap_abs_push(old(ast_heap)@, Ast::Char(byte));
                }
                Ok(id)
            } else {
                Err(KartaError::MalformedCharLiteral { line: token.line, col: token.col })
            }
        } else if let Some(token) = self.accept(TokenKind::StringLit) {
            let token_len = token.data.as_str().unicode_len();
            if token_len >= 2 {
                let inner = token.data.as_str().substring_char(1, token_len - 1);
                let id = ast_heap.create_string(String::from_str(inner));
                proof {
                    lemma_heap_push_wf(old(ast_heap)@, ast_heap@.last(), old(atoms)@.len() as int);
                    lemma_heap_abs_push(old(ast_heap)@, ast_heap@.last());
                    assert(node_abs(ast_heap@.last()) == SpecAst::Str(
                        t0.data.subrange(1, t0.data.len() - 1),
                    ));
                }
                Ok(id)
            } else {
                Err(KartaError::MalformedStringLiteral { line: token.line, col: token.col })
            }
        } else if let Some(token) = self.accept(TokenKind::Atom) {
            let atom_value = atoms.intern(token.data);
            proof {
                lemma_intern_bounds(old(atoms)@, t0.data);
                lemma_heap_wf_grow_atoms(
                    old(ast_heap)@,
                    old(atoms)@.len() as int,
                    atoms@.len() as int,
                );
                lemma_heap_push_wf(old(ast_heap)@, Ast::Atom(atom_value), atoms@.len() as int);
            }
            let id = ast_heap.create_atom(atom_value);
            proof {
                lemma_heap_abs_push(old(ast_heap)@, Ast::Atom(atom_value));
            }
            Ok(id)
        } else if let Some(_token) = self.accept(TokenKind::LeftBrace) {
            self.parse_map(ast_heap, atoms)
        } else if let Some(_token) = self.accept(TokenKind::LeftSquare) {
            self.parse_list(ast_heap, atoms)
        } else {
            Err(self.parse_error(Expectation::AnExpression))
        }
    }

    /// Parse the pairs of a map literal after its opening brace.
    fn parse_map(&mut self, ast_heap: &mut AstHeap, atoms: &mut AtomTable) -> (r: Result<
        AstId,
        KartaError,
    >)
        requires
            old(self).wf(),
            old(atoms).wf(),
            heap_wf(old(ast_heap)@, old(atoms)@.len() as int),
            old(ast_heap)@.len() >= 1,
        ensures
            final (self).wf(),
            final (self).tokens@ == old(self).tokens@,
            final (self).cursor >= old(self).cursor,
            seq_extends(final (atoms)@, old(atoms)@),
            final (atoms).wf(),
            seq_extends(final (ast_heap)@, old(ast_heap)@),
            heap_wf(final (ast_heap)@, final (atoms)@.len() as int),
            final (ast_heap)@.len() >= 1,
            r matches Ok(id) ==> id.0 < final (ast_heap)@.len() && final (ast_heap)@[id.0 as int]
                is MapNode,
            single_int_pair(toks_view(old(self).tokens@), old(self).cursor as int)
                ==> single_int_pair_result(
                toks_view(old(self).tokens@),
                old(self).cursor as int,
                old(ast_heap)@,
                old(atoms)@,
                final (ast_heap)@,
                final (atoms)@,
                r,
            ),
            ({
                let ts = toks_view(old(self).tokens@);
                let st0 = PState {
                    cur: old(self).cursor as int,
                    heap: heap_abs(old(ast_heap)@),
                    atoms: old(atoms)@,
                };
                match sp_pairs(ts, st0, Map::empty()) {
                    Ok(pr) => r == Ok::<AstId, KartaError>(pr.0) && final (self).cursor as int
                        == pr.1.cur && heap_abs(final (ast_heap)@) == pr.1.heap && final (atoms)@
                        == pr.1.atoms,
                    Err(e) => r == Err::<AstId, KartaError>(e),
                }
            }),
        decreases old(self).tokens@.len() - old(self).cursor, 1int,
    {
        let ghost sts = toks_view(old(self).tokens@);
        let ghost c0 = old(self).cursor as int;
        let ghost stf = PState {
            cur: old(self).cursor as int,
            heap: heap_abs(old(ast_heap)@),
            atoms: old(atoms)@,
        };
        let mut children: Vec<(AtomId, AstId)> = Vec::new();
        proof {
            assert(children@ =~= Seq::<(AtomId, AstId)>::empty());
            assert(entries_map(children@) == Map::<AtomId, AstId>::empty());
            assert(sts.len() == old(self).tokens@.len());
        }
        loop
            invariant_except_break
                self.wf(),
                self.tokens@ == old(self).tokens@,
                self.cursor >= old(self).cursor,
                seq_extends(atoms@, old(atoms)@),
                atoms.wf(),
                seq_extends(ast_heap@, old(ast_heap)@),
                heap_wf(ast_heap@, atoms@.len() as int),
                ast_heap@.len() >= 1,
                unique_keys(children@),
                entries_bounded(children@, ast_heap@.len() as int, atoms@.len() as int),
                sts == toks_view(old(self).tokens@),
                c0 == old(self).cursor as int,
                single_int_pair(sts, c0) ==> (self.cursor as int == c0 && children@
                    =~= Seq::<(AtomId, AstId)>::empty() && ast_heap@ == old(ast_heap)@ && atoms@
                    == old(atoms)@),
                stf == (PState {
                    cur: old(self).cursor as int,
                    heap: heap_abs(old(ast_heap)@),
                    atoms: old(atoms)@,
                }),
                sp_pairs(sts, stf, Map::empty()) == sp_pairs(
                    sts,
                    PState { cur: self.cursor as int, heap: heap_abs(ast_heap@), atoms: atoms@ },
                    entries_map(children@),
                ),
            ensures
                self.wf(),
                self.tokens@ == old(self).tokens@,
                self.cursor >= old(self).cursor,
                seq_extends(atoms@, old(atoms)@),
                atoms.wf(),
                seq_extends(ast_heap@, old(ast_heap)@),
                heap_wf(ast_heap@, atoms@.len() as int),
                ast_heap@.len() >= 1,
                unique_keys(children@),
                entries_bounded(children@, ast_heap@.len() as int, atoms@.len() as int),
                single_int_pair(sts, c0) ==> ({
                    let katom = AtomId(spec_intern_id(old(atoms)@, sts[c0].data) as usize);
                    let vid = AstId((old(ast_heap)@.len() + 1) as usize);
                    &&& self.cursor as int == c0 + 3
                    &&& atoms@ == spec_intern(old(atoms)@, sts[c0].data)
                    &&& ast_heap@ == old(ast_heap)@.push(Ast::Atom(katom)).push(
                        Ast::Int(int_value(sts[c0 + 2].data) as i64),
                    )
                    &&& entries_map(children@) == Map::<AtomId, AstId>::empty().insert(katom, vid)
                }),
                sp_pairs(sts, stf, Map::empty()) == sp_close_map(
                    sts,
                    PState { cur: self.cursor as int, heap: heap_abs(ast_heap@), atoms: atoms@ },
                    entries_map(children@),
                ),
            decreases self.tokens@.len() - self.cursor,
        {
            let ghost pat = single_int_pair(sts, c0);
            let ghost st_a = PState {
                cur: self.cursor as int,
                heap: heap_abs(ast_heap@),
                atoms: atoms@,
            };
            let ghost ch_a = entries_map(children@);
            proof {
                if pat {
                    assert(sts[c0] == self.tokens@[c0]@);
                    assert(sts[c0 + 1] == self.tokens@[c0 + 1]@);
                    assert(sts[c0 + 2] == self.tokens@[c0 + 2]@);
                    assert(sts[c0 + 3] == self.tokens@[c0 + 3]@);
                }
                assert(st_a.cur < sts.len());
            }
            let key_ast_id = match self.parse_expression(ast_heap, atoms) {
                Ok(x) => x,
                Err(e) => {
                    proof {
                        assert(sp_pairs(sts, st_a, ch_a) == Err::<(AstId, PState), KartaError>(e));
                    }
                    return Err(e);
                },
            };
            let ghost st_b = PState {
                cur: self.cursor as int,
                heap: heap_abs(ast_heap@),
                atoms: atoms@,
            };
            proof {
                assert(sp_expr(sts, st_a) == Ok::<(AstId, PState), KartaError>((key_ast_id, st_b)));
                assert(heap_abs(ast_heap@)[key_ast_id.0 as int] == node_abs(
                    ast_heap@[key_ast_id.0 as int],
                ));
            }
            let key: AtomId = match ast_heap.get(key_ast_id) {
                Some(node) => match node {
                    Ast::Atom(s) => *s,
                    _ => {
                        proof {
                            assert(sp_pairs(sts, st_a, ch_a) == Err::<
                                (AstId, PState),
                                KartaError,
                            >(KartaError::BadKey));
                        }
                        return Err(KartaError::BadKey);
                    },
                },
                None => unreached(),
            };
            proof {
                assert(st_b.heap[key_ast_id.0 as int] == SpecAst::Atom(key));
                assert(sts[st_b.cur] == self.tokens@[st_b.cur]@);
            }
            match self.expect(TokenKind::Assign) {
                Ok(_) => {},
                Err(e) => {
                    proof {
                        assert(e == expected_err(sts[st_b.cur], Expectation::Kind(
                            TokenKind::Assign,
                        )));
                        assert(sp_pairs(sts, st_a, ch_a) == Err::<(AstId, PState), KartaError>(e));
                    }
                    return Err(e);
                },
            }
            let value = match self.parse_expression(ast_heap, atoms) {
                Ok(x) => x,
                Err(e) => {
                    proof {
                        assert(sp_expr(sts, PState { cur: st_b.cur + 1, ..st_b }) == Err::<
                            (AstId, PState),
                            KartaError,
                        >(e));
                        assert(sp_pairs(sts, st_a, ch_a) == Err::<(AstId, PState), KartaError>(e));
                    }
                    return Err(e);
                },
            };
            let ghost st_d = PState {
                cur: self.cursor as int,
                heap: heap_abs(ast_heap@),
                atoms: atoms@,
            };
            proof {
                assert(sp_expr(sts, PState { cur: st_b.cur + 1, ..st_b }) == Ok::<
                    (AstId, PState),
                    KartaError,
                >((value, st_d)));
                assert(sts[st_d.cur] == self.tokens@[st_d.cur]@);
            }
            proof {
                assert(key.0 < atoms@.len());
                if pat {
                    assert(key == AtomId(spec_intern_id(old(atoms)@, sts[c0].data) as usize));
                    assert(value.0 == old(ast_heap)@.len() + 1);
                    assert(ast_heap@ == old(ast_heap)@.push(Ast::Atom(key)).push(
                        Ast::Int(int_value(sts[c0 + 2].data) as i64),
                    ));
                    assert(atoms@ == spec_intern(old(atoms)@, sts[c0].data));
                    assert(entries_map(Seq::<(AtomId, AstId)>::empty()) == Map::<
                        AtomId,
                        AstId,
                    >::empty());
                }
            }
            crate::ast::entries_insert(&mut children, key, value);
            proof {
                if pat {
                    assert(value == AstId((old(ast_heap)@.len() + 1) as usize));
                    assert(entries_map(children@) == Map::<AtomId, AstId>::empty().insert(
                        key,
                        value,
                    ));
                }
                assert(entries_map(children@) == ch_a.insert(key, value));
            }
            if self.accept(TokenKind::Comma).is_none() {
                proof {
                    assert(sp_pairs(sts, st_a, ch_a) == sp_close_map(
                        sts,
                        st_d,
                        entries_map(children@),
                    ));
                }
                break ;
            }
            proof {
                assert(sp_pairs(sts, st_a, ch_a) == sp_pairs(
                    sts,
                    PState { cur: st_d.cur + 1, ..st_d },
                    entries_map(children@),
                ));
            }
        }
        let ghost st_brk = PState { cur: self.cursor as int, heap: heap_abs(ast_heap@), atoms: atoms@ };
        let ghost ch_brk = entries_map(children@);
        proof {
            if single_int_pair(sts, c0) {
                assert(sts[c0 + 3] == self.tokens@[c0 + 3]@);
            }
            assert(sts[st_brk.cur] == self.tokens@[st_brk.cur]@);
        }
        match self.expect(TokenKind::RightBrace) {
            Ok(_) => {},
            Err(e) => {
                proof {
                    assert(sp_close_map(sts, st_brk, ch_brk) == Err::<
                        (AstId, PState),
                        KartaError,
                    >(e));
                }
                return Err(e);
            },
        }
        proof {
            lemma_heap_push_wf(ast_heap@, Ast::MapNode(children), atoms@.len() as int);
            lemma_heap_abs_push(ast_heap@, Ast::MapNode(children));
        }
        let ghost chv = children@;
        let id = ast_heap.create_map(children);
        proof {
            assert(heap_abs(ast_heap@) == st_brk.heap.push(SpecAst::MapNode(entries_map(chv))));
            assert(sp_close_map(sts, st_brk, ch_brk) == Ok::<(AstId, PState), KartaError>(
                (
                    AstId(st_brk.heap.len() as usize),
                    PState {
                        cur: st_brk.cur + 1,
                        heap: st_brk.heap.push(SpecAst::MapNode(ch_brk)),
                        atoms: st_brk.atoms,
                    },
                ),
            ));
        }
        Ok(id)
    }

    /// Parse the elements of a list literal after its opening bracket,
    /// building a chain of `{.head, .tail}` cells ending in the nil atom.
    fn parse_list(&mut self, ast_heap: &mut AstHeap, atoms: &mut AtomTable) -> (r: Result<
        AstId,
        KartaError,
    >)
        requires
            old(self).wf(),
            old(atoms).wf(),
            heap_wf(old(ast_heap)@, old(atoms)@.len() as int),
            old(ast_heap)@.len() >= 1,
        ensures
            final (self).wf(),
            final (self).tokens@ == old(self).tokens@,
            final (self).cursor >= old(self).cursor,
            seq_extends(final (atoms)@, old(atoms)@),
            final (atoms).wf(),
            seq_extends(final (ast_heap)@, old(ast_heap)@),
            heap_wf(final (ast_heap)@, final (atoms)@.len() as int),
            final (ast_heap)@.len() >= 1,
            r matches Ok(id) ==> id.0 < final (ast_heap)@.len() && (id.0 == 0
                || final (ast_heap)@[id.0 as int] is MapNode),
            old(self).tokens@[old(self).cursor as int].kind == TokenKind::RightSquare ==> r
                == Ok::<AstId, KartaError>(AstId(0)),
            ({
                let ts = toks_view(old(self).tokens@);
                let st0 = PState {
                    cur: old(self).cursor as int,
                    heap: heap_abs(old(ast_heap)@),
                    atoms: old(atoms)@,
                };
                match sp_list(ts, st0) {
                    Ok(pr) => r == Ok::<AstId, KartaError>(pr.0) && final (self).cursor as int
                        == pr.1.cur && heap_abs(final (ast_heap)@) == pr.1.heap && final (atoms)@
                        == pr.1.atoms,
                    Err(e) => r == Err::<AstId, KartaError>(e),
                }
            }),
        decreases old(self).tokens@.len() - old(self).cursor, 1int,
    {
        let ghost sts = toks_view(old(self).tokens@);
        let ghost stf = PState {
            cur: old(self).cursor as int,
            heap: heap_abs(old(ast_heap)@),
            atoms: old(atoms)@,
        };
        proof {
            assert(sts.len() == old(self).tokens@.len());
            assert(sts[stf.cur] == self.tokens@[stf.cur]@);
        }
        let head_atom = atoms.intern(String::from_str(".head"));
        proof {
            lemma_intern_bounds(old(atoms)@, ".head"@);
        }
        let ghost atoms_mid = atoms@;
        let tail_atom = atoms.intern(String::from_str(".tail"));
        proof {
            lemma_intern_bounds(atoms_mid, ".tail"@);
            reveal_strlit(".head");
            reveal_strlit(".tail");
            assert(".head"@[1] != ".tail"@[1]);
            assert(".head"@ != ".tail"@);
            lemma_intern_handles(atoms_mid, ".tail"@, ".head"@);
            assert(atoms_mid[head_atom.0 as int] == ".head"@);
            assert(atoms@[head_atom.0 as int] == ".head"@);
            assert(atoms@[tail_atom.0 as int] == ".tail"@);
            assert(head_atom != tail_atom);
            lemma_heap_wf_grow_atoms(
                old(ast_heap)@,
                old(atoms)@.len() as int,
                atoms@.len() as int,
            );
        }
        let ghost st0p = PState { cur: stf.cur, heap: stf.heap, atoms: atoms@ };
        if self.accept(TokenKind::RightSquare).is_some() {
            let nil = ast_heap.nil_atom();
            proof {
                assert(sp_list(sts, stf) == Ok::<(AstId, PState), KartaError>(
                    (AstId(0), PState { cur: stf.cur + 1, ..st0p }),
                ));
            }
            Ok(nil)
        } else {
            let head = match self.parse_expression(ast_heap, atoms) {
                Ok(x) => x,
                Err(e) => {
                    proof {
                        assert(sp_expr(sts, st0p) == Err::<(AstId, PState), KartaError>(e));
                        assert(sp_list(sts, stf) == Err::<(AstId, PState), KartaError>(e));
                    }
                    return Err(e);
                },
            };
            let ghost st1 = PState {
                cur: self.cursor as int,
                heap: heap_abs(ast_heap@),
                atoms: atoms@,
            };
            proof {
                assert(sp_expr(sts, st0p) == Ok::<(AstId, PState), KartaError>((head, st1)));
            }
            let ghost pre_heap0 = ast_heap@;
            let retval = ast_heap.make_list_node(head_atom, head, tail_atom);
            proof {
                lemma_list_cell_push_wf(
                    pre_heap0,
                    ast_heap@,
                    atoms@.len() as int,
                    head_atom,
                    head,
                    tail_atom,
                );
                let cell = SpecAst::MapNode(
                    Map::<AtomId, AstId>::empty().insert(head_atom, head).insert(
                        tail_atom,
                        AstId(0),
                    ),
                );
                assert(node_abs(ast_heap@[pre_heap0.len() as int]) == cell);
                assert(heap_abs(ast_heap@) =~= heap_abs(pre_heap0).push(cell));
                assert(sp_list(sts, stf) == sp_items(
                    sts,
                    PState { cur: st1.cur, heap: st1.heap.push(cell), atoms: st1.atoms },
                    head_atom,
                    tail_atom,
                    AstId(st1.heap.len() as usize),
                    AstId(st1.heap.len() as usize),
                ));
                assert(retval == AstId(st1.heap.len() as usize));
            }
            let mut curr_id = retval;
            loop
                invariant_except_break
                    old(self).tokens@[old(self).cursor as int].kind != TokenKind::RightSquare,
                    self.wf(),
                    self.tokens@ == old(self).tokens@,
                    self.cursor > old(self).cursor,
                    seq_extends(atoms@, old(atoms)@),
                    atoms.wf(),
                    seq_extends(ast_heap@, old(ast_heap)@),
                    heap_wf(ast_heap@, atoms@.len() as int),
                    ast_heap@.len() >= 1,
                    head_atom.0 < atoms@.len(),
                    tail_atom.0 < atoms@.len(),
                    head_atom != tail_atom,
                    retval.0 < ast_heap@.len(),
                    ast_heap@[retval.0 as int] is MapNode,
                    curr_id.0 < ast_heap@.len(),
                    curr_id.0 >= old(ast_heap)@.len(),
                    ast_heap@[curr_id.0 as int] is MapNode,
                    sts == toks_view(old(self).tokens@),
                    stf == (PState {
                        cur: old(self).cursor as int,
                        heap: heap_abs(old(ast_heap)@),
                        atoms: old(atoms)@,
                    }),
                    sp_list(sts, stf) == sp_items(
                        sts,
                        PState {
                            cur: self.cursor as int,
                            heap: heap_abs(ast_heap@),
                            atoms: atoms@,
                        },
                        head_atom,
                        tail_atom,
                        retval,
                        curr_id,
                    ),
                ensures
                    self.wf(),
                    self.tokens@ == old(self).tokens@,
                    self.cursor > old(self).cursor,
                    seq_extends(atoms@, old(atoms)@),
                    atoms.wf(),
                    seq_extends(ast_heap@, old(ast_heap)@),
                    heap_wf(ast_heap@, atoms@.len() as int),
                    ast_heap@.len() >= 1,
                    retval.0 < ast_heap@.len(),
                    ast_heap@[retval.0 as int] is MapNode,
                    sp_list(sts, stf) == sp_close_list(
                        sts,
                        PState {
                            cur: self.cursor as int,
                            heap: heap_abs(ast_heap@),
                            atoms: atoms@,
                        },
                        retval,
                    ),
                decreases self.tokens@.len() - self.cursor,
            {
                let ghost st_h = PState {
                    cur: self.cursor as int,
                    heap: heap_abs(ast_heap@),
                    atoms: atoms@,
                };
                proof {
                    assert(sts[st_h.cur] == self.tokens@[st_h.cur]@);
                }
                if self.accept(TokenKind::Comma).is_none() {
                    proof {
                        assert(sp_items(sts, st_h, head_atom, tail_atom, retval, curr_id)
                            == sp_close_list(sts, st_h, retval));
                    }
                    break ;
                }
                let head2 = match self.parse_expression(ast_heap, atoms) {
                    Ok(x) => x,
                    Err(e) => {
                        proof {
                            assert(sp_expr(sts, PState { cur: st_h.cur + 1, ..st_h }) == Err::<
                                (AstId, PState),
                                KartaError,
                            >(e));
                            assert(sp_items(sts, st_h, head_atom, tail_atom, retval, curr_id)
                                == Err::<(AstId, PState), KartaError>(e));
                        }
                        return Err(e);
                    },
                };
                let ghost st2 = PState {
                    cur: self.cursor as int,
                    heap: heap_abs(ast_heap@),
                    atoms: atoms@,
                };
                proof {
                    assert(sp_expr(sts, PState { cur: st_h.cur + 1, ..st_h }) == Ok::<
                        (AstId, PState),
                        KartaError,
                    >((head2, st2)));
                }
                let ghost pre_heap1 = ast_heap@;
                let new_map_id = ast_heap.make_list_node(head_atom, head2, tail_atom);
                proof {
                    lemma_list_cell_push_wf(
                        pre_heap1,
                        ast_heap@,
                        atoms@.len() as int,
                        head_atom,
                        head2,
                        tail_atom,
                    );
                    let cell = SpecAst::MapNode(
                        Map::<AtomId, AstId>::empty().insert(head_atom, head2).insert(
                            tail_atom,
                            AstId(0),
                        ),
                    );
                    assert(node_abs(ast_heap@[pre_heap1.len() as int]) == cell);
                    assert(heap_abs(ast_heap@) =~= heap_abs(pre_heap1).push(cell));
                    assert(new_map_id == AstId(st2.heap.len() as usize));
                }
                let ghost pre_heap = ast_heap@;
                ast_heap.set_map_entry(curr_id, tail_atom, new_map_id);
                proof {
                    let es1 = pre_heap[curr_id.0 as int]->MapNode_0@;
                    let es2 = ast_heap@[curr_id.0 as int]->MapNode_0@;
                    assert(node_wf(
                        pre_heap[curr_id.0 as int],
                        pre_heap.len() as int,
                        atoms@.len() as int,
                    ));
                    assert forall|i: int| 0 <= i < es2.len() implies (#[trigger] es2[i]).0.0
                        < atoms@.len() && es2[i].1.0 < ast_heap@.len() by {
                        if es2[i] != (tail_atom, new_map_id) {
                            assert(es1.contains(es2[i]));
                            let j = choose|j: int| 0 <= j < es1.len() && es1[j] == es2[i];
                            assert(es1[j].0.0 < atoms@.len() && es1[j].1.0 < pre_heap.len());
                        }
                    }
                    assert forall|i: int| 0 <= i < ast_heap@.len() implies node_wf(
                        #[trigger] ast_heap@[i],
                        ast_heap@.len() as int,
                        atoms@.len() as int,
                    ) by {
                        if i != curr_id.0 as int {
                            assert(ast_heap@[i] == pre_heap[i]);
                        }
                    }
                    // Relate the threaded heap to the spec-level threading.
                    let m = st2.heap[curr_id.0 as int]->MapNode_0;
                    assert(st2.heap[curr_id.0 as int] == node_abs(pre_heap1[curr_id.0 as int]));
                    assert(m == entries_map(es1));
                    assert(node_abs(ast_heap@[curr_id.0 as int]) == SpecAst::MapNode(
                        m.insert(tail_atom, new_map_id),
                    ));
                    let cell = SpecAst::MapNode(
                        Map::<AtomId, AstId>::empty().insert(head_atom, head2).insert(
                            tail_atom,
                            AstId(0),
                        ),
                    );
                    assert(heap_abs(ast_heap@) =~= st2.heap.push(cell).update(
                        curr_id.0 as int,
                        SpecAst::MapNode(m.insert(tail_atom, new_map_id)),
                    ));
                    assert(sp_items(sts, st_h, head_atom, tail_atom, retval, curr_id) == sp_items(
                        sts,
                        PState {
                            cur: st2.cur,
                            heap: st2.heap.push(cell).update(
                                curr_id.0 as int,
                                SpecAst::MapNode(m.insert(tail_atom, new_map_id)),
                            ),
                            atoms: st2.atoms,
                        },
                        head_atom,
                        tail_atom,
                        retval,
                        new_map_id,
                    ));
                }
                curr_id = new_map_id;
            }
            let ghost st_brk = PState {
                cur: self.cursor as int,
                heap: heap_abs(ast_heap@),
                atoms: atoms@,
            };
            proof {
                assert(sts[st_brk.cur] == self.tokens@[st_brk.cur]@);
            }
            match self.expect(TokenKind::RightSquare) {
                Ok(_) => {},
                Err(e) => {
                    proof {
                        assert(sp_close_list(sts, st_brk, retval) == Err::<
                            (AstId, PState),
                            KartaError,
                        >(e));
                    }
                    return Err(e);
                },
            }
            proof {
                assert(sp_close_list(sts, st_brk, retval) == Ok::<(AstId, PState), KartaError>(
                    (retval, PState { cur: st_brk.cur + 1, ..st_brk }),
                ));
            }
            Ok(retval)
        }
    }
}

/// Pushing a fresh list cell keeps the heap well formed.
proof fn lemma_list_cell_push_wf(
    pre: Seq<Ast>,
    post: Seq<Ast>,
    n_atoms: int,
    head_atom: AtomId,
    head: AstId,
    tail_atom: AtomId,
)
    requires
        heap_wf(pre, n_atoms),
        head_atom.0 < n_atoms,
        tail_atom.0 < n_atoms,
        head_atom != tail_atom,
        head.0 < pre.len(),
        post.len() == pre.len() + 1,
        forall|j: int| 0 <= j < pre.len() ==> post[j] == pre[j],
        post.last() matches Ast::MapNode(fs) && fs@ == seq![
            (head_atom, head),
            (tail_atom, AstId(0)),
        ],
    ensures
        heap_wf(post, n_atoms),
        post[post.len() - 1] is MapNode,
{
    let es = seq![(head_atom, head), (tail_atom, AstId(0))];
    assert(unique_keys(es)) by {
        assert(es[0].0 != es[1].0);
    }
    assert(entries_bounded(es, post.len() as int, n_atoms)) by {
        assert(es[0].0.0 < n_atoms && es[0].1.0 < post.len());
        assert(es[1].0.0 < n_atoms && es[1].1.0 < post.len());
    }
    assert(node_wf(post.last(), post.len() as int, n_atoms));
    assert forall|i: int| 0 <= i < post.len() implies node_wf(
        #[trigger] post[i],
        post.len() as int,
        n_atoms,
    ) by {
        if i < pre.len() {
            crate::ast::lemma_node_wf_monotone(
                pre[i],
                pre.len() as int,
                n_atoms,
                post.len() as int,
                n_atoms,
            );
        } else {
            assert(post[i] == post.last());
        }
    }
}

} // verus!
