//! The tokenizer: a single-pass character scanner that converts source text
//! into a flat sequence of tokens with line/column spans. Its behaviour is
//! given by the spec-level state machine `spec_tokenize_from`, and the
//! executable scanner is proved to produce exactly its result.

use vstd::prelude::*;
use vstd::string::*;

use crate::error::KartaError;
use crate::token::{
    is_atom_char,
    is_digit_char,
    is_ws_char,
    atom_char,
    digit_char,
    ws_char,
    spec_kind_of,
    toks_view,
    SpecToken,
    Token,
    TokenKind,
};

verus! {

/// The states of the scanner.
#[derive(Clone, Copy, Debug, PartialEq, Eq, Structural)]
pub enum ScanMode {
    /// Dispatching: no token is in progress.
    Start,
    Whitespace,
    Integer,
    Atom,
    CharLit,
    StringLit,
    Symbol,
    Float,
    Comment,
}

/// The scanner's configuration: cursor, start of the pending span, position
/// tracking and state.
pub ghost struct LexState {
    pub cursor: int,
    pub start: int,
    pub line: int,
    pub col: int,
    pub mode: ScanMode,
}

pub open spec fn init_lex_state() -> LexState {
    LexState { cursor: 0, start: 0, line: 1, col: 1, mode: ScanMode::Start }
}

pub open spec fn mode_rank(m: ScanMode) -> int {
    if m is Start {
        0
    } else {
        1
    }
}

/// Consume one character that is not a newline.
pub open spec fn lex_consume(st: LexState, m: ScanMode) -> LexState {
    LexState { cursor: st.cursor + 1, col: st.col + 1, mode: m, ..st }
}

/// Consume one character, tracking newlines: a newline starts the next line
/// at column one.
pub open spec fn lex_consume_nl(st: LexState, c: char, m: ScanMode) -> LexState {
    if c == '\n' {
        LexState { cursor: st.cursor + 1, line: st.line + 1, col: 1, mode: m, ..st }
    } else {
        lex_consume(st, m)
    }
}

/// The token of the pending span, positioned at its last character.
pub open spec fn lex_tok(s: Seq<char>, st: LexState, kind: TokenKind) -> SpecToken {
    SpecToken {
        data: s.subrange(st.start, st.cursor),
        kind,
        line: st.line as nat,
        col: (st.col - 1) as nat,
    }
}

/// Reset the pending span after emitting a token.
pub open spec fn lex_emit(st: LexState) -> LexState {
    LexState { start: st.cursor, mode: ScanMode::Start, ..st }
}

/// The end-of-file token appended after the whole text is consumed.
pub open spec fn lex_eof_tok(st: LexState) -> SpecToken {
    SpecToken {
        data: Seq::empty(),
        kind: TokenKind::EndOfFile,
        line: st.line as nat,
        col: (st.col - 1) as nat,
    }
}

/// Prepend a token to a tokenization result.
pub open spec fn lex_prepend(t: SpecToken, r: Result<Seq<SpecToken>, KartaError>) -> Result<
    Seq<SpecToken>,
    KartaError,
> {
    match r {
        Ok(ts) => Ok(seq![t] + ts),
        Err(e) => Err(e),
    }
}

/// The tokens produced from configuration `st` to the end of the text.
///
/// At the end of the input a pending number, atom or symbol span is emitted,
/// an open char or string literal is a fatal error, and a final end-of-file
/// token is always appended.
pub open spec fn spec_tokenize_from(s: Seq<char>, st: LexState) -> Result<
    Seq<SpecToken>,
    KartaError,
>
    decreases s.len() - st.cursor, mode_rank(st.mode),
    when 0 <= st.cursor <= s.len()
{
    if st.cursor >= s.len() {
        match st.mode {
            ScanMode::Start => Ok(seq![lex_eof_tok(st)]),
            ScanMode::Whitespace => Ok(seq![lex_eof_tok(st)]),
            ScanMode::Comment => Ok(seq![lex_eof_tok(st)]),
            ScanMode::Integer => Ok(seq![lex_tok(s, st, TokenKind::Integer), lex_eof_tok(st)]),
            ScanMode::Float => Ok(seq![lex_tok(s, st, TokenKind::Float), lex_eof_tok(st)]),
            ScanMode::Atom => Ok(seq![lex_tok(s, st, TokenKind::Atom), lex_eof_tok(st)]),
            ScanMode::Symbol => Ok(
                seq![
                    lex_tok(s, st, spec_kind_of(s.subrange(st.start, st.cursor))),
                    lex_eof_tok(st),
                ],
            ),
            ScanMode::CharLit => Err(KartaError::CharGoesToEndOfFile),
            ScanMode::StringLit => Err(KartaError::StringGoesToEndOfFile),
        }
    } else {
        let c = s[st.cursor];
        match st.mode {
            ScanMode::Start => {
                if is_ws_char(c) {
                    spec_tokenize_from(s, lex_consume_nl(st, c, ScanMode::Whitespace))
                } else if is_digit_char(c) {
                    spec_tokenize_from(s, lex_consume(st, ScanMode::Integer))
                } else if c == '.' {
                    spec_tokenize_from(s, lex_consume(st, ScanMode::Atom))
                } else if c == '\'' {
                    spec_tokenize_from(s, lex_consume(st, ScanMode::CharLit))
                } else if c == '"' {
                    spec_tokenize_from(s, lex_consume(st, ScanMode::StringLit))
                } else if c == ';' {
                    spec_tokenize_from(s, lex_consume(st, ScanMode::Comment))
                } else {
                    spec_tokenize_from(s, lex_consume(st, ScanMode::Symbol))
                }
            },
            ScanMode::Whitespace => {
                if !is_ws_char(c) {
                    spec_tokenize_from(s, lex_emit(st))
                } else {
                    spec_tokenize_from(s, lex_consume_nl(st, c, ScanMode::Whitespace))
                }
            },
            ScanMode::Integer => {
                if c == '.' {
                    spec_tokenize_from(s, lex_consume(st, ScanMode::Float))
                } else if !is_digit_char(c) {
                    lex_prepend(
                        lex_tok(s, st, TokenKind::Integer),
                        spec_tokenize_from(s, lex_emit(st)),
                    )
                } else {
                    spec_tokenize_from(s, lex_consume(st, ScanMode::Integer))
                }
            },
            ScanMode::Float => {
                if !is_digit_char(c) {
                    lex_prepend(
                        lex_tok(s, st, TokenKind::Float),
                        spec_tokenize_from(s, lex_emit(st)),
                    )
                } else {
                    spec_tokenize_from(s, lex_consume(st, ScanMode::Float))
                }
            },
            ScanMode::Atom => {
                if !is_atom_char(c) {
                    lex_prepend(
                        lex_tok(s, st, TokenKind::Atom),
                        spec_tokenize_from(s, lex_emit(st)),
                    )
                } else {
                    spec_tokenize_from(s, lex_consume(st, ScanMode::Atom))
                }
            },
            ScanMode::CharLit => {
                if c == '\'' {
                    let st2 = lex_consume(st, ScanMode::Start);
                    lex_prepend(
                        lex_tok(s, st2, TokenKind::CharLit),
                        spec_tokenize_from(s, lex_emit(st2)),
                    )
                } else {
                    spec_tokenize_from(s, lex_consume(st, ScanMode::CharLit))
                }
            },
            ScanMode::StringLit => {
                if c == '"' {
                    let st2 = lex_consume(st, ScanMode::Start);
                    lex_prepend(
                        lex_tok(s, st2, TokenKind::StringLit),
                        spec_tokenize_from(s, lex_emit(st2)),
                    )
                } else {
                    spec_tokenize_from(s, lex_consume(st, ScanMode::StringLit))
                }
            },
            ScanMode::Symbol => {
                if spec_kind_of(s.subrange(st.start, st.cursor + 1)) == TokenKind::Identifier {
                    lex_prepend(
                        lex_tok(s, st, spec_kind_of(s.subrange(st.start, st.cursor))),
                        spec_tokenize_from(s, lex_emit(st)),
                    )
                } else {
                    spec_tokenize_from(s, lex_consume(st, ScanMode::Symbol))
                }
            },
            ScanMode::Comment => {
                if c == '\n' {
                    spec_tokenize_from(
                        s,
                        LexState {
                            cursor: st.cursor + 1,
                            start: st.cursor + 1,
                            line: st.line + 1,
                            col: 1,
                            mode: ScanMode::Start,
                        },
                    )
                } else {
                    spec_tokenize_from(s, lex_consume(st, ScanMode::Comment))
                }
            },
        }
    }
}

/// The token sequence of a whole source text, or its tokenization error.
pub open spec fn spec_tokenize(s: Seq<char>) -> Result<Seq<SpecToken>, KartaError> {
    spec_tokenize_from(s, init_lex_state())
}

/// Converts source text into a stream of tokens.
pub struct Tokenizer {
    /// Index of the next character to examine.
    pub cursor: usize,
    /// Index of the first character of the pending token.
    pub starting_cursor: usize,
    /// The source text.
    pub file_contents: String,
    /// Current line, starting at 1.
    pub line: usize,
    /// Current column, starting at 1.
    pub col: usize,
    /// The scanner state.
    pub state: ScanMode,
}

impl Tokenizer {
    /// The source as a character sequence.
    pub open spec fn src(&self) -> Seq<char> {
        self.file_contents@
    }

    /// The scanner's configuration.
    pub open spec fn lex_state(&self) -> LexState {
        LexState {
            cursor: self.cursor as int,
            start: self.starting_cursor as int,
            line: self.line as int,
            col: self.col as int,
            mode: self.state,
        }
    }

    /// Bounds that hold whenever the scanner rests between transitions.
    pub open spec fn inv(&self) -> bool {
        &&& self.src().len() < usize::MAX
        &&& self.starting_cursor <= self.cursor <= self.src().len()
        &&& (self.state is Start ==> self.starting_cursor == self.cursor)
        &&& (!(self.state is Start) && !(self.state is Whitespace) && !(self.state is Comment)
            ==> self.starting_cursor < self.cursor)
        &&& 1 <= self.col <= self.cursor + 1
        &&& 1 <= self.line <= self.cursor + 1
    }

    /// Create a tokenizer over the given text.
    pub fn new(file_contents: String) -> (r: Self)
        requires
            file_contents@.len() < usize::MAX,
        ensures
            r.file_contents == file_contents,
            r.lex_state() == init_lex_state(),
            r.inv(),
    {
        Tokenizer {
            cursor: 0,
            file_contents,
            line: 1,
            col: 1,
            state: ScanMode::Start,
            starting_cursor: 0,
        }
    }

    /// Whether the whole text has been consumed.
    pub fn eof(&self) -> (b: bool)
        ensures
            b == (self.cursor >= self.src().len()),
    {
        self.cursor >= self.file_contents.as_str().unicode_len()
    }

    /// Consume one character (not tracking newlines) and switch states.
    pub fn advance(&mut self, new_state: ScanMode)
        requires
            old(self).cursor < old(self).src().len(),
            old(self).src().len() < usize::MAX,
            old(self).col <= old(self).cursor + 1,
        ensures
            final (self).lex_state() == lex_consume(old(self).lex_state(), new_state),
            final (self).file_contents == old(self).file_contents,
    {
        self.cursor = self.cursor + 1;
        self.col = self.col + 1;
        self.state = new_state;
    }

    /// Consume one character, starting a new line if it is a newline.
    pub fn advance_tracking(&mut self, c: char, new_state: ScanMode)
        requires
            old(self).cursor < old(self).src().len(),
            old(self).src().len() < usize::MAX,
            old(self).col <= old(self).cursor + 1,
            old(self).line <= old(self).cursor + 1,
        ensures
            final (self).lex_state() == lex_consume_nl(old(self).lex_state(), c, new_state),
            final (self).file_contents == old(self).file_contents,
    {
        if c == '\n' {
            self.cursor = self.cursor + 1;
            self.line = self.line + 1;
            self.col = 1;
            self.state = new_state;
        } else {
            self.advance(new_state);
        }
    }

    /// Emit the pending span as a token and reset to the dispatch state.
    pub fn add_token(&mut self, kind: TokenKind, tokens: &mut Vec<Token>)
        requires
            old(self).starting_cursor <= old(self).cursor <= old(self).src().len(),
            old(self).col >= 1,
        ensures
            final (self).lex_state() == lex_emit(old(self).lex_state()),
            final (self).file_contents == old(self).file_contents,
            final (tokens)@.len() == old(tokens)@.len() + 1,
            forall|i: int|
                0 <= i < old(tokens)@.len() ==> final (tokens)@[i] == old(tokens)@[i],
            final (tokens)@.last()@ == lex_tok(old(self).src(), old(self).lex_state(), kind),
    {
        let data_str = self.file_contents.as_str().substring_char(self.starting_cursor, self.cursor);
        let token_data = String::from_str(data_str);
        let token = Token { data: token_data, kind, line: self.line, col: self.col - 1 };
        tokens.push(token);
        self.starting_cursor = self.cursor;
        self.state = ScanMode::Start;
    }

    /// Convert the text into tokens, appending them to `tokens`.
    ///
    /// On success the appended tokens are exactly `spec_tokenize` of the
    /// text; on failure nothing useful was appended and the error is exactly
    /// the one `spec_tokenize` gives.
    pub fn tokenize(&mut self, tokens: &mut Vec<Token>) -> (r: Result<(), KartaError>)
        requires
            old(self).lex_state() == init_lex_state(),
            old(self).inv(),
        ensures
            match r {
                Ok(_) => spec_tokenize(old(self).src()) matches Ok(ts) && toks_view(
                    final (tokens)@,
                ) == toks_view(old(tokens)@) + ts,
                Err(e) => spec_tokenize(old(self).src()) == Err::<Seq<SpecToken>, KartaError>(e),
            },
    {
        let ghost src = self.src();
        let ghost base_len = tokens@.len() as int;
        proof {
            assert(toks_view(tokens@.skip(base_len)) =~= Seq::<SpecToken>::empty());
            if spec_tokenize_from(src, self.lex_state()) is Ok {
                let rest = spec_tokenize_from(src, self.lex_state())->Ok_0;
                assert(toks_view(tokens@.skip(base_len)) + rest =~= rest);
            }
        }
        while !self.eof()
            invariant
                self.file_contents@ == src,
                self.inv(),
                tokens@.len() >= base_len,
                forall|i: int| 0 <= i < base_len ==> tokens@[i] == old(tokens)@[i],
                base_len == old(tokens)@.len(),
                match spec_tokenize_from(src, self.lex_state()) {
                    Ok(rest) => spec_tokenize(src) == Ok::<Seq<SpecToken>, KartaError>(
                        toks_view(tokens@.skip(base_len)) + rest,
                    ),
                    Err(e) => spec_tokenize(src) == Err::<Seq<SpecToken>, KartaError>(e),
                },
            decreases src.len() - self.cursor, mode_rank(self.state),
        {
            let ghost pre = self.lex_state();
            let ghost pre_toks = tokens@;
            let c = self.file_contents.as_str().get_char(self.cursor);
            proof {
                assert(c == src[pre.cursor]);
            }
            match self.state {
                ScanMode::Start => {
                    if ws_char(c) {
                        self.advance_tracking(c, ScanMode::Whitespace);
                    } else if digit_char(c) {
                        self.advance(ScanMode::Integer);
                    } else if c == '.' {
                        self.advance(ScanMode::Atom);
                    } else if c == '\'' {
                        self.advance(ScanMode::CharLit);
                    } else if c == '"' {
                        self.advance(ScanMode::StringLit);
                    } else if c == ';' {
                        self.advance(ScanMode::Comment);
                    } else {
                        self.advance(ScanMode::Symbol);
                    }
                },
                ScanMode::Whitespace => {
                    if !ws_char(c) {
                        self.starting_cursor = self.cursor;
                        self.state = ScanMode::Start;
                        proof {
                            assert(self.lex_state() == lex_emit(pre));
                        }
                    } else {
                        self.advance_tracking(c, ScanMode::Whitespace);
                    }
                },
                ScanMode::Integer => {
                    if c == '.' {
                        self.advance(ScanMode::Float);
                    } else if !digit_char(c) {
                        self.add_token(TokenKind::Integer, tokens);
                        proof {
                            lemma_emit_step(src, pre, TokenKind::Integer, pre_toks, tokens@, base_len);
                        }
                    } else {
                        self.advance(ScanMode::Integer);
                    }
                },
                ScanMode::Float => {
                    if !digit_char(c) {
                        self.add_token(TokenKind::Float, tokens);
                        proof {
                            lemma_emit_step(src, pre, TokenKind::Float, pre_toks, tokens@, base_len);
                        }
                    } else {
                        self.advance(ScanMode::Float);
                    }
                },
                ScanMode::Atom => {
                    if !atom_char(c) {
                        self.add_token(TokenKind::Atom, tokens);
                        proof {
                            lemma_emit_step(src, pre, TokenKind::Atom, pre_toks, tokens@, base_len);
                        }
                    } else {
                        self.advance(ScanMode::Atom);
                    }
                },
                ScanMode::CharLit => {
                    if c == '\'' {
                        self.advance(ScanMode::Start);
                        let ghost mid = self.lex_state();
                        self.add_token(TokenKind::CharLit, tokens);
                        proof {
                            lemma_emit_step(src, mid, TokenKind::CharLit, pre_toks, tokens@, base_len);
                        }
                    } else {
                        self.advance(ScanMode::CharLit);
                    }
                },
                ScanMode::StringLit => {
                    if c == '"' {
                        self.advance(ScanMode::Start);
                        let ghost mid = self.lex_state();
                        self.add_token(TokenKind::StringLit, tokens);
                        proof {
                            lemma_emit_step(src, mid, TokenKind::StringLit, pre_toks, tokens@, base_len);
                        }
                    } else {
                        self.advance(ScanMode::StringLit);
                    }
                },
                ScanMode::Symbol => {
                    let lookahead = self.file_contents.as_str().substring_char(
                        self.starting_cursor,
                        self.cursor + 1,
                    );
                    let ahead_kind = TokenKind::from_string(lookahead);
                    if ahead_kind == TokenKind::Identifier {
                        let run = self.file_contents.as_str().substring_char(
                            self.starting_cursor,
                            self.cursor,
                        );
                        let kind = TokenKind::from_string(run);
                        self.add_token(kind, tokens);
                        proof {
                            lemma_emit_step(src, pre, kind, pre_toks, tokens@, base_len);
                        }
                    } else {
                        self.advance(ScanMode::Symbol);
                    }
                },
                ScanMode::Comment => {
                    if c == '\n' {
                        self.cursor = self.cursor + 1;
                        self.line = self.line + 1;
                        self.col = 1;
                        self.starting_cursor = self.cursor;
                        self.state = ScanMode::Start;
                    } else {
                        self.advance(ScanMode::Comment);
                    }
                },
            }
        }
        // End of input: emit any pending span, or fail on an open literal.
        let ghost exit_state = self.lex_state();
        let ghost exit_toks = tokens@;
        match self.state {
            ScanMode::Start => {},
            ScanMode::Whitespace => {},
            ScanMode::Comment => {},
            ScanMode::Integer => {
                self.add_token(TokenKind::Integer, tokens);
                proof {
                    lemma_emit_step(src, exit_state, TokenKind::Integer, exit_toks, tokens@, base_len);
                }
            },
            ScanMode::Float => {
                self.add_token(TokenKind::Float, tokens);
                proof {
                    lemma_emit_step(src, exit_state, TokenKind::Float, exit_toks, tokens@, base_len);
                }
            },
            ScanMode::Atom => {
                self.add_token(TokenKind::Atom, tokens);
                proof {
                    lemma_emit_step(src, exit_state, TokenKind::Atom, exit_toks, tokens@, base_len);
                }
            },
            ScanMode::Symbol => {
                let run = self.file_contents.as_str().substring_char(
                    self.starting_cursor,
                    self.cursor,
                );
                let kind = TokenKind::from_string(run);
                self.add_token(kind, tokens);
                proof {
                    lemma_emit_step(src, exit_state, kind, exit_toks, tokens@, base_len);
                }
            },
            ScanMode::CharLit => {
                return Err(KartaError::CharGoesToEndOfFile);
            },
            ScanMode::StringLit => {
                return Err(KartaError::StringGoesToEndOfFile);
            },
        }
        self.starting_cursor = self.cursor;
        let ghost flushed_state = self.lex_state();
        let ghost flushed_toks = tokens@;
        self.add_token(TokenKind::EndOfFile, tokens);
        proof {
            let emitted = toks_view(flushed_toks.skip(base_len));
            assert(tokens@.last()@.data =~= Seq::<char>::empty());
            assert(tokens@.last()@ == lex_eof_tok(flushed_state));
            assert(tokens@.skip(base_len) =~= flushed_toks.skip(base_len).push(tokens@.last()));
            assert(toks_view(tokens@.skip(base_len)) =~= emitted.push(lex_eof_tok(flushed_state)));
            assert(emitted + seq![lex_eof_tok(flushed_state)] =~= emitted.push(
                lex_eof_tok(flushed_state),
            ));
        }
        Ok(())
    }
}

/// A well-formed token stream: nonempty, ending in exactly one end-of-file
/// token.
pub open spec fn stoks_wf(ts: Seq<SpecToken>) -> bool {
    &&& ts.len() >= 1
    &&& ts.last().kind == TokenKind::EndOfFile
    &&& forall|i: int| 0 <= i < ts.len() - 1 ==> (#[trigger] ts[i]).kind != TokenKind::EndOfFile
}

proof fn lemma_prepend_wf(t: SpecToken, r: Result<Seq<SpecToken>, KartaError>)
    requires
        t.kind != TokenKind::EndOfFile,
        r matches Ok(ts) ==> stoks_wf(ts),
    ensures
        lex_prepend(t, r) matches Ok(ts) ==> stoks_wf(ts),
{
    if r is Ok {
        let ts = r->Ok_0;
        let ts2 = seq![t] + ts;
        assert(ts2.len() == ts.len() + 1);
        assert(ts2.last() == ts.last());
        assert forall|i: int| 0 <= i < ts2.len() - 1 implies (#[trigger] ts2[i]).kind
            != TokenKind::EndOfFile by {
            if i > 0 {
                assert(ts2[i] == ts[i - 1]);
            }
        }
    }
}

/// Every successful tokenization is a well-formed stream.
pub proof fn lemma_tokenize_wf(s: Seq<char>, st: LexState)
    requires
        0 <= st.cursor <= s.len(),
    ensures
        spec_tokenize_from(s, st) matches Ok(ts) ==> stoks_wf(ts),
    decreases s.len() - st.cursor, mode_rank(st.mode),
{
    if st.cursor >= s.len() {
        match st.mode {
            ScanMode::Start | ScanMode::Whitespace | ScanMode::Comment => {
                assert(spec_tokenize_from(s, st) == Ok::<_, KartaError>(seq![lex_eof_tok(st)]));
            },
            _ => {},
        }
    } else {
        let c = s[st.cursor];
        match st.mode {
            ScanMode::Start => {
                if is_ws_char(c) {
                    lemma_tokenize_wf(s, lex_consume_nl(st, c, ScanMode::Whitespace));
                } else if is_digit_char(c) {
                    lemma_tokenize_wf(s, lex_consume(st, ScanMode::Integer));
                } else if c == '.' {
                    lemma_tokenize_wf(s, lex_consume(st, ScanMode::Atom));
                } else if c == '\'' {
                    lemma_tokenize_wf(s, lex_consume(st, ScanMode::CharLit));
                } else if c == '"' {
                    lemma_tokenize_wf(s, lex_consume(st, ScanMode::StringLit));
                } else if c == ';' {
                    lemma_tokenize_wf(s, lex_consume(st, ScanMode::Comment));
                } else {
                    lemma_tokenize_wf(s, lex_consume(st, ScanMode::Symbol));
                }
            },
            ScanMode::Whitespace => {
                if !is_ws_char(c) {
                    lemma_tokenize_wf(s, lex_emit(st));
                } else {
                    lemma_tokenize_wf(s, lex_consume_nl(st, c, ScanMode::Whitespace));
                }
            },
            ScanMode::Integer => {
                if c == '.' {
                    lemma_tokenize_wf(s, lex_consume(st, ScanMode::Float));
                } else if !is_digit_char(c) {
                    lemma_tokenize_wf(s, lex_emit(st));
                    lemma_prepend_wf(
                        lex_tok(s, st, TokenKind::Integer),
                        spec_tokenize_from(s, lex_emit(st)),
                    );
                } else {
                    lemma_tokenize_wf(s, lex_consume(st, ScanMode::Integer));
                }
            },
            ScanMode::Float => {
                if !is_digit_char(c) {
                    lemma_tokenize_wf(s, lex_emit(st));
                    lemma_prepend_wf(
                        lex_tok(s, st, TokenKind::Float),
                        spec_tokenize_from(s, lex_emit(st)),
                    );
                } else {
                    lemma_tokenize_wf(s, lex_consume(st, ScanMode::Float));
                }
            },
            ScanMode::Atom => {
                if !is_atom_char(c) {
                    lemma_tokenize_wf(s, lex_emit(st));
                    lemma_prepend_wf(
                        lex_tok(s, st, TokenKind::Atom),
                        spec_tokenize_from(s, lex_emit(st)),
                    );
                } else {
                    lemma_tokenize_wf(s, lex_consume(st, ScanMode::Atom));
                }
            },
            ScanMode::CharLit => {
                if c == '\'' {
                    let st2 = lex_consume(st, ScanMode::Start);
                    lemma_tokenize_wf(s, lex_emit(st2));
                    lemma_prepend_wf(
                        lex_tok(s, st2, TokenKind::CharLit),
                        spec_tokenize_from(s, lex_emit(st2)),
                    );
                } else {
                    lemma_tokenize_wf(s, lex_consume(st, ScanMode::CharLit));
                }
            },
            ScanMode::StringLit => {
                if c == '"' {
                    let st2 = lex_consume(st, ScanMode::Start);
                    lemma_tokenize_wf(s, lex_emit(st2));
                    lemma_prepend_wf(
                        lex_tok(s, st2, TokenKind::StringLit),
                        spec_tokenize_from(s, lex_emit(st2)),
                    );
                } else {
                    lemma_tokenize_wf(s, lex_consume(st, ScanMode::StringLit));
                }
            },
            ScanMode::Symbol => {
                if spec_kind_of(s.subrange(st.start, st.cursor + 1)) == TokenKind::Identifier {
                    lemma_tokenize_wf(s, lex_emit(st));
                    lemma_prepend_wf(
                        lex_tok(s, st, spec_kind_of(s.subrange(st.start, st.cursor))),
                        spec_tokenize_from(s, lex_emit(st)),
                    );
                } else {
                    lemma_tokenize_wf(s, lex_consume(st, ScanMode::Symbol));
                }
            },
            ScanMode::Comment => {
                if c == '\n' {
                    lemma_tokenize_wf(
                        s,
                        LexState {
                            cursor: st.cursor + 1,
                            start: st.cursor + 1,
                            line: st.line + 1,
                            col: 1,
                            mode: ScanMode::Start,
                        },
                    );
                } else {
                    lemma_tokenize_wf(s, lex_consume(st, ScanMode::Comment));
                }
            },
        }
    }
}

/// After emitting the pending token of `pre` inside the scan loop, the
/// accumulated views still prepend to the remaining spec tokens.
proof fn lemma_emit_step(
    src: Seq<char>,
    pre: LexState,
    kind: TokenKind,
    pre_toks: Seq<Token>,
    now_toks: Seq<Token>,
    base_len: int,
)
    requires
        0 <= base_len <= pre_toks.len(),
        now_toks.len() == pre_toks.len() + 1,
        forall|i: int| 0 <= i < pre_toks.len() ==> now_toks[i] == pre_toks[i],
        now_toks.last()@ == lex_tok(src, pre, kind),
    ensures
        toks_view(now_toks.skip(base_len)) == toks_view(pre_toks.skip(base_len)).push(
            lex_tok(src, pre, kind),
        ),
        forall|rest: Seq<SpecToken>|
            toks_view(pre_toks.skip(base_len)) + (seq![lex_tok(src, pre, kind)] + rest)
                == #[trigger] (toks_view(now_toks.skip(base_len)) + rest),
{
    assert(now_toks.skip(base_len) =~= pre_toks.skip(base_len).push(now_toks.last()));
    assert(toks_view(now_toks.skip(base_len)) =~= toks_view(pre_toks.skip(base_len)).push(
        lex_tok(src, pre, kind),
    ));
    assert forall|rest: Seq<SpecToken>|
        toks_view(pre_toks.skip(base_len)) + (seq![lex_tok(src, pre, kind)] + rest)
            == #[trigger] (toks_view(now_toks.skip(base_len)) + rest) by {
        assert(toks_view(pre_toks.skip(base_len)) + (seq![lex_tok(src, pre, kind)] + rest)
            =~= toks_view(now_toks.skip(base_len)) + rest);
    }
}


} // verus!
