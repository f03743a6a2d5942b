//! The executable scanner: owns one source buffer, a cursor, the token
//! list under construction, and the diagnostics for this scan.
//!
//! Every method is proved against the mathematical model in `model`:
//! `scan_tokens` produces exactly `scan_result(source)`.

use vstd::prelude::*;
use vstd::string::*;

use crate::errors::{errors_model, CompileError};
use crate::model::{
    digit_run_end, find_char, ident_run_end, is_alnum_char, is_alpha_char, is_digit_char,
    keyword_of, lemma_digit_run_end_step, lemma_find_char_step, lemma_ident_run_end_step,
    lemma_scan_step_bounds, newline_count, number_step, opt_error_seq, opt_token_seq, scan_from,
    scan_result, scan_step, string_step,
};
use crate::token::{tokens_model, Literal, LiteralModel, Token, TokenModel, TokenType};

verus! {

/// A scanner for one source buffer. It is constructed fresh per buffer and
/// owns its diagnostics, so separate scans cannot influence one another.
pub struct Scanner {
    pub tokens: Vec<Token>,
    pub errors: Vec<CompileError>,
    pub source: String,
    pub start: usize,
    pub current: usize,
    pub line: usize,
}

impl Scanner {
    /// The scanner's cursor invariant: the token start never passes the
    /// cursor, the cursor never passes the end of the buffer, and the line
    /// count stays 1-based and bounded by how much was consumed.
    pub open spec fn wf(self) -> bool {
        &&& self.start <= self.current <= self.source@.len() < usize::MAX
        &&& 1 <= self.line <= 1 + self.current
    }

    /// A fresh scanner over `source`, positioned at the first character of
    /// line 1, with no tokens and no diagnostics yet.
    pub fn new(source: String) -> (s: Scanner)
        requires
            source@.len() < usize::MAX,
        ensures
            s.wf(),
            s.source == source,
            s.tokens@ == Seq::<Token>::empty(),
            s.errors@ == Seq::<CompileError>::empty(),
            s.start == 0,
            s.current == 0,
            s.line == 1,
    {
        Scanner { source, tokens: Vec::new(), errors: Vec::new(), start: 0, current: 0, line: 1 }
    }

    /// Scan the whole buffer: afterwards the token list and the diagnostic
    /// list are exactly what the model prescribes for this source text.
    pub fn scan_tokens(&mut self)
        requires
            old(self).wf(),
            old(self).start == 0,
            old(self).current == 0,
            old(self).line == 1,
            old(self).tokens@ == Seq::<Token>::empty(),
            old(self).errors@ == Seq::<CompileError>::empty(),
        ensures
            final(self).source == old(self).source,
            tokens_model(final(self).tokens@) == scan_result(old(self).source@).tokens,
            errors_model(final(self).errors@) == scan_result(old(self).source@).errors,
    {
        let ghost src = self.source@;
        proof {
            assert(tokens_model(self.tokens@) + scan_from(src, 0, 1).tokens =~= scan_from(
                src,
                0,
                1,
            ).tokens);
            assert(errors_model(self.errors@) + scan_from(src, 0, 1).errors =~= scan_from(
                src,
                0,
                1,
            ).errors);
        }
        while !self.is_at_end()
            invariant
                self.wf(),
                self.source == old(self).source,
                self.source@ == src,
                tokens_model(self.tokens@) + scan_from(
                    src,
                    self.current as int,
                    self.line as nat,
                ).tokens == scan_result(src).tokens,
                errors_model(self.errors@) + scan_from(
                    src,
                    self.current as int,
                    self.line as nat,
                ).errors == scan_result(src).errors,
            decreases src.len() - self.current,
        {
            self.start = self.current;
            let ghost pre = *self;
            let ghost st = scan_step(src, pre.current as int, pre.line as nat);
            proof {
                lemma_scan_step_bounds(src, pre.current as int, pre.line as nat);
            }
            let result = self.scan_token();
            if let Err(e) = result {
                self.errors.push(e);
            }
            proof {
                let rest = scan_from(src, st.next, st.line);
                assert(scan_from(src, pre.current as int, pre.line as nat).tokens
                    == opt_token_seq(st.token) + rest.tokens);
                assert(scan_from(src, pre.current as int, pre.line as nat).errors
                    == opt_error_seq(st.error) + rest.errors);
                assert(tokens_model(self.tokens@) == tokens_model(pre.tokens@) + opt_token_seq(
                    st.token,
                ));
                assert(errors_model(self.errors@) =~= errors_model(pre.errors@) + opt_error_seq(
                    st.error,
                ));
                assert((tokens_model(pre.tokens@) + opt_token_seq(st.token)) + rest.tokens
                    =~= tokens_model(pre.tokens@) + (opt_token_seq(st.token) + rest.tokens));
                assert((errors_model(pre.errors@) + opt_error_seq(st.error)) + rest.errors
                    =~= errors_model(pre.errors@) + (opt_error_seq(st.error) + rest.errors));
            }
        }
        let ghost pre = *self;
        let token = Token {
            kind: TokenType::Eof,
            lexeme: String::new(),
            literal: None,
            line: self.line,
        };
        let ghost tokm = token@;
        self.tokens.push(token);
        proof {
            assert(scan_from(src, pre.current as int, pre.line as nat).tokens =~= seq![
                crate::model::eof_token(pre.line as nat),
            ]);
            assert(scan_from(src, pre.current as int, pre.line as nat).errors
                =~= Seq::<crate::errors::ErrorModel>::empty());
            assert(tokm == crate::model::eof_token(pre.line as nat));
            assert(tokens_model(self.tokens@) =~= tokens_model(pre.tokens@) + seq![tokm]);
            assert(errors_model(pre.errors@) + Seq::<crate::errors::ErrorModel>::empty()
                =~= errors_model(pre.errors@));
        }
    }

    /// The aggregate error signal for this scan: whether any diagnostic
    /// has been recorded.
    pub fn has_error(&self) -> (r: bool)
        ensures
            r == (self.errors@.len() > 0),
    {
        self.errors.len() > 0
    }

    fn is_at_end(&self) -> (r: bool)
        ensures
            r == (self.current >= self.source@.len()),
    {
        self.current >= self.source.as_str().unicode_len()
    }

    /// Recognize one lexical unit starting at the cursor: the state change,
    /// the token appended (if any) and the diagnostic returned (if any) are
    /// exactly one `scan_step` of the model.
    fn scan_token(&mut self) -> (r: Result<(), CompileError>)
        requires
            old(self).wf(),
            old(self).start == old(self).current,
            old(self).current < old(self).source@.len(),
        ensures
            ({
                let st = scan_step(old(self).source@, old(self).current as int, old(self).line as nat);
                &&& final(self).wf()
                &&& final(self).source == old(self).source
                &&& final(self).start == old(self).start
                &&& final(self).errors == old(self).errors
                &&& final(self).current == st.next
                &&& final(self).line == st.line
                &&& tokens_model(final(self).tokens@) == tokens_model(old(self).tokens@)
                    + opt_token_seq(st.token)
                &&& match r {
                    Ok(_) => st.error is None,
                    Err(e) => st.error == Some(e@) && st.token is None,
                }
            }),
    {
        let ghost src = self.source@;
        let ghost pos = self.current as int;
        let c = self.advance();
        match c {
            '(' => self.add_token(TokenType::LeftParen),
            ')' => self.add_token(TokenType::RightParen),
            '{' => self.add_token(TokenType::LeftBrace),
            '}' => self.add_token(TokenType::RightBrace),
            ',' => self.add_token(TokenType::Comma),
            '.' => self.add_token(TokenType::Dot),
            '-' => self.add_token(TokenType::Minus),
            '+' => self.add_token(TokenType::Plus),
            ';' => self.add_token(TokenType::Semicolon),
            '*' => self.add_token(TokenType::Star),
            '!' => {
                let token = if self.match_token('=') {
                    TokenType::BangEqual
                } else {
                    TokenType::Bang
                };
                self.add_token(token);
            },
            '=' => {
                let token = if self.match_token('=') {
                    TokenType::EqualEqual
                } else {
                    TokenType::Equal
                };
                self.add_token(token);
            },
            '<' => {
                let token = if self.match_token('=') {
                    TokenType::LessEqual
                } else {
                    TokenType::Less
                };
                self.add_token(token);
            },
            '>' => {
                let token = if self.match_token('=') {
                    TokenType::GreaterEqual
                } else {
                    TokenType::Greater
                };
                self.add_token(token);
            },
            '/' => {
                if self.match_token('/') {
                    // A comment is discarded up to the end of the line.
                    loop
                        invariant
                            self.wf(),
                            self.source == old(self).source,
                            self.source@ == src,
                            0 <= pos,
                            pos + 2 <= self.current <= src.len(),
                            src.len() < usize::MAX,
                            self.tokens == old(self).tokens,
                            self.errors == old(self).errors,
                            self.start == old(self).start,
                            self.line == old(self).line,
                            find_char(src, pos + 2, '\n') == find_char(
                                src,
                                self.current as int,
                                '\n',
                            ),
                        ensures
                            self.wf(),
                            self.source == old(self).source,
                            self.source@ == src,
                            self.tokens == old(self).tokens,
                            self.errors == old(self).errors,
                            self.start == old(self).start,
                            self.line == old(self).line,
                            pos + 2 <= self.current <= src.len(),
                            self.current as int == find_char(src, pos + 2, '\n'),
                        decreases src.len() - self.current,
                    {
                        match self.peek() {
                            Some(pc) => {
                                if pc == '\n' {
                                    proof {
                                        assert(find_char(src, self.current as int, '\n')
                                            == self.current as int);
                                    }
                                    break ;
                                }
                                proof {
                                    lemma_find_char_step(src, self.current as int, '\n');
                                }
                                let _ = self.advance();
                            },
                            None => {
                                proof {
                                    assert(find_char(src, self.current as int, '\n')
                                        == self.current as int);
                                }
                                break ;
                            },
                        }
                    }
                    proof {
                        assert(tokens_model(self.tokens@) =~= tokens_model(old(self).tokens@)
                            + opt_token_seq(None));
                    }
                } else {
                    self.add_token(TokenType::Slash);
                }
            },
            ' ' | '\r' | '\t' => {
                // Whitespace is discarded silently.
                proof {
                    assert(tokens_model(self.tokens@) =~= tokens_model(old(self).tokens@)
                        + opt_token_seq(None));
                }
            },
            '\n' => {
                self.line = self.line + 1;
                proof {
                    assert(tokens_model(self.tokens@) =~= tokens_model(old(self).tokens@)
                        + opt_token_seq(None));
                }
            },
            '"' => {
                return self.parse_string();
            },
            _ => {
                if Scanner::is_digit(Some(c)) {
                    return self.parse_number();
                }
                if Scanner::is_alpha(Some(c)) {
                    return self.parse_identifier();
                }
                proof {
                    assert(tokens_model(self.tokens@) =~= tokens_model(old(self).tokens@)
                        + opt_token_seq(None));
                }
                return Err(
                    CompileError::new(
                        self.line,
                        String::new(),
                        String::from_str("Unexpected character."),
                    ),
                );
            },
        }
        Ok(())
    }

    /// Append a token with no literal payload, spanning `start..current`.
    fn add_token(&mut self, kind: TokenType)
        requires
            old(self).start <= old(self).current <= old(self).source@.len(),
        ensures
            final(self).source == old(self).source,
            final(self).errors == old(self).errors,
            final(self).start == old(self).start,
            final(self).current == old(self).current,
            final(self).line == old(self).line,
            tokens_model(final(self).tokens@) == tokens_model(old(self).tokens@) + seq![
                TokenModel {
                    kind,
                    lexeme: old(self).source@.subrange(
                        old(self).start as int,
                        old(self).current as int,
                    ),
                    literal: None,
                    line: old(self).line as nat,
                },
            ],
    {
        self.add_token_literal(kind, None);
    }

    /// Append a token spanning `start..current` carrying `literal`.
    fn add_token_literal(&mut self, kind: TokenType, literal: Option<Literal>)
        requires
            old(self).start <= old(self).current <= old(self).source@.len(),
        ensures
            final(self).source == old(self).source,
            final(self).errors == old(self).errors,
            final(self).start == old(self).start,
            final(self).current == old(self).current,
            final(self).line == old(self).line,
            tokens_model(final(self).tokens@) == tokens_model(old(self).tokens@) + seq![
                TokenModel {
                    kind,
                    lexeme: old(self).source@.subrange(
                        old(self).start as int,
                        old(self).current as int,
                    ),
                    literal: match literal {
                        Some(l) => Some(l@),
                        None => None,
                    },
                    line: old(self).line as nat,
                },
            ],
    {
        let text = self.source.as_str().substring_char(self.start, self.current);
        let token = Token {
            kind,
            lexeme: String::from_str(text),
            literal,
            line: self.line,
        };
        let ghost tokm = token@;
        self.tokens.push(token);
        proof {
            assert(tokens_model(self.tokens@) =~= tokens_model(old(self).tokens@) + seq![tokm]);
        }
    }

    /// Consume and return the character at the cursor.
    fn advance(&mut self) -> (c: char)
        requires
            old(self).current < old(self).source@.len() < usize::MAX,
        ensures
            c == old(self).source@[old(self).current as int],
            final(self).current == old(self).current + 1,
            final(self).source == old(self).source,
            final(self).tokens == old(self).tokens,
            final(self).errors == old(self).errors,
            final(self).start == old(self).start,
            final(self).line == old(self).line,
    {
        let c = self.source.as_str().get_char(self.current);
        self.current = self.current + 1;
        c
    }

    /// Scan the remainder of a string literal; the opening quote sits at
    /// `start` and has already been consumed.
    fn parse_string(&mut self) -> (r: Result<(), CompileError>)
        requires
            old(self).wf(),
            old(self).start + 1 == old(self).current,
            old(self).start < old(self).source@.len(),
            old(self).source@[old(self).start as int] == '"',
        ensures
            ({
                let st = string_step(old(self).source@, old(self).start as int, old(self).line as nat);
                &&& final(self).wf()
                &&& final(self).source == old(self).source
                &&& final(self).start == old(self).start
                &&& final(self).errors == old(self).errors
                &&& final(self).current == st.next
                &&& final(self).line == st.line
                &&& tokens_model(final(self).tokens@) == tokens_model(old(self).tokens@)
                    + opt_token_seq(st.token)
                &&& match r {
                    Ok(_) => st.error is None,
                    Err(e) => st.error == Some(e@) && st.token is None,
                }
            }),
    {
        let ghost src = self.source@;
        let ghost first = self.current as int;
        let ghost line0 = self.line as nat;
        proof {
            crate::model::lemma_newline_count_bounds(src, first, first);
        }
        loop
            invariant
                self.wf(),
                self.source == old(self).source,
                self.source@ == src,
                0 <= first <= self.current <= src.len(),
                src.len() < usize::MAX,
                self.tokens == old(self).tokens,
                self.errors == old(self).errors,
                self.start == old(self).start,
                find_char(src, first, '"') == find_char(src, self.current as int, '"'),
                self.line as nat == line0 + newline_count(src, first, self.current as int),
                line0 <= 1 + old(self).current,
            ensures
                self.wf(),
                self.source == old(self).source,
                self.source@ == src,
                self.tokens == old(self).tokens,
                self.errors == old(self).errors,
                self.start == old(self).start,
                0 <= first <= self.current <= src.len(),
                self.line as nat == line0 + newline_count(src, first, self.current as int),
                find_char(src, first, '"') == self.current as int,
            decreases src.len() - self.current,
        {
            match self.peek() {
                Some(pc) => {
                    if pc == '"' {
                        proof {
                            assert(find_char(src, self.current as int, '"')
                                == self.current as int);
                        }
                        break ;
                    }
                    proof {
                        lemma_find_char_step(src, self.current as int, '"');
                        crate::model::lemma_newline_count_bounds(
                            src,
                            first,
                            self.current as int + 1,
                        );
                    }
                    if pc == '\n' {
                        self.line = self.line + 1;
                    }
                    let _ = self.advance();
                },
                None => {
                    proof {
                        assert(find_char(src, self.current as int, '"') == self.current as int);
                    }
                    break ;
                },
            }
        }
        let ghost close = find_char(src, first, '"');
        proof {
            assert(close == self.current as int);
            crate::model::lemma_newline_count_bounds(src, first, close);
        }
        if self.is_at_end() {
            proof {
                assert(tokens_model(self.tokens@) =~= tokens_model(old(self).tokens@)
                    + opt_token_seq(None));
            }
            return Err(
                CompileError::new(
                    self.line,
                    String::new(),
                    String::from_str("Unterminated string."),
                ),
            );
        }
        let _ = self.advance();
        let text = self.source.as_str().substring_char(self.start + 1, self.current - 1);
        let value = String::from_str(text);
        self.add_token_literal(TokenType::StringValue, Some(Literal::Str(value)));
        Ok(())
    }

    /// Scan the remainder of a number literal; the first digit sits at
    /// `start` and has already been consumed.
    fn parse_number(&mut self) -> (r: Result<(), CompileError>)
        requires
            old(self).wf(),
            old(self).start + 1 == old(self).current,
            old(self).start < old(self).source@.len(),
            is_digit_char(old(self).source@[old(self).start as int]),
        ensures
            ({
                let st = number_step(old(self).source@, old(self).start as int, old(self).line as nat);
                &&& final(self).wf()
                &&& final(self).source == old(self).source
                &&& final(self).start == old(self).start
                &&& final(self).errors == old(self).errors
                &&& final(self).current == st.next
                &&& final(self).line == st.line
                &&& tokens_model(final(self).tokens@) == tokens_model(old(self).tokens@)
                    + opt_token_seq(st.token)
                &&& r is Ok
                &&& st.error is None
            }),
    {
        let ghost src = self.source@;
        let ghost first = self.current as int;
        while Scanner::is_digit(self.peek())
            invariant
                self.wf(),
                self.source == old(self).source,
                self.source@ == src,
                0 <= first <= self.current <= src.len(),
                src.len() < usize::MAX,
                self.tokens == old(self).tokens,
                self.errors == old(self).errors,
                self.start == old(self).start,
                self.line == old(self).line,
                digit_run_end(src, first) == digit_run_end(src, self.current as int),
            decreases src.len() - self.current,
        {
            proof {
                lemma_digit_run_end_step(src, self.current as int);
            }
            let _ = self.advance();
        }
        let ghost d1 = digit_run_end(src, first);
        proof {
            assert(digit_run_end(src, self.current as int) == self.current as int);
            assert(d1 == self.current as int);
        }
        let has_dot = match self.peek() {
            Some(pc) => pc == '.',
            None => false,
        };
        if has_dot && Scanner::is_digit(self.peek_next()) {
            let _ = self.advance();
            proof {
                lemma_digit_run_end_step(src, self.current as int);
            }
            while Scanner::is_digit(self.peek())
                invariant
                    self.wf(),
                    self.source == old(self).source,
                    self.source@ == src,
                    0 <= d1,
                    d1 + 1 <= self.current <= src.len(),
                    src.len() < usize::MAX,
                    self.tokens == old(self).tokens,
                    self.errors == old(self).errors,
                    self.start == old(self).start,
                    self.line == old(self).line,
                    d1 + 2 <= src.len(),
                    digit_run_end(src, d1 + 2) == digit_run_end(src, self.current as int),
                decreases src.len() - self.current,
            {
                proof {
                    lemma_digit_run_end_step(src, self.current as int);
                }
                let _ = self.advance();
            }
            proof {
                assert(digit_run_end(src, self.current as int) == self.current as int);
            }
        }
        self.add_token_literal_number();
        Ok(())
    }

    /// Append the number token for the span `start..current`: the lexeme
    /// and the literal payload are the same digit text.
    fn add_token_literal_number(&mut self)
        requires
            old(self).start <= old(self).current <= old(self).source@.len(),
        ensures
            final(self).source == old(self).source,
            final(self).errors == old(self).errors,
            final(self).start == old(self).start,
            final(self).current == old(self).current,
            final(self).line == old(self).line,
            tokens_model(final(self).tokens@) == tokens_model(old(self).tokens@) + seq![
                TokenModel {
                    kind: TokenType::Number,
                    lexeme: old(self).source@.subrange(
                        old(self).start as int,
                        old(self).current as int,
                    ),
                    literal: Some(
                        LiteralModel::Number(
                            old(self).source@.subrange(
                                old(self).start as int,
                                old(self).current as int,
                            ),
                        ),
                    ),
                    line: old(self).line as nat,
                },
            ],
    {
        let text = self.source.as_str().substring_char(self.start, self.current);
        let value = String::from_str(text);
        self.add_token_literal(TokenType::Number, Some(Literal::Number(value)));
    }

    /// Scan the remainder of an identifier or keyword; its first character
    /// sits at `start` and has already been consumed.
    fn parse_identifier(&mut self) -> (r: Result<(), CompileError>)
        requires
            old(self).wf(),
            old(self).start + 1 == old(self).current,
            old(self).start < old(self).source@.len(),
            is_alpha_char(old(self).source@[old(self).start as int]),
        ensures
            ({
                let st = crate::model::ident_step(
                    old(self).source@,
                    old(self).start as int,
                    old(self).line as nat,
                );
                &&& final(self).wf()
                &&& final(self).source == old(self).source
                &&& final(self).start == old(self).start
                &&& final(self).errors == old(self).errors
                &&& final(self).current == st.next
                &&& final(self).line == st.line
                &&& tokens_model(final(self).tokens@) == tokens_model(old(self).tokens@)
                    + opt_token_seq(st.token)
                &&& r is Ok
                &&& st.error is None
            }),
    {
        let ghost src = self.source@;
        let ghost first = self.current as int;
        while Scanner::is_alphanumeric(self.peek())
            invariant
                self.wf(),
                self.source == old(self).source,
                self.source@ == src,
                0 <= first <= self.current <= src.len(),
                src.len() < usize::MAX,
                self.tokens == old(self).tokens,
                self.errors == old(self).errors,
                self.start == old(self).start,
                self.line == old(self).line,
                ident_run_end(src, first) == ident_run_end(src, self.current as int),
            decreases src.len() - self.current,
        {
            proof {
                lemma_ident_run_end_step(src, self.current as int);
            }
            let _ = self.advance();
        }
        proof {
            assert(ident_run_end(src, self.current as int) == self.current as int);
        }
        let text = self.source.as_str().substring_char(self.start, self.current);
        let text = String::from_str(text);
        let token_type = Scanner::keyword_type(&text);
        match token_type {
            Some(kw_token_type) => self.add_token(kw_token_type),
            None => self.add_token_literal(
                TokenType::Identifier,
                Some(Literal::Identifier(text)),
            ),
        }
        Ok(())
    }

    /// Look the exact lexeme up in the keyword table.
    fn keyword_type(text: &String) -> (r: Option<TokenType>)
        ensures
            r == keyword_of(text@),
    {
        if *text == String::from_str("and") {
            Some(TokenType::And)
        } else if *text == String::from_str("class") {
            Some(TokenType::Class)
        } else if *text == String::from_str("else") {
            Some(TokenType::Else)
        } else if *text == String::from_str("false") {
            Some(TokenType::False)
        } else if *text == String::from_str("for") {
            Some(TokenType::For)
        } else if *text == String::from_str("fun") {
            Some(TokenType::Fun)
        } else if *text == String::from_str("if") {
            Some(TokenType::If)
        } else if *text == String::from_str("nil") {
            Some(TokenType::Nil)
        } else if *text == String::from_str("or") {
            Some(TokenType::Or)
        } else if *text == String::from_str("print") {
            Some(TokenType::Print)
        } else if *text == String::from_str("return") {
            Some(TokenType::Return)
        } else if *text == String::from_str("super") {
            Some(TokenType::Super)
        } else if *text == String::from_str("this") {
            Some(TokenType::This)
        } else if *text == String::from_str("true") {
            Some(TokenType::True)
        } else if *text == String::from_str("var") {
            Some(TokenType::Var)
        } else if *text == String::from_str("while") {
            Some(TokenType::While)
        } else {
            None
        }
    }

    /// Consume the character at the cursor only if it is `expected`.
    fn match_token(&mut self, expected: char) -> (r: bool)
        requires
            old(self).current <= old(self).source@.len() < usize::MAX,
        ensures
            r == (old(self).current < old(self).source@.len() && old(self).source@[old(
                self,
            ).current as int] == expected),
            final(self).current == if r {
                old(self).current + 1
            } else {
                old(self).current as int
            },
            final(self).source == old(self).source,
            final(self).tokens == old(self).tokens,
            final(self).errors == old(self).errors,
            final(self).start == old(self).start,
            final(self).line == old(self).line,
    {
        if self.is_at_end() {
            return false;
        }
        if self.source.as_str().get_char(self.current) != expected {
            return false;
        }
        self.current = self.current + 1;
        true
    }

    /// Whether `c` holds a decimal digit.
    pub fn is_digit(c: Option<char>) -> (r: bool)
        ensures
            r == match c {
                Some(cc) => is_digit_char(cc),
                None => false,
            },
    {
        match c {
            Some(c) => c >= '0' && c <= '9',
            _ => false,
        }
    }

    /// Whether `c` holds an ASCII letter or underscore.
    pub fn is_alpha(c: Option<char>) -> (r: bool)
        ensures
            r == match c {
                Some(cc) => is_alpha_char(cc),
                None => false,
            },
    {
        match c {
            Some(c) => (c >= 'a' && c <= 'z') || (c >= 'A' && c <= 'Z') || c == '_',
            _ => false,
        }
    }

    /// Whether `c` holds a character that may continue an identifier.
    pub fn is_alphanumeric(c: Option<char>) -> (r: bool)
        ensures
            r == match c {
                Some(cc) => is_alnum_char(cc),
                None => false,
            },
    {
        Scanner::is_alpha(c) || Scanner::is_digit(c)
    }

    /// The character at the cursor, if any.
    fn peek(&self) -> (r: Option<char>)
        requires
            self.current <= self.source@.len(),
        ensures
            r == if self.current < self.source@.len() {
                Some(self.source@[self.current as int])
            } else {
                None::<char>
            },
    {
        if self.is_at_end() {
            return None;
        }
        Some(self.source.as_str().get_char(self.current))
    }

    /// The character one past the cursor, or the NUL sentinel when the
    /// buffer ends there.
    fn peek_next(&self) -> (r: Option<char>)
        requires
            self.current <= self.source@.len() < usize::MAX,
        ensures
            r == if self.current + 1 < self.source@.len() {
                Some(self.source@[self.current as int + 1])
            } else {
                Some('\0')
            },
    {
        if self.current + 1 >= self.source.as_str().unicode_len() {
            return Some('\0');
        }
        Some(self.source.as_str().get_char(self.current + 1))
    }
}

} // verus!
