//! The mathematical model of a scan.
//!
//! `scan_result` maps a source buffer (a sequence of characters) to the
//! ordered token list and diagnostic list the scanner must produce. The
//! executable scanner in `scanner` is proved to return exactly this model's
//! result, so every property proved here holds of the running code.

use vstd::prelude::*;

use crate::errors::ErrorModel;
use crate::token::{LiteralModel, TokenModel, TokenType};

verus! {

// ---------------------------------------------------------------------------
// Character classes (ASCII only, as the language defines them).
// ---------------------------------------------------------------------------

/// A decimal digit.
pub open spec fn is_digit_char(c: char) -> bool {
    '0' <= c && c <= '9'
}

/// An ASCII letter or underscore: the characters that may start an
/// identifier.
pub open spec fn is_alpha_char(c: char) -> bool {
    ('a' <= c && c <= 'z') || ('A' <= c && c <= 'Z') || c == '_'
}

/// A character that may continue an identifier.
pub open spec fn is_alnum_char(c: char) -> bool {
    is_alpha_char(c) || is_digit_char(c)
}

// ---------------------------------------------------------------------------
// The keyword table.
// ---------------------------------------------------------------------------

/// The static mapping from a reserved word's exact spelling to its token
/// kind; any other spelling is an ordinary identifier.
pub open spec fn keyword_of(s: Seq<char>) -> Option<TokenType> {
    if s == "and"@ {
        Some(TokenType::And)
    } else if s == "class"@ {
        Some(TokenType::Class)
    } else if s == "else"@ {
        Some(TokenType::Else)
    } else if s == "false"@ {
        Some(TokenType::False)
    } else if s == "for"@ {
        Some(TokenType::For)
    } else if s == "fun"@ {
        Some(TokenType::Fun)
    } else if s == "if"@ {
        Some(TokenType::If)
    } else if s == "nil"@ {
        Some(TokenType::Nil)
    } else if s == "or"@ {
        Some(TokenType::Or)
    } else if s == "print"@ {
        Some(TokenType::Print)
    } else if s == "return"@ {
        Some(TokenType::Return)
    } else if s == "super"@ {
        Some(TokenType::Super)
    } else if s == "this"@ {
        Some(TokenType::This)
    } else if s == "true"@ {
        Some(TokenType::True)
    } else if s == "var"@ {
        Some(TokenType::Var)
    } else if s == "while"@ {
        Some(TokenType::While)
    } else {
        None
    }
}

// ---------------------------------------------------------------------------
// Cursor movement helpers.
// ---------------------------------------------------------------------------

/// The end of the maximal run of digits starting at `i`: the first index at
/// or after `i` holding a non-digit, or the buffer length.
pub open spec fn digit_run_end(src: Seq<char>, i: int) -> int
    decreases src.len() - i,
        when 0 <= i <= src.len()
{
    if i == src.len() || !is_digit_char(src[i]) {
        i
    } else {
        digit_run_end(src, i + 1)
    }
}

/// The end of the maximal run of identifier characters starting at `i`.
pub open spec fn ident_run_end(src: Seq<char>, i: int) -> int
    decreases src.len() - i,
        when 0 <= i <= src.len()
{
    if i == src.len() || !is_alnum_char(src[i]) {
        i
    } else {
        ident_run_end(src, i + 1)
    }
}

/// The first index at or after `i` holding character `c`, or the buffer
/// length if `c` does not occur there.
pub open spec fn find_char(src: Seq<char>, i: int, c: char) -> int
    decreases src.len() - i,
        when 0 <= i <= src.len()
{
    if i == src.len() || src[i] == c {
        i
    } else {
        find_char(src, i + 1, c)
    }
}

/// How many newline characters lie in `src[i..j)`.
pub open spec fn newline_count(src: Seq<char>, i: int, j: int) -> nat
    decreases j - i,
        when 0 <= i <= j <= src.len()
{
    if j <= i {
        0
    } else {
        newline_count(src, i, j - 1) + (if src[j - 1] == '\n' {
            1nat
        } else {
            0nat
        })
    }
}

/// Where a number literal starting at the digit at `pos` ends: the maximal
/// digit run, extended across a decimal point only when at least one digit
/// follows it.
pub open spec fn number_end(src: Seq<char>, pos: int) -> int {
    let d1 = digit_run_end(src, pos + 1);
    if d1 < src.len() && src[d1] == '.' && d1 + 1 < src.len() && is_digit_char(src[d1 + 1]) {
        digit_run_end(src, d1 + 2)
    } else {
        d1
    }
}

// ---------------------------------------------------------------------------
// One dispatch step.
// ---------------------------------------------------------------------------

/// The effect of recognizing one lexical unit at `pos`: where the cursor
/// moves, the line after the step, and at most one token or one diagnostic.
pub ghost struct ScanStep {
    pub next: int,
    pub line: nat,
    pub token: Option<TokenModel>,
    pub error: Option<ErrorModel>,
}

/// A step that emits one token spanning `src[pos..end)` with no payload.
pub open spec fn step_token(
    src: Seq<char>,
    pos: int,
    end: int,
    line: nat,
    kind: TokenType,
) -> ScanStep {
    ScanStep {
        next: end,
        line,
        token: Some(TokenModel { kind, lexeme: src.subrange(pos, end), literal: None, line }),
        error: None,
    }
}

/// A step that consumes input without emitting anything.
pub open spec fn step_skip(next: int, line: nat) -> ScanStep {
    ScanStep { next, line, token: None, error: None }
}

/// A step that records one diagnostic and emits no token.
pub open spec fn step_error(next: int, line: nat, message: Seq<char>) -> ScanStep {
    ScanStep {
        next,
        line,
        token: None,
        error: Some(ErrorModel { line, location: Seq::empty(), message }),
    }
}

/// The string-literal step: scan to the closing quote, counting embedded
/// newlines; an unterminated string yields a diagnostic and no token.
pub open spec fn string_step(src: Seq<char>, pos: int, line: nat) -> ScanStep {
    let close = find_char(src, pos + 1, '"');
    let line2 = (line + newline_count(src, pos + 1, close)) as nat;
    if close == src.len() {
        step_error(src.len() as int, line2, "Unterminated string."@)
    } else {
        ScanStep {
            next: close + 1,
            line: line2,
            token: Some(
                TokenModel {
                    kind: TokenType::StringValue,
                    lexeme: src.subrange(pos, close + 1),
                    literal: Some(LiteralModel::Str(src.subrange(pos + 1, close))),
                    line: line2,
                },
            ),
            error: None,
        }
    }
}

/// The number-literal step: the consumed span is both the lexeme and the
/// literal payload.
pub open spec fn number_step(src: Seq<char>, pos: int, line: nat) -> ScanStep {
    let end = number_end(src, pos);
    ScanStep {
        next: end,
        line,
        token: Some(
            TokenModel {
                kind: TokenType::Number,
                lexeme: src.subrange(pos, end),
                literal: Some(LiteralModel::Number(src.subrange(pos, end))),
                line,
            },
        ),
        error: None,
    }
}

/// The identifier step: a maximal identifier run, classified through the
/// keyword table.
pub open spec fn ident_step(src: Seq<char>, pos: int, line: nat) -> ScanStep {
    let end = ident_run_end(src, pos + 1);
    let lex = src.subrange(pos, end);
    match keyword_of(lex) {
        Some(kind) => ScanStep {
            next: end,
            line,
            token: Some(TokenModel { kind, lexeme: lex, literal: None, line }),
            error: None,
        },
        None => ScanStep {
            next: end,
            line,
            token: Some(
                TokenModel {
                    kind: TokenType::Identifier,
                    lexeme: lex,
                    literal: Some(LiteralModel::Identifier(lex)),
                    line,
                },
            ),
            error: None,
        },
    }
}

/// One dispatch step of the scan, starting at the character `src[pos]`.
pub open spec fn scan_step(src: Seq<char>, pos: int, line: nat) -> ScanStep
    recommends
        0 <= pos < src.len(),
{
    let c = src[pos];
    if c == '(' {
        step_token(src, pos, pos + 1, line, TokenType::LeftParen)
    } else if c == ')' {
        step_token(src, pos, pos + 1, line, TokenType::RightParen)
    } else if c == '{' {
        step_token(src, pos, pos + 1, line, TokenType::LeftBrace)
    } else if c == '}' {
        step_token(src, pos, pos + 1, line, TokenType::RightBrace)
    } else if c == ',' {
        step_token(src, pos, pos + 1, line, TokenType::Comma)
    } else if c == '.' {
        step_token(src, pos, pos + 1, line, TokenType::Dot)
    } else if c == '-' {
        step_token(src, pos, pos + 1, line, TokenType::Minus)
    } else if c == '+' {
        step_token(src, pos, pos + 1, line, TokenType::Plus)
    } else if c == ';' {
        step_token(src, pos, pos + 1, line, TokenType::Semicolon)
    } else if c == '*' {
        step_token(src, pos, pos + 1, line, TokenType::Star)
    } else if c == '!' {
        if pos + 1 < src.len() && src[pos + 1] == '=' {
            step_token(src, pos, pos + 2, line, TokenType::BangEqual)
        } else {
            step_token(src, pos, pos + 1, line, TokenType::Bang)
        }
    } else if c == '=' {
        if pos + 1 < src.len() && src[pos + 1] == '=' {
            step_token(src, pos, pos + 2, line, TokenType::EqualEqual)
        } else {
            step_token(src, pos, pos + 1, line, TokenType::Equal)
        }
    } else if c == '<' {
        if pos + 1 < src.len() && src[pos + 1] == '=' {
            step_token(src, pos, pos + 2, line, TokenType::LessEqual)
        } else {
            step_token(src, pos, pos + 1, line, TokenType::Less)
        }
    } else if c == '>' {
        if pos + 1 < src.len() && src[pos + 1] == '=' {
            step_token(src, pos, pos + 2, line, TokenType::GreaterEqual)
        } else {
            step_token(src, pos, pos + 1, line, TokenType::Greater)
        }
    } else if c == '/' {
        if pos + 1 < src.len() && src[pos + 1] == '/' {
            // A line comment is discarded up to (not including) the newline.
            step_skip(find_char(src, pos + 2, '\n'), line)
        } else {
            step_token(src, pos, pos + 1, line, TokenType::Slash)
        }
    } else if c == ' ' || c == '\r' || c == '\t' {
        step_skip(pos + 1, line)
    } else if c == '\n' {
        step_skip(pos + 1, (line + 1) as nat)
    } else if c == '"' {
        string_step(src, pos, line)
    } else if is_digit_char(c) {
        number_step(src, pos, line)
    } else if is_alpha_char(c) {
        ident_step(src, pos, line)
    } else {
        step_error(pos + 1, line, "Unexpected character."@)
    }
}

/// Whether `c` can begin a lexical unit (or is silently discarded); any
/// other character is rejected with a diagnostic.
pub open spec fn is_recognized_char(c: char) -> bool {
    c == '(' || c == ')' || c == '{' || c == '}' || c == ',' || c == '.' || c == '-' || c == '+'
        || c == ';' || c == '*' || c == '!' || c == '=' || c == '<' || c == '>' || c == '/'
        || c == ' ' || c == '\r' || c == '\t' || c == '\n' || c == '"' || is_digit_char(c)
        || is_alpha_char(c)
}

// ---------------------------------------------------------------------------
// Bounds lemmas: every step moves the cursor forward and stays in range.
// ---------------------------------------------------------------------------

pub proof fn lemma_digit_run_end_bounds(src: Seq<char>, i: int)
    requires
        0 <= i <= src.len(),
    ensures
        i <= digit_run_end(src, i) <= src.len(),
    decreases src.len() - i,
{
    if i < src.len() && is_digit_char(src[i]) {
        lemma_digit_run_end_bounds(src, i + 1);
    }
}

pub proof fn lemma_ident_run_end_bounds(src: Seq<char>, i: int)
    requires
        0 <= i <= src.len(),
    ensures
        i <= ident_run_end(src, i) <= src.len(),
    decreases src.len() - i,
{
    if i < src.len() && is_alnum_char(src[i]) {
        lemma_ident_run_end_bounds(src, i + 1);
    }
}

pub proof fn lemma_find_char_bounds(src: Seq<char>, i: int, c: char)
    requires
        0 <= i <= src.len(),
    ensures
        i <= find_char(src, i, c) <= src.len(),
    decreases src.len() - i,
{
    if i < src.len() && src[i] != c {
        lemma_find_char_bounds(src, i + 1, c);
    }
}

/// Every dispatch step consumes at least one character and never moves the
/// cursor past the end of the buffer.
pub proof fn lemma_scan_step_bounds(src: Seq<char>, pos: int, line: nat)
    requires
        0 <= pos < src.len(),
    ensures
        pos < scan_step(src, pos, line).next <= src.len(),
{
    let c = src[pos];
    if c == '/' && pos + 1 < src.len() && src[pos + 1] == '/' {
        lemma_find_char_bounds(src, pos + 2, '\n');
    }
    if c == '"' {
        lemma_find_char_bounds(src, pos + 1, '"');
    }
    if is_digit_char(c) {
        lemma_digit_run_end_bounds(src, pos + 1);
        let d1 = digit_run_end(src, pos + 1);
        if d1 + 2 <= src.len() {
            lemma_digit_run_end_bounds(src, d1 + 2);
        }
    }
    if is_alpha_char(c) {
        lemma_ident_run_end_bounds(src, pos + 1);
    }
}

// ---------------------------------------------------------------------------
// The whole scan.
// ---------------------------------------------------------------------------

/// What a whole scan produces: the ordered token list and the ordered
/// diagnostic list.
pub ghost struct ScanOut {
    pub tokens: Seq<TokenModel>,
    pub errors: Seq<ErrorModel>,
}

/// The terminal token: kind `Eof`, an empty lexeme, no payload.
pub open spec fn eof_token(line: nat) -> TokenModel {
    TokenModel { kind: TokenType::Eof, lexeme: Seq::empty(), literal: None, line }
}

pub open spec fn opt_token_seq(t: Option<TokenModel>) -> Seq<TokenModel> {
    match t {
        Some(tok) => seq![tok],
        None => Seq::empty(),
    }
}

pub open spec fn opt_error_seq(e: Option<ErrorModel>) -> Seq<ErrorModel> {
    match e {
        Some(err) => seq![err],
        None => Seq::empty(),
    }
}

/// The scan from position `pos` on line `line` to the end of the buffer,
/// always terminated by exactly one `Eof` token.
pub open spec fn scan_from(src: Seq<char>, pos: int, line: nat) -> ScanOut
    decreases src.len() - pos,
        when 0 <= pos
        via scan_from_decreases
{
    if pos >= src.len() {
        ScanOut { tokens: seq![eof_token(line)], errors: Seq::empty() }
    } else {
        let st = scan_step(src, pos, line);
        let rest = scan_from(src, st.next, st.line);
        ScanOut {
            tokens: opt_token_seq(st.token) + rest.tokens,
            errors: opt_error_seq(st.error) + rest.errors,
        }
    }
}

#[via_fn]
proof fn scan_from_decreases(src: Seq<char>, pos: int, line: nat) {
    if 0 <= pos < src.len() {
        lemma_scan_step_bounds(src, pos, line);
    }
}

/// The model of one whole scan of `src`, starting at the first character on
/// line 1.
pub open spec fn scan_result(src: Seq<char>) -> ScanOut {
    scan_from(src, 0, 1)
}

// ---------------------------------------------------------------------------
// Run lemmas used by the executable sub-scanners' loops.
// ---------------------------------------------------------------------------

/// Consuming one digit does not move the end of the digit run.
pub proof fn lemma_digit_run_end_step(src: Seq<char>, i: int)
    requires
        0 <= i < src.len(),
        is_digit_char(src[i]),
    ensures
        digit_run_end(src, i) == digit_run_end(src, i + 1),
{
}

/// Consuming one identifier character does not move the end of the
/// identifier run.
pub proof fn lemma_ident_run_end_step(src: Seq<char>, i: int)
    requires
        0 <= i < src.len(),
        is_alnum_char(src[i]),
    ensures
        ident_run_end(src, i) == ident_run_end(src, i + 1),
{
}

/// Passing over a character other than `c` does not move the first
/// occurrence of `c`.
pub proof fn lemma_find_char_step(src: Seq<char>, i: int, c: char)
    requires
        0 <= i < src.len(),
        src[i] != c,
    ensures
        find_char(src, i, c) == find_char(src, i + 1, c),
{
}

/// A span holds no more newlines than characters.
pub proof fn lemma_newline_count_bounds(src: Seq<char>, i: int, j: int)
    requires
        0 <= i <= j <= src.len(),
    ensures
        newline_count(src, i, j) <= j - i,
    decreases j - i,
{
    if i < j {
        lemma_newline_count_bounds(src, i, j - 1);
    }
}

// ---------------------------------------------------------------------------
// Laws of the scan.
// ---------------------------------------------------------------------------

/// From any position, the scan's token list is non-empty and ends with the
/// `Eof` token, whose lexeme is empty.
pub proof fn lemma_scan_from_ends_with_eof(src: Seq<char>, pos: int, line: nat)
    requires
        0 <= pos,
    ensures
        scan_from(src, pos, line).tokens.len() >= 1,
        scan_from(src, pos, line).tokens.last().kind == TokenType::Eof,
        scan_from(src, pos, line).tokens.last().lexeme.len() == 0,
    decreases src.len() - pos,
{
    if pos < src.len() {
        lemma_scan_step_bounds(src, pos, line);
        let st = scan_step(src, pos, line);
        lemma_scan_from_ends_with_eof(src, st.next, st.line);
        let rest = scan_from(src, st.next, st.line);
        assert(scan_from(src, pos, line).tokens.last() == rest.tokens.last());
    }
}

/// Law: for every input, the scan's last token has kind `Eof` and an empty
/// lexeme.
pub proof fn lemma_scan_ends_with_eof(src: Seq<char>)
    ensures
        scan_result(src).tokens.len() >= 1,
        scan_result(src).tokens.last().kind == TokenType::Eof,
        scan_result(src).tokens.last().lexeme.len() == 0,
{
    lemma_scan_from_ends_with_eof(src, 0, 1);
}

/// From any position, every token before the final one carries a
/// non-empty lexeme and a kind other than `Eof`.
pub proof fn lemma_scan_from_eof_unique(src: Seq<char>, pos: int, line: nat)
    requires
        0 <= pos,
    ensures
        forall|i: int|
            0 <= i < scan_from(src, pos, line).tokens.len() - 1 ==> {
                &&& (#[trigger] scan_from(src, pos, line).tokens[i]).kind != TokenType::Eof
                &&& scan_from(src, pos, line).tokens[i].lexeme.len() > 0
            },
    decreases src.len() - pos,
{
    if pos < src.len() {
        lemma_scan_step_bounds(src, pos, line);
        let st = scan_step(src, pos, line);
        lemma_scan_from_eof_unique(src, st.next, st.line);
        lemma_scan_from_ends_with_eof(src, st.next, st.line);
        let rest = scan_from(src, st.next, st.line);
        if st.token is Some {
            let tok = st.token.unwrap();
            assert(tok.kind != TokenType::Eof);
            assert(tok.lexeme =~= src.subrange(pos, st.next));
            assert(scan_from(src, pos, line).tokens[0] == tok);
            assert(forall|i: int|
                1 <= i < scan_from(src, pos, line).tokens.len() ==> scan_from(
                    src,
                    pos,
                    line,
                ).tokens[i] == rest.tokens[i - 1]);
        }
    }
}

/// Law: the `Eof` sentinel is unique, and a lexeme is empty only on it:
/// every earlier token has another kind and a non-empty lexeme.
pub proof fn lemma_eof_unique(src: Seq<char>)
    ensures
        forall|i: int|
            0 <= i < scan_result(src).tokens.len() - 1 ==> {
                &&& (#[trigger] scan_result(src).tokens[i]).kind != TokenType::Eof
                &&& scan_result(src).tokens[i].lexeme.len() > 0
            },
{
    lemma_scan_from_eof_unique(src, 0, 1);
}

/// From any position, the step never moves the line counter backwards,
/// and a token it emits carries exactly the post-step line.
pub proof fn lemma_scan_step_line(src: Seq<char>, pos: int, line: nat)
    requires
        0 <= pos < src.len(),
    ensures
        scan_step(src, pos, line).line >= line,
        scan_step(src, pos, line).token is Some ==> scan_step(src, pos, line).token.unwrap().line
            == scan_step(src, pos, line).line,
{
}

/// From any position, token line numbers start no lower than the current
/// line and never decrease along the token list.
pub proof fn lemma_scan_from_lines(src: Seq<char>, pos: int, line: nat)
    requires
        0 <= pos,
    ensures
        forall|i: int|
            0 <= i < scan_from(src, pos, line).tokens.len() ==> (#[trigger] scan_from(
                src,
                pos,
                line,
            ).tokens[i]).line >= line,
        forall|i: int, j: int|
            0 <= i <= j < scan_from(src, pos, line).tokens.len() ==> (#[trigger] scan_from(
                src,
                pos,
                line,
            ).tokens[i]).line <= (#[trigger] scan_from(src, pos, line).tokens[j]).line,
    decreases src.len() - pos,
{
    if pos < src.len() {
        lemma_scan_step_bounds(src, pos, line);
        lemma_scan_step_line(src, pos, line);
        let st = scan_step(src, pos, line);
        lemma_scan_from_lines(src, st.next, st.line);
        let rest = scan_from(src, st.next, st.line);
        if st.token is Some {
            assert(scan_from(src, pos, line).tokens[0] == st.token.unwrap());
            assert(forall|i: int|
                1 <= i < scan_from(src, pos, line).tokens.len() ==> scan_from(
                    src,
                    pos,
                    line,
                ).tokens[i] == rest.tokens[i - 1]);
        } else {
            assert(forall|i: int|
                0 <= i < scan_from(src, pos, line).tokens.len() ==> scan_from(
                    src,
                    pos,
                    line,
                ).tokens[i] == rest.tokens[i]);
        }
    }
}

/// Law: token line numbers are 1-based and monotonically non-decreasing
/// across the scan.
pub proof fn lemma_lines_non_decreasing(src: Seq<char>)
    ensures
        forall|i: int|
            0 <= i < scan_result(src).tokens.len() ==> (#[trigger] scan_result(
                src,
            ).tokens[i]).line >= 1,
        forall|i: int, j: int|
            0 <= i <= j < scan_result(src).tokens.len() ==> (#[trigger] scan_result(
                src,
            ).tokens[i]).line <= (#[trigger] scan_result(src).tokens[j]).line,
{
    lemma_scan_from_lines(src, 0, 1);
}

/// Law: scanning an empty buffer yields exactly one token, the `Eof`
/// sentinel on line 1, and no diagnostics.
pub proof fn lemma_scan_empty(src: Seq<char>)
    requires
        src.len() == 0,
    ensures
        scan_result(src).tokens =~= seq![eof_token(1)],
        scan_result(src).errors =~= Seq::<ErrorModel>::empty(),
{
}

/// Law: the scan is a function of the buffer alone, so scanning the same
/// immutable buffer twice yields identical token and diagnostic lists.
pub proof fn lemma_scan_deterministic(src1: Seq<char>, src2: Seq<char>)
    requires
        src1 == src2,
    ensures
        scan_result(src1) == scan_result(src2),
{
}

/// Law: a lexeme that exactly matches a reserved word is tokenized as that
/// keyword's kind, never as a generic identifier, and carries no payload.
pub proof fn lemma_keyword_never_identifier(src: Seq<char>, pos: int, line: nat)
    requires
        0 <= pos < src.len(),
        is_alpha_char(src[pos]),
        keyword_of(src.subrange(pos, ident_run_end(src, pos + 1))) is Some,
    ensures
        scan_step(src, pos, line).token == Some(
            TokenModel {
                kind: keyword_of(src.subrange(pos, ident_run_end(src, pos + 1))).unwrap(),
                lexeme: src.subrange(pos, ident_run_end(src, pos + 1)),
                literal: None,
                line,
            },
        ),
        scan_step(src, pos, line).token.unwrap().kind != TokenType::Identifier,
{
}

/// Law: an opening quote with no matching close before the buffer end
/// yields one unterminated-string diagnostic — at the line where scanning
/// stopped — and no token for that attempt.
pub proof fn lemma_unterminated_string(src: Seq<char>, pos: int, line: nat)
    requires
        0 <= pos < src.len(),
        src[pos] == '"',
        find_char(src, pos + 1, '"') == src.len(),
    ensures
        scan_step(src, pos, line).token is None,
        scan_step(src, pos, line).error == Some(
            ErrorModel {
                line: (line + newline_count(src, pos + 1, src.len() as int)) as nat,
                location: Seq::<char>::empty(),
                message: "Unterminated string."@,
            },
        ),
        scan_step(src, pos, line).next == src.len(),
{
}

/// Law: a terminated string literal yields one `StringValue` token whose
/// payload is exactly the text strictly between the delimiting quotes,
/// while its lexeme keeps them.
pub proof fn lemma_terminated_string(src: Seq<char>, pos: int, line: nat)
    requires
        0 <= pos < src.len(),
        src[pos] == '"',
        find_char(src, pos + 1, '"') < src.len(),
    ensures
        ({
            let close = find_char(src, pos + 1, '"');
            let line2 = (line + newline_count(src, pos + 1, close)) as nat;
            &&& scan_step(src, pos, line).error is None
            &&& scan_step(src, pos, line).token == Some(
                TokenModel {
                    kind: TokenType::StringValue,
                    lexeme: src.subrange(pos, close + 1),
                    literal: Some(LiteralModel::Str(src.subrange(pos + 1, close))),
                    line: line2,
                },
            )
            &&& scan_step(src, pos, line).next == close + 1
        }),
{
    lemma_find_char_bounds(src, pos + 1, '"');
}

/// Law: a character that cannot begin any lexical unit yields exactly one
/// unexpected-character diagnostic, no token, and the scan resumes at the
/// very next character on the same line.
pub proof fn lemma_unexpected_character(src: Seq<char>, pos: int, line: nat)
    requires
        0 <= pos < src.len(),
        !is_recognized_char(src[pos]),
    ensures
        scan_step(src, pos, line).token is None,
        scan_step(src, pos, line).error == Some(
            ErrorModel {
                line,
                location: Seq::<char>::empty(),
                message: "Unexpected character."@,
            },
        ),
        scan_step(src, pos, line).next == pos + 1,
        scan_step(src, pos, line).line == line,
{
}

} // verus!
