//! The token data model: token kinds, literal payloads, and the token
//! record produced by the scanner, together with their ghost views.

use vstd::prelude::*;

verus! {

/// The closed set of lexical categories a token can belong to.
#[derive(PartialEq, Eq, Structural, Copy, Clone, Debug)]
pub enum TokenType {
    // Single-character tokens.
    LeftParen,
    RightParen,
    LeftBrace,
    RightBrace,
    Comma,
    Dot,
    Minus,
    Plus,
    Semicolon,
    Slash,
    Star,
    // One or two character tokens.
    Bang,
    BangEqual,
    Equal,
    EqualEqual,
    Greater,
    GreaterEqual,
    Less,
    LessEqual,
    // Literals.
    Identifier,
    StringValue,
    Number,
    // Keywords.
    And,
    Class,
    Else,
    False,
    Fun,
    For,
    If,
    Nil,
    Or,
    Print,
    Return,
    Super,
    This,
    True,
    Var,
    While,

    Eof,
}

/// The literal payload a token may carry.
///
/// A number literal carries the exact digit span consumed from the source
/// (for example `"1.3"`); turning that span into a machine float is left to
/// unverified callers, since the scanner itself only ever decides which
/// characters belong to the number.
#[derive(Clone, Debug)]
pub enum Literal {
    Identifier(String),
    Str(String),
    Number(String),
}

impl PartialEq for Literal {
    /// Two literals are equal exactly when their views are: same shape,
    /// same payload text.
    fn eq(&self, other: &Self) -> (r: bool) {
        match self {
            Self::Identifier(s) => {
                if let Self::Identifier(o) = other {
                    *s == *o
                } else {
                    false
                }
            },
            Self::Str(s) => {
                if let Self::Str(o) = other {
                    *s == *o
                } else {
                    false
                }
            },
            Self::Number(s) => {
                if let Self::Number(o) = other {
                    *s == *o
                } else {
                    false
                }
            },
        }
    }
}

impl vstd::std_specs::cmp::PartialEqSpecImpl for Literal {
    open spec fn obeys_eq_spec() -> bool {
        true
    }

    open spec fn eq_spec(&self, other: &Self) -> bool {
        self@ == other@
    }
}

impl Eq for Literal {

}

/// Ghost mirror of `Literal`: the same three shapes over character sequences.
pub ghost enum LiteralModel {
    Identifier(Seq<char>),
    Str(Seq<char>),
    Number(Seq<char>),
}

impl View for Literal {
    type V = LiteralModel;

    open spec fn view(&self) -> LiteralModel {
        match self {
            Literal::Identifier(s) => LiteralModel::Identifier(s@),
            Literal::Str(s) => LiteralModel::Str(s@),
            Literal::Number(s) => LiteralModel::Number(s@),
        }
    }
}

/// A classified lexeme: its kind, the exact source substring consumed,
/// an optional literal payload, and the 1-based line it ended on.
#[derive(PartialEq, Eq, Clone, Debug)]
pub struct Token {
    pub kind: TokenType,
    pub lexeme: String,
    pub literal: Option<Literal>,
    pub line: usize,
}

/// Ghost mirror of `Token`.
pub ghost struct TokenModel {
    pub kind: TokenType,
    pub lexeme: Seq<char>,
    pub literal: Option<LiteralModel>,
    pub line: nat,
}

impl View for Token {
    type V = TokenModel;

    open spec fn view(&self) -> TokenModel {
        TokenModel {
            kind: self.kind,
            lexeme: self.lexeme@,
            literal: match self.literal {
                Some(l) => Some(l@),
                None => None,
            },
            line: self.line as nat,
        }
    }
}

/// The views of a list of tokens, in order.
pub open spec fn tokens_model(tokens: Seq<Token>) -> Seq<TokenModel> {
    tokens.map_values(|t: Token| t@)
}

} // verus!
