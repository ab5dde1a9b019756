//! Tokens: the classified units of source text that the scanner emits.

use vstd::prelude::*;

verus! {

/// The mathematical values of a sequence of tokens.
pub open spec fn tokens_model(ts: Seq<Token>) -> Seq<TokenModel> {
    ts.map_values(|t: Token| t@)
}

/// Appending a token appends its model.
pub proof fn lemma_tokens_model_push(ts: Seq<Token>, t: Token)
    ensures
        tokens_model(ts.push(t)) == tokens_model(ts).push(t@),
{
    assert(tokens_model(ts.push(t)) =~= tokens_model(ts).push(t@));
}

/// The closed set of token kinds.
#[derive(Clone, Copy, Debug, PartialEq, Eq, Structural)]
pub enum TokenType {
    // Single-character tokens.
    LeftParen,
    RightParen,
    LeftBrace,
    RightBrace,
    Comma,
    Dot,
    Minus,
    Plus,
    Semicolon,
    Slash,
    Star,
    // One or two character tokens.
    Bang,
    BangEqual,
    Equal,
    EqualEqual,
    Greater,
    GreaterEqual,
    Less,
    LessEqual,
    // Literals.
    Identifier,
    Str,
    Number,
    // Keywords.
    And,
    Class,
    Else,
    False,
    Fun,
    For,
    If,
    Nil,
    Or,
    Print,
    Return,
    Super,
    This,
    True,
    Var,
    While,
    // The end-of-input sentinel.
    Eof,
}

/// The decoded value carried by a token: present only for string and number
/// tokens. A string literal's value is the byte slice between its quotes,
/// with no escape processing. A number literal's value is the exact digit
/// slice that was consumed (a run of digits, optionally followed by `.` and a
/// second run); callers that need the numeric interpretation parse that slice.
#[derive(Debug, PartialEq, Eq)]
pub enum Literal {
    Str(Vec<u8>),
    Number(Vec<u8>),
    Bool(bool),
    Absent,
}

/// The mathematical value of a [`Literal`].
pub enum LiteralModel {
    Str(Seq<u8>),
    Number(Seq<u8>),
    Bool(bool),
    Absent,
}

impl View for Literal {
    type V = LiteralModel;

    open spec fn view(&self) -> LiteralModel {
        match self {
            Literal::Str(v) => LiteralModel::Str(v@),
            Literal::Number(v) => LiteralModel::Number(v@),
            Literal::Bool(b) => LiteralModel::Bool(*b),
            Literal::Absent => LiteralModel::Absent,
        }
    }
}

/// An immutable record produced by the scanner: a kind, the exact source
/// bytes that produced it, an optional literal value, and the 1-based line on
/// which its last character was consumed.
#[derive(Debug, PartialEq, Eq)]
pub struct Token {
    pub token_type: TokenType,
    pub lexeme: Vec<u8>,
    pub literal: Literal,
    pub line: usize,
}

/// The mathematical value of a [`Token`].
#[verifier::ext_equal]
pub struct TokenModel {
    pub kind: TokenType,
    pub lexeme: Seq<u8>,
    pub literal: LiteralModel,
    pub line: int,
}

impl View for Token {
    type V = TokenModel;

    open spec fn view(&self) -> TokenModel {
        TokenModel {
            kind: self.token_type,
            lexeme: self.lexeme@,
            literal: self.literal@,
            line: self.line as int,
        }
    }
}

impl Token {
    pub fn new(token_type: TokenType, lexeme: Vec<u8>, literal: Literal, line: usize) -> (t: Token)
        ensures
            t@ == (TokenModel {
                kind: token_type,
                lexeme: lexeme@,
                literal: literal@,
                line: line as int,
            }),
    {
        Token { token_type, lexeme, literal, line }
    }
}

} // verus!
