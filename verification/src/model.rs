//! The specification of the scan.
//!
//! [`scan_spec`] gives, for any finite byte sequence, the token sequence and
//! the diagnostics that a scan of it produces. It is built from [`step`],
//! which describes one top-level dispatch of the scanner: starting at a
//! position and a line, exactly one token is recognized or exactly one piece
//! of ignorable content is skipped.

use vstd::prelude::*;

use crate::diagnostic::DiagnosticKind;
use crate::diagnostic::DiagnosticModel;
use crate::token::LiteralModel;
use crate::token::TokenModel;
use crate::token::TokenType;

verus! {

// The ASCII byte values the scanner classifies, by name.
pub const B_LPAREN: u8 = 40;

pub const B_RPAREN: u8 = 41;

pub const B_LBRACE: u8 = 123;

pub const B_RBRACE: u8 = 125;

pub const B_COMMA: u8 = 44;

pub const B_DOT: u8 = 46;

pub const B_MINUS: u8 = 45;

pub const B_PLUS: u8 = 43;

pub const B_SEMICOLON: u8 = 59;

pub const B_STAR: u8 = 42;

pub const B_BANG: u8 = 33;

pub const B_EQUAL: u8 = 61;

pub const B_LESS: u8 = 60;

pub const B_GREATER: u8 = 62;

pub const B_SLASH: u8 = 47;

pub const B_SPACE: u8 = 32;

pub const B_CR: u8 = 13;

pub const B_TAB: u8 = 9;

pub const B_NEWLINE: u8 = 10;

pub const B_QUOTE: u8 = 34;

pub const B_UNDERSCORE: u8 = 95;

pub const B_0: u8 = 48;

pub const B_9: u8 = 57;

pub const B_UPPER_A: u8 = 65;

pub const B_UPPER_Z: u8 = 90;

pub const B_A: u8 = 97;

pub const B_C: u8 = 99;

pub const B_D: u8 = 100;

pub const B_E: u8 = 101;

pub const B_F: u8 = 102;

pub const B_H: u8 = 104;

pub const B_I: u8 = 105;

pub const B_L: u8 = 108;

pub const B_N: u8 = 110;

pub const B_O: u8 = 111;

pub const B_P: u8 = 112;

pub const B_R: u8 = 114;

pub const B_S: u8 = 115;

pub const B_T: u8 = 116;

pub const B_U: u8 = 117;

pub const B_V: u8 = 118;

pub const B_W: u8 = 119;

pub const B_Z: u8 = 122;

/// An ASCII decimal digit.
pub open spec fn is_digit(c: u8) -> bool {
    B_0 <= c && c <= B_9
}

/// An ASCII letter or underscore: the bytes that may start an identifier.
pub open spec fn is_alpha(c: u8) -> bool {
    (B_A <= c && c <= B_Z) || (B_UPPER_A <= c && c <= B_UPPER_Z) || c == B_UNDERSCORE
}

/// A byte that may continue an identifier.
pub open spec fn is_ident_char(c: u8) -> bool {
    is_digit(c) || is_alpha(c)
}

/// The byte classes whose maximal runs the scanner consumes.
pub enum RunClass {
    /// A run of digits.
    Digit,
    /// A run of identifier characters.
    Ident,
    /// A run of bytes other than a newline (a line comment's body).
    NonNewline,
    /// A run of bytes other than a double quote (a string literal's body).
    NonQuote,
}

/// Whether byte `c` belongs to class `cl`.
pub open spec fn in_class(cl: RunClass, c: u8) -> bool {
    match cl {
        RunClass::Digit => is_digit(c),
        RunClass::Ident => is_ident_char(c),
        RunClass::NonNewline => c != B_NEWLINE,
        RunClass::NonQuote => c != B_QUOTE,
    }
}

/// The first position at or after `from` that ends a run of class `cl`:
/// the least `j >= from` with `j == s.len()` or `s[j]` outside the class.
pub open spec fn run_end(s: Seq<u8>, from: int, cl: RunClass) -> int
    decreases s.len() - from,
{
    if from < 0 || from >= s.len() || !in_class(cl, s[from]) {
        from
    } else {
        run_end(s, from + 1, cl)
    }
}

/// The number of newline bytes in `s[from..to)`.
pub open spec fn newlines_in(s: Seq<u8>, from: int, to: int) -> int
    decreases to - from,
{
    if from >= to {
        0
    } else {
        newlines_in(s, from, to - 1) + if s[to - 1] == B_NEWLINE {
            1int
        } else {
            0int
        }
    }
}

/// The kind of the token that a single byte produces on its own, if any.
pub open spec fn single_char_kind(c: u8) -> Option<TokenType> {
    if c == B_LPAREN {
        Some(TokenType::LeftParen)
    } else if c == B_RPAREN {
        Some(TokenType::RightParen)
    } else if c == B_LBRACE {
        Some(TokenType::LeftBrace)
    } else if c == B_RBRACE {
        Some(TokenType::RightBrace)
    } else if c == B_COMMA {
        Some(TokenType::Comma)
    } else if c == B_DOT {
        Some(TokenType::Dot)
    } else if c == B_MINUS {
        Some(TokenType::Minus)
    } else if c == B_PLUS {
        Some(TokenType::Plus)
    } else if c == B_SEMICOLON {
        Some(TokenType::Semicolon)
    } else if c == B_STAR {
        Some(TokenType::Star)
    } else {
        None
    }
}

/// For the bytes `! = < >`: the kind emitted when the byte stands alone and
/// the kind emitted when a `=` follows (the greedy, longer match).
pub open spec fn two_char_kinds(c: u8) -> Option<(TokenType, TokenType)> {
    if c == B_BANG {
        Some((TokenType::Bang, TokenType::BangEqual))
    } else if c == B_EQUAL {
        Some((TokenType::Equal, TokenType::EqualEqual))
    } else if c == B_LESS {
        Some((TokenType::Less, TokenType::LessEqual))
    } else if c == B_GREATER {
        Some((TokenType::Greater, TokenType::GreaterEqual))
    } else {
        None
    }
}

/// The kind that an identifier lexeme resolves to: one of the sixteen
/// keywords on an exact, case-sensitive match, and `Identifier` otherwise.
pub open spec fn keyword_or_identifier(lex: Seq<u8>) -> TokenType {
    if lex == seq![B_A, B_N, B_D] {
        TokenType::And
    } else if lex == seq![B_C, B_L, B_A, B_S, B_S] {
        TokenType::Class
    } else if lex == seq![B_E, B_L, B_S, B_E] {
        TokenType::Else
    } else if lex == seq![B_F, B_A, B_L, B_S, B_E] {
        TokenType::False
    } else if lex == seq![B_F, B_O, B_R] {
        TokenType::For
    } else if lex == seq![B_F, B_U, B_N] {
        TokenType::Fun
    } else if lex == seq![B_I, B_F] {
        TokenType::If
    } else if lex == seq![B_N, B_I, B_L] {
        TokenType::Nil
    } else if lex == seq![B_O, B_R] {
        TokenType::Or
    } else if lex == seq![B_P, B_R, B_I, B_N, B_T] {
        TokenType::Print
    } else if lex == seq![B_R, B_E, B_T, B_U, B_R, B_N] {
        TokenType::Return
    } else if lex == seq![B_S, B_U, B_P, B_E, B_R] {
        TokenType::Super
    } else if lex == seq![B_T, B_H, B_I, B_S] {
        TokenType::This
    } else if lex == seq![B_T, B_R, B_U, B_E] {
        TokenType::True
    } else if lex == seq![B_V, B_A, B_R] {
        TokenType::Var
    } else if lex == seq![B_W, B_H, B_I, B_L, B_E] {
        TokenType::While
    } else {
        TokenType::Identifier
    }
}

/// What one top-level dispatch of the scanner does, starting at position `i`
/// on line `line`: where the cursor stands afterwards, the line counter
/// afterwards, and the token or diagnostic produced, if any.
#[verifier::ext_equal]
pub struct Step {
    pub next: int,
    pub line: int,
    pub token: Option<TokenModel>,
    pub diag: Option<DiagnosticModel>,
}

/// A token with no literal value, covering `s[i..next)`.
pub open spec fn plain_token(kind: TokenType, s: Seq<u8>, i: int, next: int, line: int) -> TokenModel {
    TokenModel {
        kind,
        lexeme: s.subrange(i, next),
        literal: LiteralModel::Absent,
        line,
    }
}

/// One top-level dispatch at position `i` (with `0 <= i < s.len()`) on line
/// `line`: recognize exactly one token, or skip exactly one piece of
/// ignorable content, or record exactly one diagnostic.
pub open spec fn step(s: Seq<u8>, i: int, line: int) -> Step
    recommends
        0 <= i < s.len(),
{
    let c = s[i];
    if single_char_kind(c) is Some {
        Step {
            next: i + 1,
            line,
            token: Some(plain_token(single_char_kind(c)->Some_0, s, i, i + 1, line)),
            diag: None,
        }
    } else if two_char_kinds(c) is Some {
        let kinds = two_char_kinds(c)->Some_0;
        if i + 1 < s.len() && s[i + 1] == B_EQUAL {
            Step {
                next: i + 2,
                line,
                token: Some(plain_token(kinds.1, s, i, i + 2, line)),
                diag: None,
            }
        } else {
            Step {
                next: i + 1,
                line,
                token: Some(plain_token(kinds.0, s, i, i + 1, line)),
                diag: None,
            }
        }
    } else if c == B_SLASH {
        if i + 1 < s.len() && s[i + 1] == B_SLASH {
            // A line comment: discard up to, but excluding, the newline.
            Step { next: run_end(s, i + 2, RunClass::NonNewline), line, token: None, diag: None }
        } else {
            Step {
                next: i + 1,
                line,
                token: Some(plain_token(TokenType::Slash, s, i, i + 1, line)),
                diag: None,
            }
        }
    } else if c == B_SPACE || c == B_CR || c == B_TAB {
        Step { next: i + 1, line, token: None, diag: None }
    } else if c == B_NEWLINE {
        Step { next: i + 1, line: line + 1, token: None, diag: None }
    } else if c == B_QUOTE {
        let close = run_end(s, i + 1, RunClass::NonQuote);
        if close < s.len() {
            let tline = line + newlines_in(s, i + 1, close);
            Step {
                next: close + 1,
                line: tline,
                token: Some(TokenModel {
                    kind: TokenType::Str,
                    lexeme: s.subrange(i, close + 1),
                    literal: LiteralModel::Str(s.subrange(i + 1, close)),
                    line: tline,
                }),
                diag: None,
            }
        } else {
            // Unterminated: the cursor stops exactly at the end of the buffer.
            let dline = line + newlines_in(s, i + 1, s.len() as int);
            Step {
                next: s.len() as int,
                line: dline,
                token: None,
                diag: Some(DiagnosticModel { kind: DiagnosticKind::UnterminatedString, line: dline }),
            }
        }
    } else if is_digit(c) {
        let whole_end = run_end(s, i, RunClass::Digit);
        let end = if whole_end < s.len() && s[whole_end] == B_DOT && whole_end + 1 < s.len()
            && is_digit(s[whole_end + 1]) {
            run_end(s, whole_end + 1, RunClass::Digit)
        } else {
            whole_end
        };
        Step {
            next: end,
            line,
            token: Some(TokenModel {
                kind: TokenType::Number,
                lexeme: s.subrange(i, end),
                literal: LiteralModel::Number(s.subrange(i, end)),
                line,
            }),
            diag: None,
        }
    } else if is_alpha(c) {
        let end = run_end(s, i, RunClass::Ident);
        let lex = s.subrange(i, end);
        Step {
            next: end,
            line,
            token: Some(TokenModel {
                kind: keyword_or_identifier(lex),
                lexeme: lex,
                literal: LiteralModel::Absent,
                line,
            }),
            diag: None,
        }
    } else {
        Step {
            next: i + 1,
            line,
            token: None,
            diag: Some(DiagnosticModel { kind: DiagnosticKind::UnexpectedCharacter, line }),
        }
    }
}

/// What scanning the rest of the input produces, from position `i` on line
/// `line`: the remaining tokens (without the sentinel), the remaining
/// diagnostics, and the final line count.
#[verifier::ext_equal]
pub struct ScanRest {
    pub tokens: Seq<TokenModel>,
    pub diags: Seq<DiagnosticModel>,
    pub line: int,
}

/// The singleton or empty sequence that an optional element contributes.
pub open spec fn opt_seq<A>(o: Option<A>) -> Seq<A> {
    match o {
        Some(a) => seq![a],
        None => Seq::empty(),
    }
}

/// Scan the rest of the input from position `i` on line `line`.
pub open spec fn scan_from(s: Seq<u8>, i: int, line: int) -> ScanRest
    decreases s.len() - i,
        via scan_from_decreases
{
    if i < 0 || i >= s.len() {
        ScanRest { tokens: Seq::empty(), diags: Seq::empty(), line }
    } else {
        let st = step(s, i, line);
        let rest = scan_from(s, st.next, st.line);
        ScanRest {
            tokens: opt_seq(st.token) + rest.tokens,
            diags: opt_seq(st.diag) + rest.diags,
            line: rest.line,
        }
    }
}

#[via_fn]
proof fn scan_from_decreases(s: Seq<u8>, i: int, line: int) {
    if 0 <= i && i < s.len() {
        lemma_step_in_bounds(s, i, line);
    }
}

/// The end-of-input sentinel: empty lexeme, no literal, the final line.
pub open spec fn eof_token(line: int) -> TokenModel {
    TokenModel {
        kind: TokenType::Eof,
        lexeme: Seq::empty(),
        literal: LiteralModel::Absent,
        line,
    }
}

/// What a whole scan produces: the sentinel-terminated token sequence, the
/// diagnostics in source order, and whether any fault was recorded.
#[verifier::ext_equal]
pub struct ScanModel {
    pub tokens: Seq<TokenModel>,
    pub diags: Seq<DiagnosticModel>,
    pub had_error: bool,
}

/// The result of scanning `s` in full, starting at position 0 on line 1.
pub open spec fn scan_spec(s: Seq<u8>) -> ScanModel {
    let rest = scan_from(s, 0, 1);
    ScanModel {
        tokens: rest.tokens.push(eof_token(rest.line)),
        diags: rest.diags,
        had_error: rest.diags.len() > 0,
    }
}

/// A run's end lies between its start and the end of the buffer; every byte
/// before it is in the class, and the byte at it (if any) is not.
pub proof fn lemma_run_end(s: Seq<u8>, from: int, cl: RunClass)
    requires
        0 <= from <= s.len(),
    ensures
        from <= run_end(s, from, cl) <= s.len(),
        forall|k: int| from <= k < run_end(s, from, cl) ==> in_class(cl, s[k]),
        run_end(s, from, cl) < s.len() ==> !in_class(cl, s[run_end(s, from, cl)]),
    decreases s.len() - from,
{
    if from < s.len() && in_class(cl, s[from]) {
        lemma_run_end(s, from + 1, cl);
    }
}

/// One dispatch always consumes at least one byte and never overruns the
/// buffer.
pub proof fn lemma_step_in_bounds(s: Seq<u8>, i: int, line: int)
    requires
        0 <= i < s.len(),
    ensures
        i < step(s, i, line).next <= s.len(),
{
    let c = s[i];
    if single_char_kind(c) is Some || two_char_kinds(c) is Some {
    } else if c == B_SLASH && i + 1 < s.len() && s[i + 1] == B_SLASH {
        lemma_run_end(s, i + 2, RunClass::NonNewline);
    } else if c == B_QUOTE {
        lemma_run_end(s, i + 1, RunClass::NonQuote);
    } else if is_digit(c) {
        lemma_run_end(s, i, RunClass::Digit);
        let whole_end = run_end(s, i, RunClass::Digit);
        assert(run_end(s, i, RunClass::Digit) == run_end(s, i + 1, RunClass::Digit));
        lemma_run_end(s, i + 1, RunClass::Digit);
        if whole_end < s.len() && s[whole_end] == B_DOT && whole_end + 1 < s.len()
            && is_digit(s[whole_end + 1]) {
            lemma_run_end(s, whole_end + 1, RunClass::Digit);
        }
    } else if is_alpha(c) {
        assert(run_end(s, i, RunClass::Ident) == run_end(s, i + 1, RunClass::Ident));
        lemma_run_end(s, i + 1, RunClass::Ident);
    }
}

} // verus!
