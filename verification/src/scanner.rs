//! The scanner: a single left-to-right pass over a byte buffer that emits an
//! end-of-input-terminated token sequence and records diagnostics.
//!
//! Every operation is specified against the model in [`crate::model`]: one
//! top-level dispatch behaves as [`model::step`] says, and a whole scan
//! produces exactly [`model::scan_spec`] of the source.

use vstd::prelude::*;
use vstd::slice::slice_subrange;
use vstd::slice::slice_to_vec;

use crate::diagnostic::diags_model;
use crate::diagnostic::lemma_diags_model_push;
use crate::diagnostic::Diagnostic;
use crate::diagnostic::DiagnosticKind;
use crate::diagnostic::DiagnosticModel;
use crate::model;
use crate::token::lemma_tokens_model_push;
use crate::token::tokens_model;
use crate::token::Literal;
use crate::token::Token;
use crate::token::TokenModel;
use crate::token::TokenType;

verus! {

/// The byte the scanner sees when it looks at position `i`: the byte itself
/// inside the buffer, and 0 (the NUL byte, which starts no token) past its
/// end.
pub open spec fn peeked(s: Seq<u8>, i: int) -> u8 {
    if 0 <= i && i < s.len() {
        s[i]
    } else {
        0
    }
}

/// The mathematical value of a [`Scanner`].
#[verifier::ext_equal]
pub struct ScannerModel {
    pub source: Seq<u8>,
    pub tokens: Seq<TokenModel>,
    pub diags: Seq<DiagnosticModel>,
    pub start: int,
    pub current: int,
    pub line: int,
    pub had_error: bool,
}

/// A scanner that has not started yet: nothing emitted, both cursors at the
/// beginning, the line counter at 1, and a buffer short enough that the line
/// counter cannot outgrow `usize`.
pub open spec fn ready_to_scan(m: ScannerModel) -> bool {
    &&& m.tokens.len() == 0
    &&& m.diags.len() == 0
    &&& m.start == 0
    &&& m.current == 0
    &&& m.line == 1
    &&& !m.had_error
    &&& m.source.len() < usize::MAX
}

/// The scanner: owns the source buffer, a cursor pair, a line counter, and
/// the output it accumulates. Constructed over a complete buffer, run to
/// completion exactly once by [`Scanner::scan_tokens`], then discarded.
pub struct Scanner {
    source: Vec<u8>,
    tokens: Vec<Token>,
    diagnostics: Vec<Diagnostic>,
    start: usize,
    current: usize,
    line: usize,
    had_error: bool,
}

impl View for Scanner {
    type V = ScannerModel;

    closed spec fn view(&self) -> ScannerModel {
        ScannerModel {
            source: self.source@,
            tokens: tokens_model(self.tokens@),
            diags: diags_model(self.diagnostics@),
            start: self.start as int,
            current: self.current as int,
            line: self.line as int,
            had_error: self.had_error,
        }
    }
}

/// The bounds that hold of the cursor and the line counter throughout a
/// scan: the cursor never overruns the buffer, and the line counter has
/// grown by at most one per byte consumed, so it cannot overflow.
spec fn cursor_inv(sc: Scanner) -> bool {
    &&& sc.current <= sc.source@.len()
    &&& 1 <= sc.line
    &&& sc.line + sc.source@.len() - sc.current <= usize::MAX
    &&& sc.source@.len() < usize::MAX
}

/// Whether `c` is an ASCII decimal digit.
fn is_digit_byte(c: u8) -> (r: bool)
    ensures
        r == model::is_digit(c),
{
    model::B_0 <= c && c <= model::B_9
}

/// Whether `c` is an ASCII letter or underscore.
fn is_alpha_byte(c: u8) -> (r: bool)
    ensures
        r == model::is_alpha(c),
{
    (model::B_A <= c && c <= model::B_Z) || (model::B_UPPER_A <= c && c <= model::B_UPPER_Z)
        || c == model::B_UNDERSCORE
}

/// Whether `c` may continue an identifier.
fn is_ident_byte(c: u8) -> (r: bool)
    ensures
        r == model::is_ident_char(c),
{
    is_digit_byte(c) || is_alpha_byte(c)
}

/// The kind an identifier lexeme resolves to: a keyword on an exact match,
/// and `Identifier` otherwise.
fn keyword_kind(text: &Vec<u8>) -> (k: TokenType)
    ensures
        k == model::keyword_or_identifier(text@),
{
    let n = text.len();
    if n == 2 {
        let b0 = text[0];
        let b1 = text[1];
        if b0 == model::B_I && b1 == model::B_F {
            proof {
                assert(text@ =~= seq![model::B_I, model::B_F]);
            }
            return TokenType::If;
        }
        if b0 == model::B_O && b1 == model::B_R {
            proof {
                assert(text@ =~= seq![model::B_O, model::B_R]);
            }
            return TokenType::Or;
        }
    } else if n == 3 {
        let b0 = text[0];
        let b1 = text[1];
        let b2 = text[2];
        if b0 == model::B_A && b1 == model::B_N && b2 == model::B_D {
            proof {
                assert(text@ =~= seq![model::B_A, model::B_N, model::B_D]);
            }
            return TokenType::And;
        }
        if b0 == model::B_F && b1 == model::B_O && b2 == model::B_R {
            proof {
                assert(text@ =~= seq![model::B_F, model::B_O, model::B_R]);
            }
            return TokenType::For;
        }
        if b0 == model::B_F && b1 == model::B_U && b2 == model::B_N {
            proof {
                assert(text@ =~= seq![model::B_F, model::B_U, model::B_N]);
            }
            return TokenType::Fun;
        }
        if b0 == model::B_N && b1 == model::B_I && b2 == model::B_L {
            proof {
                assert(text@ =~= seq![model::B_N, model::B_I, model::B_L]);
            }
            return TokenType::Nil;
        }
        if b0 == model::B_V && b1 == model::B_A && b2 == model::B_R {
            proof {
                assert(text@ =~= seq![model::B_V, model::B_A, model::B_R]);
            }
            return TokenType::Var;
        }
    } else if n == 4 {
        let b0 = text[0];
        let b1 = text[1];
        let b2 = text[2];
        let b3 = text[3];
        if b0 == model::B_E && b1 == model::B_L && b2 == model::B_S && b3 == model::B_E {
            proof {
                assert(text@ =~= seq![model::B_E, model::B_L, model::B_S, model::B_E]);
            }
            return TokenType::Else;
        }
        if b0 == model::B_T && b1 == model::B_H && b2 == model::B_I && b3 == model::B_S {
            proof {
                assert(text@ =~= seq![model::B_T, model::B_H, model::B_I, model::B_S]);
            }
            return TokenType::This;
        }
        if b0 == model::B_T && b1 == model::B_R && b2 == model::B_U && b3 == model::B_E {
            proof {
                assert(text@ =~= seq![model::B_T, model::B_R, model::B_U, model::B_E]);
            }
            return TokenType::True;
        }
    } else if n == 5 {
        let b0 = text[0];
        let b1 = text[1];
        let b2 = text[2];
        let b3 = text[3];
        let b4 = text[4];
        if b0 == model::B_C && b1 == model::B_L && b2 == model::B_A && b3 == model::B_S && b4
            == model::B_S {
            proof {
                assert(text@ =~= seq![model::B_C, model::B_L, model::B_A, model::B_S, model::B_S]);
            }
            return TokenType::Class;
        }
        if b0 == model::B_F && b1 == model::B_A && b2 == model::B_L && b3 == model::B_S && b4
            == model::B_E {
            proof {
                assert(text@ =~= seq![model::B_F, model::B_A, model::B_L, model::B_S, model::B_E]);
            }
            return TokenType::False;
        }
        if b0 == model::B_P && b1 == model::B_R && b2 == model::B_I && b3 == model::B_N && b4
            == model::B_T {
            proof {
                assert(text@ =~= seq![model::B_P, model::B_R, model::B_I, model::B_N, model::B_T]);
            }
            return TokenType::Print;
        }
        if b0 == model::B_S && b1 == model::B_U && b2 == model::B_P && b3 == model::B_E && b4
            == model::B_R {
            proof {
                assert(text@ =~= seq![model::B_S, model::B_U, model::B_P, model::B_E, model::B_R]);
            }
            return TokenType::Super;
        }
        if b0 == model::B_W && b1 == model::B_H && b2 == model::B_I && b3 == model::B_L && b4
            == model::B_E {
            proof {
                assert(text@ =~= seq![model::B_W, model::B_H, model::B_I, model::B_L, model::B_E]);
            }
            return TokenType::While;
        }
    } else if n == 6 {
        let b0 = text[0];
        let b1 = text[1];
        let b2 = text[2];
        let b3 = text[3];
        let b4 = text[4];
        let b5 = text[5];
        if b0 == model::B_R && b1 == model::B_E && b2 == model::B_T && b3 == model::B_U && b4
            == model::B_R && b5 == model::B_N {
            proof {
                assert(text@ =~= seq![
                    model::B_R,
                    model::B_E,
                    model::B_T,
                    model::B_U,
                    model::B_R,
                    model::B_N,
                ]);
            }
            return TokenType::Return;
        }
    }
    TokenType::Identifier
}

impl Scanner {
    /// A scanner over a complete source buffer, ready for its one scan.
    pub fn new(source: Vec<u8>) -> (sc: Scanner)
        requires
            source@.len() < usize::MAX,
        ensures
            sc@ == (ScannerModel {
                source: source@,
                tokens: Seq::empty(),
                diags: Seq::empty(),
                start: 0,
                current: 0,
                line: 1,
                had_error: false,
            }),
            ready_to_scan(sc@),
    {
        let sc = Scanner {
            source,
            tokens: Vec::new(),
            diagnostics: Vec::new(),
            start: 0,
            current: 0,
            line: 1,
            had_error: false,
        };
        proof {
            assert(tokens_model(sc.tokens@) =~= Seq::<TokenModel>::empty());
            assert(diags_model(sc.diagnostics@) =~= Seq::<DiagnosticModel>::empty());
        }
        sc
    }

    /// Whether the cursor has reached the end of the buffer.
    fn is_at_end(&self) -> (r: bool)
        ensures
            r == (self.current >= self.source@.len()),
    {
        self.current >= self.source.len()
    }

    /// The next unread byte, without consuming it; 0 past the end.
    fn peek(&self) -> (c: u8)
        ensures
            c == peeked(self.source@, self.current as int),
    {
        if self.current >= self.source.len() {
            0
        } else {
            self.source[self.current]
        }
    }

    /// The byte after the next unread one, without consuming; 0 past the end.
    fn peek_next(&self) -> (c: u8)
        requires
            self.current < usize::MAX,
        ensures
            c == peeked(self.source@, self.current + 1),
    {
        if self.current + 1 >= self.source.len() {
            0
        } else {
            self.source[self.current + 1]
        }
    }

    /// Consume the next byte exactly when it equals `expected`.
    fn match_next_char(&mut self, expected: u8) -> (r: bool)
        requires
            old(self).current <= old(self).source@.len(),
        ensures
            r == (old(self).current < old(self).source@.len() && old(self).source@[old(
                self,
            ).current as int] == expected),
            final(self).current == if r {
                old(self).current + 1
            } else {
                old(self).current as int
            },
            final(self).source == old(self).source,
            final(self).tokens == old(self).tokens,
            final(self).diagnostics == old(self).diagnostics,
            final(self).start == old(self).start,
            final(self).line == old(self).line,
            final(self).had_error == old(self).had_error,
    {
        if self.current >= self.source.len() {
            return false;
        }
        if self.source[self.current] != expected {
            return false;
        }
        self.current = self.current + 1;
        true
    }

    /// A copy of the bytes `source[from..to)`.
    fn copy_range(&self, from: usize, to: usize) -> (v: Vec<u8>)
        requires
            from <= to <= self.source@.len(),
        ensures
            v@ == self.source@.subrange(from as int, to as int),
    {
        slice_to_vec(slice_subrange(self.source.as_slice(), from, to))
    }

    /// Append a token whose lexeme is the slice between the two cursors,
    /// carrying the given literal, on the current line.
    fn add_token(&mut self, token_type: TokenType, literal: Literal)
        requires
            old(self).start <= old(self).current <= old(self).source@.len(),
        ensures
            tokens_model(final(self).tokens@) == tokens_model(old(self).tokens@).push(
                TokenModel {
                    kind: token_type,
                    lexeme: old(self).source@.subrange(
                        old(self).start as int,
                        old(self).current as int,
                    ),
                    literal: literal@,
                    line: old(self).line as int,
                },
            ),
            final(self).source == old(self).source,
            final(self).diagnostics == old(self).diagnostics,
            final(self).start == old(self).start,
            final(self).current == old(self).current,
            final(self).line == old(self).line,
            final(self).had_error == old(self).had_error,
    {
        let ghost pre_tokens = self.tokens@;
        let lexeme = self.copy_range(self.start, self.current);
        let line = self.line;
        let t = Token { token_type, lexeme, literal, line };
        self.tokens.push(t);
        proof {
            lemma_tokens_model_push(pre_tokens, t);
        }
    }

    /// Discard a line comment's body: everything up to, but excluding, the
    /// next newline or the end of the buffer.
    fn skip_comment(&mut self)
        requires
            old(self).current <= old(self).source@.len(),
            cursor_inv(*old(self)),
        ensures
            final(self).current as int == model::run_end(
                old(self).source@,
                old(self).current as int,
                model::RunClass::NonNewline,
            ),
            final(self).source == old(self).source,
            final(self).tokens == old(self).tokens,
            final(self).diagnostics == old(self).diagnostics,
            final(self).start == old(self).start,
            final(self).line == old(self).line,
            final(self).had_error == old(self).had_error,
            cursor_inv(*final(self)),
    {
        let ghost pre = *self;
        let ghost s = self.source@;
        while self.peek() != model::B_NEWLINE && !self.is_at_end()
            invariant
                self.source == pre.source,
                self.tokens == pre.tokens,
                self.diagnostics == pre.diagnostics,
                self.start == pre.start,
                self.line == pre.line,
                self.had_error == pre.had_error,
                pre.current <= self.current <= s.len(),
                s == self.source@,
                s.len() < usize::MAX,
                model::run_end(s, pre.current as int, model::RunClass::NonNewline) == model::run_end(
                    s,
                    self.current as int,
                    model::RunClass::NonNewline,
                ),
            decreases s.len() - self.current,
        {
            self.current = self.current + 1;
        }
    }

    /// Scan a string literal, the opening quote already consumed: on a
    /// closing quote, emit a string token whose value is the slice between
    /// the quotes; at end of input, record an unterminated-string diagnostic
    /// and leave the cursor exactly at the end of the buffer.
    fn add_string(&mut self)
        requires
            old(self).start + 1 == old(self).current,
            old(self).current <= old(self).source@.len(),
            old(self).source@[old(self).start as int] == model::B_QUOTE,
            cursor_inv(*old(self)),
        ensures
            ({
                let st = model::step(old(self).source@, old(self).start as int, old(self).line as int);
                &&& final(self).source == old(self).source
                &&& final(self).start == old(self).start
                &&& final(self).current as int == st.next
                &&& final(self).line as int == st.line
                &&& (match st.token {
                    Some(tm) => tokens_model(final(self).tokens@) == tokens_model(
                        old(self).tokens@,
                    ).push(tm),
                    None => final(self).tokens == old(self).tokens,
                })
                &&& (match st.diag {
                    Some(dm) => diags_model(final(self).diagnostics@) == diags_model(
                        old(self).diagnostics@,
                    ).push(dm),
                    None => final(self).diagnostics == old(self).diagnostics,
                })
                &&& final(self).had_error == (old(self).had_error || st.diag is Some)
                &&& cursor_inv(*final(self))
            }),
    {
        let ghost pre = *self;
        let ghost s = self.source@;
        while self.peek() != model::B_QUOTE && !self.is_at_end()
            invariant
                self.source == pre.source,
                self.tokens == pre.tokens,
                self.diagnostics == pre.diagnostics,
                self.start == pre.start,
                self.had_error == pre.had_error,
                pre.current <= self.current <= s.len(),
                s == self.source@,
                s.len() < usize::MAX,
                model::run_end(s, pre.current as int, model::RunClass::NonQuote) == model::run_end(
                    s,
                    self.current as int,
                    model::RunClass::NonQuote,
                ),
                self.line as int == pre.line + model::newlines_in(
                    s,
                    pre.current as int,
                    self.current as int,
                ),
                cursor_inv(*self),
            decreases s.len() - self.current,
        {
            if self.peek() == model::B_NEWLINE {
                self.line = self.line + 1;
            }
            self.current = self.current + 1;
        }
        if self.is_at_end() {
            let line = self.line;
            let ghost pre_diags = self.diagnostics@;
            self.diagnostics.push(
                Diagnostic { kind: DiagnosticKind::UnterminatedString, line },
            );
            self.had_error = true;
            proof {
                lemma_diags_model_push(
                    pre_diags,
                    Diagnostic { kind: DiagnosticKind::UnterminatedString, line },
                );
            }
        } else {
            // The loop stopped on the closing quote: consume it.
            self.current = self.current + 1;
            let value = self.copy_range(self.start + 1, self.current - 1);
            self.add_token(TokenType::Str, Literal::Str(value));
        }
    }

    /// Scan a number literal, the first digit already consumed: a maximal
    /// digit run, then a fractional part only when a `.` is directly
    /// followed by a digit.
    fn add_number(&mut self)
        requires
            old(self).start + 1 == old(self).current,
            old(self).current <= old(self).source@.len(),
            model::is_digit(old(self).source@[old(self).start as int]),
            cursor_inv(*old(self)),
        ensures
            ({
                let st = model::step(old(self).source@, old(self).start as int, old(self).line as int);
                &&& final(self).source == old(self).source
                &&& final(self).start == old(self).start
                &&& final(self).current as int == st.next
                &&& final(self).line as int == st.line
                &&& (match st.token {
                    Some(tm) => tokens_model(final(self).tokens@) == tokens_model(
                        old(self).tokens@,
                    ).push(tm),
                    None => final(self).tokens == old(self).tokens,
                })
                &&& final(self).diagnostics == old(self).diagnostics
                &&& final(self).had_error == old(self).had_error
                &&& cursor_inv(*final(self))
            }),
    {
        let ghost pre = *self;
        let ghost s = self.source@;
        while is_digit_byte(self.peek())
            invariant
                self.source == pre.source,
                self.tokens == pre.tokens,
                self.diagnostics == pre.diagnostics,
                self.start == pre.start,
                self.line == pre.line,
                self.had_error == pre.had_error,
                pre.current <= self.current <= s.len(),
                s == self.source@,
                s.len() < usize::MAX,
                model::run_end(s, pre.current as int, model::RunClass::Digit) == model::run_end(
                    s,
                    self.current as int,
                    model::RunClass::Digit,
                ),
            decreases s.len() - self.current,
        {
            self.current = self.current + 1;
        }
        proof {
            // The whole-number run from the token's start ends here too.
            assert(model::run_end(s, pre.start as int, model::RunClass::Digit) == model::run_end(
                s,
                pre.current as int,
                model::RunClass::Digit,
            ));
        }
        if self.peek() == model::B_DOT && is_digit_byte(self.peek_next()) {
            // Consume the decimal point, then the fractional run.
            self.current = self.current + 1;
            let ghost frac = *self;
            while is_digit_byte(self.peek())
                invariant
                    self.source == frac.source,
                    self.tokens == frac.tokens,
                    self.diagnostics == frac.diagnostics,
                    self.start == frac.start,
                    self.line == frac.line,
                    self.had_error == frac.had_error,
                    frac.current <= self.current <= s.len(),
                    s == self.source@,
                    s.len() < usize::MAX,
                    model::run_end(s, frac.current as int, model::RunClass::Digit)
                        == model::run_end(s, self.current as int, model::RunClass::Digit),
                decreases s.len() - self.current,
            {
                self.current = self.current + 1;
            }
        }
        let text = self.copy_range(self.start, self.current);
        self.add_token(TokenType::Number, Literal::Number(text));
    }

    /// Scan an identifier or keyword, the first byte already consumed: a
    /// maximal run of letters, digits and underscores, resolved against the
    /// keyword table.
    fn add_identifier(&mut self)
        requires
            old(self).start + 1 == old(self).current,
            old(self).current <= old(self).source@.len(),
            model::is_alpha(old(self).source@[old(self).start as int]),
            cursor_inv(*old(self)),
        ensures
            ({
                let st = model::step(old(self).source@, old(self).start as int, old(self).line as int);
                &&& final(self).source == old(self).source
                &&& final(self).start == old(self).start
                &&& final(self).current as int == st.next
                &&& final(self).line as int == st.line
                &&& (match st.token {
                    Some(tm) => tokens_model(final(self).tokens@) == tokens_model(
                        old(self).tokens@,
                    ).push(tm),
                    None => final(self).tokens == old(self).tokens,
                })
                &&& final(self).diagnostics == old(self).diagnostics
                &&& final(self).had_error == old(self).had_error
                &&& cursor_inv(*final(self))
            }),
    {
        let ghost pre = *self;
        let ghost s = self.source@;
        while is_ident_byte(self.peek())
            invariant
                self.source == pre.source,
                self.tokens == pre.tokens,
                self.diagnostics == pre.diagnostics,
                self.start == pre.start,
                self.line == pre.line,
                self.had_error == pre.had_error,
                pre.current <= self.current <= s.len(),
                s == self.source@,
                s.len() < usize::MAX,
                model::run_end(s, pre.current as int, model::RunClass::Ident) == model::run_end(
                    s,
                    self.current as int,
                    model::RunClass::Ident,
                ),
            decreases s.len() - self.current,
        {
            self.current = self.current + 1;
        }
        proof {
            assert(model::run_end(s, pre.start as int, model::RunClass::Ident) == model::run_end(
                s,
                pre.current as int,
                model::RunClass::Ident,
            ));
        }
        let text = self.copy_range(self.start, self.current);
        let kind = keyword_kind(&text);
        self.add_token(kind, Literal::Absent);
    }

    /// One top-level dispatch: recognize exactly one token, or skip exactly
    /// one piece of ignorable content, or record exactly one diagnostic,
    /// starting at the position where both cursors stand.
    fn scan_token(&mut self)
        requires
            old(self).start == old(self).current,
            old(self).current < old(self).source@.len(),
            cursor_inv(*old(self)),
        ensures
            ({
                let st = model::step(old(self).source@, old(self).current as int, old(self).line as int);
                &&& final(self).source == old(self).source
                &&& final(self).start == old(self).start
                &&& final(self).current as int == st.next
                &&& final(self).line as int == st.line
                &&& (match st.token {
                    Some(tm) => tokens_model(final(self).tokens@) == tokens_model(
                        old(self).tokens@,
                    ).push(tm),
                    None => final(self).tokens == old(self).tokens,
                })
                &&& (match st.diag {
                    Some(dm) => diags_model(final(self).diagnostics@) == diags_model(
                        old(self).diagnostics@,
                    ).push(dm),
                    None => final(self).diagnostics == old(self).diagnostics,
                })
                &&& final(self).had_error == (old(self).had_error || st.diag is Some)
                &&& cursor_inv(*final(self))
            }),
    {
        let c = self.source[self.current];
        self.current = self.current + 1;
        if c == model::B_LPAREN {
            self.add_token(TokenType::LeftParen, Literal::Absent);
        } else if c == model::B_RPAREN {
            self.add_token(TokenType::RightParen, Literal::Absent);
        } else if c == model::B_LBRACE {
            self.add_token(TokenType::LeftBrace, Literal::Absent);
        } else if c == model::B_RBRACE {
            self.add_token(TokenType::RightBrace, Literal::Absent);
        } else if c == model::B_COMMA {
            self.add_token(TokenType::Comma, Literal::Absent);
        } else if c == model::B_DOT {
            self.add_token(TokenType::Dot, Literal::Absent);
        } else if c == model::B_MINUS {
            self.add_token(TokenType::Minus, Literal::Absent);
        } else if c == model::B_PLUS {
            self.add_token(TokenType::Plus, Literal::Absent);
        } else if c == model::B_SEMICOLON {
            self.add_token(TokenType::Semicolon, Literal::Absent);
        } else if c == model::B_STAR {
            self.add_token(TokenType::Star, Literal::Absent);
        } else if c == model::B_BANG {
            if self.match_next_char(model::B_EQUAL) {
                self.add_token(TokenType::BangEqual, Literal::Absent);
            } else {
                self.add_token(TokenType::Bang, Literal::Absent);
            }
        } else if c == model::B_EQUAL {
            if self.match_next_char(model::B_EQUAL) {
                self.add_token(TokenType::EqualEqual, Literal::Absent);
            } else {
                self.add_token(TokenType::Equal, Literal::Absent);
            }
        } else if c == model::B_LESS {
            if self.match_next_char(model::B_EQUAL) {
                self.add_token(TokenType::LessEqual, Literal::Absent);
            } else {
                self.add_token(TokenType::Less, Literal::Absent);
            }
        } else if c == model::B_GREATER {
            if self.match_next_char(model::B_EQUAL) {
                self.add_token(TokenType::GreaterEqual, Literal::Absent);
            } else {
                self.add_token(TokenType::Greater, Literal::Absent);
            }
        } else if c == model::B_SLASH {
            if self.match_next_char(model::B_SLASH) {
                self.skip_comment();
            } else {
                self.add_token(TokenType::Slash, Literal::Absent);
            }
        } else if c == model::B_SPACE || c == model::B_CR || c == model::B_TAB {
            // Ignorable whitespace.
        } else if c == model::B_NEWLINE {
            self.line = self.line + 1;
        } else if c == model::B_QUOTE {
            self.add_string();
        } else if is_digit_byte(c) {
            self.add_number();
        } else if is_alpha_byte(c) {
            self.add_identifier();
        } else {
            let line = self.line;
            let ghost pre_diags = self.diagnostics@;
            self.diagnostics.push(
                Diagnostic { kind: DiagnosticKind::UnexpectedCharacter, line },
            );
            self.had_error = true;
            proof {
                lemma_diags_model_push(
                    pre_diags,
                    Diagnostic { kind: DiagnosticKind::UnexpectedCharacter, line },
                );
            }
        }
    }

    /// Run the scan to completion: the output is exactly what
    /// [`model::scan_spec`] gives for the source, ending with the
    /// end-of-input sentinel.
    pub fn scan_tokens(&mut self) -> (r: &Vec<Token>)
        requires
            ready_to_scan(old(self)@),
        ensures
            final(self)@.source == old(self)@.source,
            final(self)@.tokens == model::scan_spec(old(self)@.source).tokens,
            final(self)@.diags == model::scan_spec(old(self)@.source).diags,
            final(self)@.had_error == model::scan_spec(old(self)@.source).had_error,
            tokens_model(r@) == model::scan_spec(old(self)@.source).tokens,
    {
        let ghost s = self.source@;
        let ghost total = model::scan_from(s, 0, 1);
        proof {
            assert(self.tokens@ =~= Seq::<Token>::empty());
            assert(self.diagnostics@ =~= Seq::<Diagnostic>::empty());
            assert(tokens_model(self.tokens@) + total.tokens =~= total.tokens);
            assert(diags_model(self.diagnostics@) + total.diags =~= total.diags);
        }
        while !self.is_at_end()
            invariant
                s == self.source@,
                cursor_inv(*self),
                tokens_model(self.tokens@) + model::scan_from(
                    s,
                    self.current as int,
                    self.line as int,
                ).tokens == total.tokens,
                diags_model(self.diagnostics@) + model::scan_from(
                    s,
                    self.current as int,
                    self.line as int,
                ).diags == total.diags,
                model::scan_from(s, self.current as int, self.line as int).line == total.line,
                self.had_error == (diags_model(self.diagnostics@).len() > 0),
            decreases s.len() - self.current,
        {
            self.start = self.current;
            let ghost i = self.current as int;
            let ghost l = self.line as int;
            let ghost pre_tokens = tokens_model(self.tokens@);
            let ghost pre_diags = diags_model(self.diagnostics@);
            self.scan_token();
            proof {
                model::lemma_step_in_bounds(s, i, l);
                let st = model::step(s, i, l);
                let rest = model::scan_from(s, st.next, st.line);
                match st.token {
                    Some(tm) => {
                        assert(pre_tokens.push(tm) + rest.tokens =~= pre_tokens + (seq![tm]
                            + rest.tokens));
                    },
                    None => {
                        assert(model::opt_seq(st.token) + rest.tokens =~= rest.tokens);
                    },
                }
                match st.diag {
                    Some(dm) => {
                        assert(pre_diags.push(dm) + rest.diags =~= pre_diags + (seq![dm]
                            + rest.diags));
                    },
                    None => {
                        assert(model::opt_seq(st.diag) + rest.diags =~= rest.diags);
                    },
                }
            }
        }
        proof {
            assert(tokens_model(self.tokens@) + model::scan_from(
                s,
                self.current as int,
                self.line as int,
            ).tokens =~= tokens_model(self.tokens@));
            assert(diags_model(self.diagnostics@) + model::scan_from(
                s,
                self.current as int,
                self.line as int,
            ).diags =~= diags_model(self.diagnostics@));
        }
        let line = self.line;
        let ghost pre_tokens = self.tokens@;
        let eof = Token {
            token_type: TokenType::Eof,
            lexeme: Vec::new(),
            literal: Literal::Absent,
            line,
        };
        self.tokens.push(eof);
        proof {
            lemma_tokens_model_push(pre_tokens, eof);
            assert(eof@ =~= model::eof_token(total.line));
        }
        &self.tokens
    }

    /// The diagnostics recorded so far, in source order.
    pub fn diagnostics(&self) -> (r: &Vec<Diagnostic>)
        ensures
            diags_model(r@) == self@.diags,
    {
        &self.diagnostics
    }

    /// Whether any lexical fault has been recorded: sticky for the
    /// scanner's lifetime.
    pub fn had_error(&self) -> (r: bool)
        ensures
            r == self@.had_error,
    {
        self.had_error
    }
}

/// Scan a complete source buffer: the sentinel-terminated token sequence and
/// whether any lexical fault was found.
pub fn scan(source: Vec<u8>) -> (r: (Vec<Token>, bool))
    requires
        source@.len() < usize::MAX,
    ensures
        tokens_model(r.0@) == model::scan_spec(source@).tokens,
        r.1 == model::scan_spec(source@).had_error,
{
    let ghost s = source@;
    let mut sc = Scanner::new(source);
    sc.scan_tokens();
    let Scanner { tokens, had_error, .. } = sc;
    (tokens, had_error)
}

} // verus!
