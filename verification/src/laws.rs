//! Laws of the scan, proved of the model that every scan is proved to
//! produce.

use vstd::prelude::*;

use crate::model;
use crate::model::ScanModel;
use crate::token::TokenType;

verus! {

/// Counting newlines over `[a, c)` splits at any `b` between `a` and `c`.
proof fn lemma_newlines_split(s: Seq<u8>, a: int, b: int, c: int)
    requires
        a <= b <= c,
    ensures
        model::newlines_in(s, a, c) == model::newlines_in(s, a, b) + model::newlines_in(s, b, c),
    decreases c - b,
{
    if b < c {
        lemma_newlines_split(s, a, b, c - 1);
    }
}

/// A range that contains no newline byte counts zero newlines.
proof fn lemma_newlines_none(s: Seq<u8>, a: int, b: int)
    requires
        forall|k: int| a <= k < b ==> s[k] != model::B_NEWLINE,
    ensures
        model::newlines_in(s, a, b) == 0,
    decreases b - a,
{
    if a < b {
        lemma_newlines_none(s, a, b - 1);
    }
}

/// One dispatch advances the line counter by exactly the number of newline
/// bytes it consumes.
proof fn lemma_step_line(s: Seq<u8>, i: int, line: int)
    requires
        0 <= i < s.len(),
    ensures
        model::step(s, i, line).line == line + model::newlines_in(s, i, model::step(s, i, line).next),
{
    let c = s[i];
    let st = model::step(s, i, line);
    if model::single_char_kind(c) is Some || model::two_char_kinds(c) is Some {
        lemma_newlines_none(s, i, st.next);
    } else if c == model::B_SLASH {
        if i + 1 < s.len() && s[i + 1] == model::B_SLASH {
            model::lemma_run_end(s, i + 2, model::RunClass::NonNewline);
            lemma_newlines_none(s, i, st.next);
        } else {
            lemma_newlines_none(s, i, st.next);
        }
    } else if c == model::B_SPACE || c == model::B_CR || c == model::B_TAB {
        lemma_newlines_none(s, i, i + 1);
    } else if c == model::B_NEWLINE {
        assert(model::newlines_in(s, i, i) == 0);
    } else if c == model::B_QUOTE {
        let close = model::run_end(s, i + 1, model::RunClass::NonQuote);
        model::lemma_run_end(s, i + 1, model::RunClass::NonQuote);
        if close < s.len() {
            // Neither quote is a newline; the body's count is the line delta.
            lemma_newlines_split(s, i, i + 1, close + 1);
            lemma_newlines_split(s, i + 1, close, close + 1);
            lemma_newlines_none(s, i, i + 1);
            lemma_newlines_none(s, close, close + 1);
        } else {
            lemma_newlines_split(s, i, i + 1, s.len() as int);
            lemma_newlines_none(s, i, i + 1);
        }
    } else if model::is_digit(c) {
        let whole_end = model::run_end(s, i, model::RunClass::Digit);
        model::lemma_run_end(s, i, model::RunClass::Digit);
        if whole_end < s.len() && s[whole_end] == model::B_DOT && whole_end + 1 < s.len()
            && model::is_digit(s[whole_end + 1]) {
            model::lemma_run_end(s, whole_end + 1, model::RunClass::Digit);
        }
        lemma_newlines_none(s, i, st.next);
    } else if model::is_alpha(c) {
        model::lemma_run_end(s, i, model::RunClass::Ident);
        lemma_newlines_none(s, i, st.next);
    } else {
        lemma_newlines_none(s, i, st.next);
    }
}

/// Scanning from any position advances the line counter by exactly the
/// number of newline bytes in the rest of the input.
proof fn lemma_scan_from_line(s: Seq<u8>, i: int, line: int)
    requires
        0 <= i <= s.len(),
    ensures
        model::scan_from(s, i, line).line == line + model::newlines_in(s, i, s.len() as int),
    decreases s.len() - i,
{
    if i < s.len() {
        let st = model::step(s, i, line);
        model::lemma_step_in_bounds(s, i, line);
        lemma_step_line(s, i, line);
        lemma_scan_from_line(s, st.next, st.line);
        lemma_newlines_split(s, i, st.next, s.len() as int);
    }
}

/// Newline counts are never negative.
proof fn lemma_newlines_nonneg(s: Seq<u8>, a: int, b: int)
    ensures
        model::newlines_in(s, a, b) >= 0,
    decreases b - a,
{
    if a < b {
        lemma_newlines_nonneg(s, a, b - 1);
    }
}

/// The token one dispatch emits, if any, covers exactly the consumed bytes
/// and lies on a line between the line before and the line after the
/// dispatch; and the line counter never moves backwards.
proof fn lemma_step_token_shape(s: Seq<u8>, i: int, line: int)
    requires
        0 <= i < s.len(),
    ensures
        line <= model::step(s, i, line).line,
        match model::step(s, i, line).token {
            Some(tm) => tm.lexeme.len() == model::step(s, i, line).next - i && line <= tm.line
                <= model::step(s, i, line).line,
            None => true,
        },
{
    model::lemma_step_in_bounds(s, i, line);
    lemma_step_line(s, i, line);
    lemma_newlines_nonneg(s, i, model::step(s, i, line).next);
    let c = s[i];
    if c == model::B_QUOTE {
        let close = model::run_end(s, i + 1, model::RunClass::NonQuote);
        if close < s.len() {
            lemma_newlines_nonneg(s, i + 1, close);
        }
    }
}

/// Scanning the rest of the input yields tokens whose lines never decrease,
/// all between the line scanned from and the final line, each with a
/// non-empty lexeme; and the final line is at least the starting one.
proof fn lemma_scan_from_wf(s: Seq<u8>, i: int, line: int)
    requires
        0 <= i <= s.len(),
    ensures
        line <= model::scan_from(s, i, line).line,
        forall|k: int|
            0 <= k < model::scan_from(s, i, line).tokens.len() ==> {
                let tm = #[trigger] model::scan_from(s, i, line).tokens[k];
                line <= tm.line <= model::scan_from(s, i, line).line && tm.lexeme.len() > 0
            },
        forall|j: int, k: int|
            0 <= j <= k < model::scan_from(s, i, line).tokens.len()
                ==> #[trigger] model::scan_from(s, i, line).tokens[j].line
                <= #[trigger] model::scan_from(s, i, line).tokens[k].line,
    decreases s.len() - i,
{
    if i < s.len() {
        let st = model::step(s, i, line);
        model::lemma_step_in_bounds(s, i, line);
        lemma_step_token_shape(s, i, line);
        lemma_scan_from_wf(s, st.next, st.line);
        let r = model::scan_from(s, i, line);
        let rest = model::scan_from(s, st.next, st.line);
        match st.token {
            Some(tm) => {
                assert(r.tokens == seq![tm] + rest.tokens);
                assert(r.tokens[0] == tm);
                assert(forall|k: int|
                    1 <= k < r.tokens.len() ==> #[trigger] r.tokens[k] == rest.tokens[k - 1]);
            },
            None => {
                assert(r.tokens =~= rest.tokens);
            },
        }
    }
}

/// The emitted token sequence is well formed: lines start at 1 and never
/// decrease from one token to the next, and every token but the final
/// sentinel has a non-empty lexeme.
pub proof fn lemma_token_stream_well_formed(s: Seq<u8>)
    ensures
        forall|k: int|
            0 <= k < model::scan_spec(s).tokens.len() ==> 1 <= #[trigger] model::scan_spec(
                s,
            ).tokens[k].line,
        forall|j: int, k: int|
            0 <= j <= k < model::scan_spec(s).tokens.len() ==> #[trigger] model::scan_spec(
                s,
            ).tokens[j].line <= #[trigger] model::scan_spec(s).tokens[k].line,
        forall|k: int|
            0 <= k < model::scan_spec(s).tokens.len() - 1 ==> #[trigger] model::scan_spec(
                s,
            ).tokens[k].lexeme.len() > 0,
{
    lemma_scan_from_wf(s, 0, 1);
}

/// Every scan ends in the end-of-input sentinel: the token sequence is never
/// empty, its last element has kind `Eof`, an empty lexeme, no literal
/// value, and a line equal to 1 plus the number of newline bytes in the
/// input — the final line count reached.
pub proof fn lemma_sentinel(s: Seq<u8>)
    ensures
        model::scan_spec(s).tokens.len() >= 1,
        model::scan_spec(s).tokens.last() == model::eof_token(
            1 + model::newlines_in(s, 0, s.len() as int),
        ),
        model::scan_spec(s).tokens.last().kind == TokenType::Eof,
        model::scan_spec(s).tokens.last().lexeme.len() == 0,
        model::scan_spec(s).tokens.last().line == 1 + model::newlines_in(s, 0, s.len() as int),
{
    lemma_scan_from_line(s, 0, 1);
}

/// Scanning is deterministic: two scans of the same input yield the same
/// token sequence, the same diagnostics, and the same error status, because
/// the result of a scan is a function of the source alone.
pub proof fn lemma_scan_deterministic(s: Seq<u8>, r1: ScanModel, r2: ScanModel)
    requires
        r1 == model::scan_spec(s),
        r2 == model::scan_spec(s),
    ensures
        r1.tokens == r2.tokens,
        r1.diags == r2.diags,
        r1.had_error == r2.had_error,
{
}

} // verus!
