//! Diagnostics: the lexical faults that a scan records.
//!
//! Faults are recorded, not thrown: the scan continues past each one and
//! accumulates every diagnostic the input contains in a single pass.

use vstd::prelude::*;

verus! {

/// The mathematical values of a sequence of diagnostics.
pub open spec fn diags_model(ds: Seq<Diagnostic>) -> Seq<DiagnosticModel> {
    ds.map_values(|d: Diagnostic| d@)
}

/// Appending a diagnostic appends its model.
pub proof fn lemma_diags_model_push(ds: Seq<Diagnostic>, d: Diagnostic)
    ensures
        diags_model(ds.push(d)) == diags_model(ds).push(d@),
{
    assert(diags_model(ds.push(d)) =~= diags_model(ds).push(d@));
}

/// The two kinds of lexical fault.
#[derive(Clone, Copy, Debug, PartialEq, Eq, Structural)]
pub enum DiagnosticKind {
    /// A byte that starts no recognized token and is not ignorable.
    UnexpectedCharacter,
    /// A string literal whose opening quote is never closed before the input
    /// ends.
    UnterminatedString,
}

/// One recorded fault: its kind and the 1-based line it was found on.
#[derive(Clone, Copy, Debug, PartialEq, Eq, Structural)]
pub struct Diagnostic {
    pub kind: DiagnosticKind,
    pub line: usize,
}

/// The mathematical value of a [`Diagnostic`].
pub struct DiagnosticModel {
    pub kind: DiagnosticKind,
    pub line: int,
}

impl View for Diagnostic {
    type V = DiagnosticModel;

    open spec fn view(&self) -> DiagnosticModel {
        DiagnosticModel { kind: self.kind, line: self.line as int }
    }
}

} // verus!
