//! A lexical scanner for a small dynamically-typed scripting language.
//!
//! The scanner takes a complete in-memory source buffer, makes a single
//! left-to-right pass over it with bounded lookahead, and returns an
//! end-of-input-terminated token sequence together with a diagnostic status.
//! The buffer is treated byte by byte: only ASCII characters are classified,
//! and any other byte is reported as an unexpected character.
//!
//! The behaviour of the scan is pinned down by the specification functions in
//! [`model`]: every public operation's contract states that its output equals
//! the model of the scan, and the laws in [`laws`] are proved of that model.

pub mod diagnostic;
pub mod laws;
pub mod model;
pub mod scanner;
pub mod token;
