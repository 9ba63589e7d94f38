//! Failures and diagnostics of a scan.

use vstd::prelude::*;

verus! {

/// A failure that ends the call that met it.
#[derive(Clone, Copy, Debug, PartialEq, Eq, Structural)]
pub enum ScanError {
    /// No grammar table is registered for the requested language.
    UnknownLanguage,
    /// The cursor was asked for a byte past the end of the input.
    EndOfInput,
    /// A span was closed although none was open, or opened although one was
    /// still open.
    UnbalancedSpan,
}

/// A condition worth a warning that does not stop the scan.
#[derive(Clone, Copy, Debug, PartialEq, Eq, Structural)]
pub enum Diagnostic {
    /// The input ended inside a block comment. Its span, the last one, runs
    /// to the end of the input.
    UnterminatedBlockComment,
    /// The input ended inside a string or character literal. The literal is
    /// taken to run to the end of the input.
    UnterminatedStringLiteral,
}

} // verus!
