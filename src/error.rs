use vstd::prelude::*;

verus! {

/// Why a diagnostic cannot be computed for a set of chains.
#[derive(PartialEq, Eq, Structural, Debug, Clone, Copy)]
pub enum DiagnosticError {
    /// There are no chains, or the shortest chain holds no draws.
    EmptyInput,
    /// The shortest chain holds `found` draws, fewer than the `required` minimum.
    InsufficientDraws { required: usize, found: usize },
    /// The draw at position `draw` of chain `chain` is NaN or infinite.
    NonFinite { chain: usize, draw: usize },
    /// Every draw of every chain holds the same value.
    Degenerate,
}

} // verus!
