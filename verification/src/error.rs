use vstd::prelude::*;

verus! {

/// Errors of the modular-mode logic.
#[derive(Debug, Clone, Copy, PartialEq, Eq, Structural)]
pub enum ModularError {
    /// The MA tree in the bitstream is malformed (too many nodes, or a
    /// multiplier that does not fit).
    InvalidMaTree,
    /// A leaf names a predictor number that does not exist.
    InvalidPredictor(u32),
    /// A decision node asks for a property that the sample does not have.
    InvalidProperty(usize),
    /// The symbol source ran out before the tree was complete.
    UnexpectedEof,
}

} // verus!
