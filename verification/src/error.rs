use vstd::prelude::*;

verus! {

/// Failure conditions of the block operations and the nonce search.
#[derive(Clone, Copy, Debug, PartialEq, Eq)]
pub enum PowError {
    /// Two blocks combined arithmetically had different lengths.
    LengthMismatch,
    /// Every nonce of the declared width was enumerated without success.
    SearchExhausted,
    /// The difficulty asks for more leading zero bits than a digest holds.
    InvalidDifficulty,
}

} // verus!
