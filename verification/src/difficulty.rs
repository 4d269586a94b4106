//! The difficulty evaluator: counting leading zero bits of a byte sequence.
//!
//! Bytes are scanned from index 0; each all-zero byte contributes 8 bits, and
//! the first non-zero byte contributes its own leading zeros and ends the
//! scan, so the count is found without reading the rest of the block.

use vstd::prelude::*;
use vstd::std_specs::bits::{axiom_u8_leading_zeros, u8_leading_zeros};

verus! {

/// The number of leading zero bits of a block: 8 per leading zero byte, plus
/// the leading zeros of the first non-zero byte, if any.
pub open spec fn spec_leading_zeros(s: Seq<u8>) -> nat
    decreases s.len(),
{
    if s.len() == 0 {
        0
    } else if s[0] == 0 {
        8 + spec_leading_zeros(s.drop_first())
    } else {
        u8_leading_zeros(s[0]) as nat
    }
}

/// Count the leading zero bits of a block, stopping at the first non-zero
/// byte.
#[verifier::loop_isolation(false)]
pub fn count_leading_zeros_in_block(bytes: &[u8]) -> (r: usize)
    requires
        8 * bytes@.len() <= usize::MAX,
    ensures
        r == spec_leading_zeros(bytes@),
{
    broadcast use axiom_u8_leading_zeros;

    let mut total_zeros: usize = 0;
    let mut i: usize = 0;
    proof {
        assert(bytes@.skip(0) =~= bytes@);
    }
    while i < bytes.len()
        invariant
            i <= bytes@.len(),
            total_zeros == 8 * i,
            forall|k: int| 0 <= k < i ==> bytes@[k] == 0u8,
            spec_leading_zeros(bytes@) == total_zeros + spec_leading_zeros(
                bytes@.skip(i as int),
            ),
        decreases bytes@.len() - i,
    {
        let zeros = bytes[i].leading_zeros();
        proof {
            assert(bytes@.skip(i as int)[0] == bytes@[i as int]);
            assert(bytes@.skip(i as int).drop_first() =~= bytes@.skip(i as int + 1));
        }
        total_zeros = total_zeros + (zeros as usize);
        if zeros != 8 {
            return total_zeros;
        }
        i = i + 1;
    }
    proof {
        assert(bytes@.skip(i as int) =~= Seq::<u8>::empty());
    }
    // In case it's all zeros!
    total_zeros
}

} // verus!
