//! The search controller: brute-force enumeration of nonces.
//!
//! The data block is left-padded with zero bytes to the declared width,
//! combined with each candidate nonce by big-endian addition, hashed, and the
//! digest's leading zero bits compared against the difficulty. Nonces are
//! tried in strictly increasing big-endian order starting from all-zero, so
//! an accepted nonce is the smallest satisfying one; exhausting the width
//! without success is reported as an error, never as a degenerate nonce.

use crate::arith::{add_blocks, spec_add_blocks};
use crate::difficulty::{count_leading_zeros_in_block, spec_leading_zeros};
use crate::digest::{hash, sha1_digest_of, DIGEST_LENGTH};
use crate::error::PowError;
use crate::pad::{generate_initial_pad_, next_pad_, spec_next_pad};
use crate::value::{
    block_value, lemma_block_value_bound, lemma_block_value_injective, lemma_pow256_pos,
    lemma_zero_block_value, pow256, zero_block,
};
use vstd::prelude::*;

verus! {

/// The data block as the search sees it: left-padded with zero bytes up to
/// the declared width.
pub open spec fn padded_data(data: Seq<u8>, width: nat) -> Seq<u8> {
    zero_block((width - data.len()) as nat) + data
}

/// The digest of one attempt: the padded data combined with the given pad by
/// big-endian addition, then hashed.
pub open spec fn attempt_digest(data: Seq<u8>, width: nat, pad: Seq<u8>) -> Seq<u8> {
    sha1_digest_of(spec_add_blocks(padded_data(data, width), pad))
}

/// Whether one attempt meets the difficulty: its digest has at least that
/// many leading zero bits.
pub open spec fn attempt_meets(data: Seq<u8>, width: nat, pad: Seq<u8>, difficulty: nat) -> bool {
    spec_leading_zeros(attempt_digest(data, width, pad)) >= difficulty
}

/// Reject a difficulty that no digest of the given length can ever satisfy.
pub fn validate_difficulty(difficulty: usize, digest_length: usize) -> (r: Result<(), PowError>)
    requires
        digest_length <= usize::MAX / 8,
    ensures
        (r is Ok) == (difficulty <= 8 * digest_length),
        r matches Err(e) ==> e == PowError::InvalidDifficulty,
{
    proof {
        assert(8 * (usize::MAX / 8) <= usize::MAX) by (nonlinear_arith);
    }
    if difficulty > 8 * digest_length {
        Err(PowError::InvalidDifficulty)
    } else {
        Ok(())
    }
}

/// Search the nonce space of the declared width, in increasing big-endian
/// order from all-zero, for the first nonce whose attempt meets the
/// difficulty. An accepted nonce is the smallest satisfying one; `Err`
/// reports exhaustion: either the difficulty exceeds what a digest can hold,
/// or every nonce of the width was tried and failed.
#[verifier::loop_isolation(false)]
pub fn find_nonce_for_difficulty(data: &Vec<u8>, width: usize, difficulty: usize) -> (r: Result<
    Vec<u8>,
    PowError,
>)
    requires
        data@.len() <= width,
    ensures
        r matches Ok(nonce) ==> (nonce@.len() == width && attempt_meets(
            data@,
            width as nat,
            nonce@,
            difficulty as nat,
        ) && forall|p: Seq<u8>|
            #![trigger attempt_meets(data@, width as nat, p, difficulty as nat)]
            p.len() == width && block_value(p) < block_value(nonce@) ==> !attempt_meets(
                data@,
                width as nat,
                p,
                difficulty as nat,
            )),
        r matches Err(e) ==> (e == PowError::SearchExhausted && (difficulty > 8 * DIGEST_LENGTH
            || forall|p: Seq<u8>|
            #![trigger attempt_meets(data@, width as nat, p, difficulty as nat)]
            p.len() == width ==> !attempt_meets(data@, width as nat, p, difficulty as nat))),
{
    if difficulty > 8 * DIGEST_LENGTH {
        return Err(PowError::SearchExhausted);
    }

    let padding = width - data.len();
    let mut padded: Vec<u8> = Vec::new();
    let mut i: usize = 0;
    while i < padding
        invariant
            i <= padding,
            padded@.len() == i,
            forall|k: int| 0 <= k < i ==> padded@[k] == 0u8,
        decreases padding - i,
    {
        padded.push(0u8);
        i = i + 1;
    }
    let mut j: usize = 0;
    while j < data.len()
        invariant
            j <= data@.len(),
            padded@.len() == padding + j,
            forall|k: int| 0 <= k < padding ==> padded@[k] == 0u8,
            forall|k: int| 0 <= k < j ==> padded@[padding + k] == data@[k],
        decreases data@.len() - j,
    {
        padded.push(data[j]);
        j = j + 1;
    }
    proof {
        assert(padded@ =~= padded_data(data@, width as nat));
    }

    let mut nonce = generate_initial_pad_(width);
    proof {
        lemma_zero_block_value(width as nat);
        lemma_pow256_pos(width as nat);
    }
    loop
        invariant
            padded@ == padded_data(data@, width as nat),
            padded@.len() == width,
            nonce@.len() == width,
            block_value(nonce@) < pow256(width as nat),
            difficulty <= 8 * DIGEST_LENGTH,
            forall|p: Seq<u8>|
                #![trigger attempt_meets(data@, width as nat, p, difficulty as nat)]
                p.len() == width && block_value(p) < block_value(nonce@) ==> !attempt_meets(
                    data@,
                    width as nat,
                    p,
                    difficulty as nat,
                ),
        decreases pow256(width as nat) - block_value(nonce@),
    {
        let sum = add_blocks(&padded, &nonce);
        let digest = hash(sum.as_slice());
        let zeros = count_leading_zeros_in_block(digest.as_slice());
        if zeros >= difficulty {
            return Ok(nonce);
        }
        let ghost prev = nonce@;
        proof {
            assert(!attempt_meets(data@, width as nat, prev, difficulty as nat));
        }
        match next_pad_(nonce) {
            Some(n) => {
                proof {
                    assert forall|p: Seq<u8>|
                        p.len() == width && block_value(p) < block_value(n@) implies !attempt_meets(
                        data@,
                        width as nat,
                        p,
                        difficulty as nat,
                    ) by {
                        if block_value(p) == block_value(prev) {
                            lemma_block_value_injective(p, prev);
                        }
                    }
                    lemma_block_value_bound(n@);
                }
                nonce = n;
            },
            None => {
                proof {
                    assert(block_value(prev) + 1 == pow256(width as nat));
                    assert forall|p: Seq<u8>| p.len() == width implies !attempt_meets(
                        data@,
                        width as nat,
                        p,
                        difficulty as nat,
                    ) by {
                        lemma_block_value_bound(p);
                        if block_value(p) == block_value(prev) {
                            lemma_block_value_injective(p, prev);
                        }
                    }
                }
                return Err(PowError::SearchExhausted);
            },
        }
    }
}

} // verus!
