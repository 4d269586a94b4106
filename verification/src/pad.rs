//! The nonce enumerator: a big-endian odometer over fixed-width blocks.
//!
//! A pad starts at the all-zero block of its declared width and is advanced by
//! `next_pad_`, which adds one with carry propagation from the least
//! significant byte. When every byte is 0xff (or the width is zero, which has
//! no representable increment), the enumerator is exhausted and reports `None`
//! rather than wrapping; `next_pad` keeps `None` terminal, so no operation
//! leaves the exhausted state.

use crate::value::{
    be_encode, block_value, is_all_ff, lemma_all_ff_value, lemma_be_encode_block_value,
    lemma_be_encode_len, lemma_be_encode_value, lemma_block_value_append,
    lemma_block_value_bound, lemma_pow256_pos, lemma_zero_block_value, pow256, zero_block,
};
use vstd::arithmetic::div_mod::lemma_small_mod;
use vstd::prelude::*;

verus! {

/// The successor of a block in the fixed-width enumeration: one more, at the
/// same width, or `None` once no further value is representable.
pub open spec fn spec_next_pad(s: Seq<u8>) -> Option<Seq<u8>> {
    if block_value(s) + 1 == pow256(s.len()) {
        None
    } else {
        Some(be_encode(block_value(s) + 1, s.len()))
    }
}

/// The pad reached from all-zero after `k` advances, `None` once exhausted.
pub open spec fn nth_pad(width: nat, k: nat) -> Option<Seq<u8>>
    decreases k,
{
    if k == 0 {
        Some(zero_block(width))
    } else {
        match nth_pad(width, (k - 1) as nat) {
            Some(p) => spec_next_pad(p),
            None => None,
        }
    }
}

/// The all-zero pad of the given width: the enumeration's starting point.
pub fn generate_initial_pad_(length: usize) -> (r: Vec<u8>)
    ensures
        r@ == zero_block(length as nat),
{
    let mut pad: Vec<u8> = Vec::new();
    let mut i: usize = 0;
    while i < length
        invariant
            i <= length,
            pad@.len() == i,
            forall|k: int| 0 <= k < i ==> pad@[k] == 0u8,
        decreases length - i,
    {
        pad.push(0u8);
        i = i + 1;
    }
    proof {
        assert(pad@ =~= zero_block(length as nat));
    }
    pad
}

/// The starting pad, already wrapped as an active enumerator state.
pub fn generate_initial_pad(length: usize) -> (r: Option<Vec<u8>>)
    ensures
        r matches Some(p) && p@ == zero_block(length as nat),
{
    Some(generate_initial_pad_(length))
}

/// Advance a pad by one. Carries propagate from the last byte toward index 0;
/// a pad of all 0xff bytes (or of width zero) is exhausted and yields `None`.
#[verifier::loop_isolation(false)]
pub fn next_pad_(pad: Vec<u8>) -> (r: Option<Vec<u8>>)
    ensures
        (r is None) == (spec_next_pad(pad@) is None),
        r matches Some(p) ==> (Some(p@) == spec_next_pad(pad@) && p@.len() == pad@.len()
            && block_value(p@) == block_value(pad@) + 1),
{
    let ghost orig = pad@;
    let mut pad = pad;
    if pad.len() == 0 {
        return None;
    }
    let mut idx: usize = pad.len() - 1;
    while idx > 0
        invariant
            pad@.len() == orig.len(),
            0 <= idx < orig.len(),
            forall|k: int| 0 <= k <= idx ==> pad@[k] == orig[k],
            forall|k: int| idx < k < orig.len() ==> orig[k] == 0xffu8,
            forall|k: int| idx < k < orig.len() ==> pad@[k] == 0u8,
        decreases idx,
    {
        if pad[idx] != 255 {
            let incremented = pad[idx] + 1;
            pad.set(idx, incremented);
            proof {
                lemma_carry_step(orig, pad@, idx as int);
            }
            return Some(pad);
        } else {
            pad.set(idx, 0u8);
            idx = idx - 1;
        }
    }
    // The most significant byte is inspected by hand: idx cannot go below 0.
    if pad[0] != 255 {
        let incremented = pad[0] + 1;
        pad.set(0, incremented);
        proof {
            lemma_carry_step(orig, pad@, 0);
        }
        return Some(pad);
    }
    proof {
        assert(is_all_ff(orig));
        lemma_all_ff_value(orig);
    }
    None
}

/// After incrementing the byte at `i` and zeroing the 0xff run behind it, the
/// block's value has grown by exactly one and still fits the width.
proof fn lemma_carry_step(orig: Seq<u8>, new: Seq<u8>, i: int)
    requires
        orig.len() == new.len(),
        0 <= i < orig.len(),
        forall|k: int| 0 <= k < i ==> new[k] == orig[k],
        orig[i] < 255,
        new[i] == orig[i] + 1,
        forall|k: int| i < k < orig.len() ==> orig[k] == 0xffu8,
        forall|k: int| i < k < orig.len() ==> new[k] == 0u8,
    ensures
        block_value(new) == block_value(orig) + 1,
        block_value(orig) + 1 < pow256(orig.len()),
        spec_next_pad(orig) == Some(new),
{
    let len = orig.len() as int;
    let k = (len - i - 1) as nat;
    let prefix = orig.subrange(0, i);
    let ff_run = orig.subrange(i + 1, len);
    let zero_run = new.subrange(i + 1, len);

    assert(orig =~= (prefix + seq![orig[i]]) + ff_run);
    assert(new =~= (prefix + seq![new[i]]) + zero_run);

    lemma_block_value_append(prefix + seq![orig[i]], ff_run);
    lemma_block_value_append(prefix + seq![new[i]], zero_run);

    assert(is_all_ff(ff_run));
    lemma_all_ff_value(ff_run);
    assert(zero_run =~= zero_block(k));
    lemma_zero_block_value(k);

    assert((prefix + seq![orig[i]]).drop_last() =~= prefix);
    assert((prefix + seq![new[i]]).drop_last() =~= prefix);
    assert(block_value(prefix + seq![orig[i]]) == 256 * block_value(prefix) + orig[i]);
    assert(block_value(prefix + seq![new[i]]) == 256 * block_value(prefix) + orig[i] + 1);

    let u = (256 * block_value(prefix) + orig[i]) as int;
    let p = pow256(k) as int;
    lemma_pow256_pos(k);
    assert(block_value(orig) == u * p + (p - 1));
    assert(block_value(new) == (u + 1) * p);
    assert((u + 1) * p == u * p + p) by (nonlinear_arith);

    lemma_block_value_bound(new);
    lemma_be_encode_block_value(new);
}

/// Advance an enumerator state: an active pad moves to its successor or to the
/// exhausted state; the exhausted state is terminal.
pub fn next_pad(pad: Option<Vec<u8>>) -> (r: Option<Vec<u8>>)
    ensures
        pad matches Some(p) ==> ((r is None) == (spec_next_pad(p@) is None)),
        pad matches Some(p) ==> (r matches Some(q) ==> (Some(q@) == spec_next_pad(p@)
            && q@.len() == p@.len() && block_value(q@) == block_value(p@) + 1)),
        pad is None ==> r is None,
{
    match pad {
        Some(pad_) => next_pad_(pad_),
        None => None,
    }
}

/// Advance a pad that is known not to be exhausted.
pub fn next_pad_assume_valid(pad: Vec<u8>) -> (r: Vec<u8>)
    requires
        spec_next_pad(pad@) is Some,
    ensures
        Some(r@) == spec_next_pad(pad@),
        r@.len() == pad@.len(),
        block_value(r@) == block_value(pad@) + 1,
{
    match next_pad_(pad) {
        Some(p) => p,
        None => vstd::pervasive::unreached(),
    }
}

/// Exhaustion, exactly: a block advances if and only if some byte is below
/// 0xff; the all-0xff block (and the empty block) has no successor.
pub proof fn lemma_all_ff_exhausts(s: Seq<u8>)
    ensures
        (spec_next_pad(s) is None) == is_all_ff(s),
{
    lemma_all_ff_value(s);
    lemma_block_value_bound(s);
}

/// No skipped values: a block that is not all 0xff has a successor holding
/// exactly the next value, and when that successor is not all 0xff either, a
/// second advance lands exactly two past the start.
pub proof fn lemma_increment_no_skips(s: Seq<u8>)
    requires
        !is_all_ff(s),
    ensures
        spec_next_pad(s) matches Some(t) && t.len() == s.len() && block_value(t) == block_value(
            s,
        ) + 1 && (!is_all_ff(t) ==> spec_next_pad(t) == Some(
            be_encode(block_value(s) + 2, s.len()),
        )),
{
    lemma_all_ff_value(s);
    lemma_block_value_bound(s);
    let n = s.len();
    let v = block_value(s);
    lemma_pow256_pos(n);
    lemma_be_encode_len((v + 1) as nat, n);
    lemma_be_encode_value((v + 1) as nat, n);
    lemma_small_mod((v + 1) as nat, pow256(n));
    let t = be_encode((v + 1) as nat, n);
    if !is_all_ff(t) {
        lemma_all_ff_value(t);
        lemma_block_value_bound(t);
    }
}

/// Round trip through the enumeration: starting at all-zero, `k` advances
/// reach exactly the big-endian representation of the integer `k`, for every
/// `k` the width can represent.
pub proof fn lemma_enumeration_round_trip(width: nat, k: nat)
    requires
        k < pow256(width),
    ensures
        nth_pad(width, k) == Some(be_encode(k, width)),
        block_value(be_encode(k, width)) == k,
    decreases k,
{
    lemma_be_encode_len(k, width);
    lemma_be_encode_value(k, width);
    lemma_small_mod(k, pow256(width));
    if k == 0 {
        lemma_zero_block_value(width);
        lemma_be_encode_block_value(zero_block(width));
    } else {
        lemma_enumeration_round_trip(width, (k - 1) as nat);
        lemma_be_encode_len((k - 1) as nat, width);
        let prev = be_encode((k - 1) as nat, width);
        assert(block_value(prev) + 1 == k);
        assert(spec_next_pad(prev) == Some(be_encode(k, width)));
    }
}

} // verus!
