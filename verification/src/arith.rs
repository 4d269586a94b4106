//! Fixed-width big-endian arithmetic over blocks.
//!
//! `add_blocks` combines two equal-length blocks as big-endian unsigned
//! integers, discarding any carry out of the most significant byte: the sum is
//! taken modulo the width's radix. `xor_blocks` is the alternative bytewise
//! combination; the two are not interchangeable, since only addition
//! propagates carries.

use crate::error::PowError;
use crate::value::{
    be_encode, block_value, ff_block, is_all_ff, lemma_all_ff_value, lemma_be_encode_len,
    lemma_be_encode_value, lemma_block_value_append, lemma_block_value_bound,
    lemma_block_value_injective, lemma_pow256_pos, pow256,
};
use vstd::arithmetic::div_mod::{lemma_mod_multiples_vanish, lemma_small_mod};
use vstd::prelude::*;

verus! {

/// The block that `add_blocks` returns: the modular big-endian sum of two
/// equal-length blocks, at their shared width.
pub open spec fn spec_add_blocks(a: Seq<u8>, b: Seq<u8>) -> Seq<u8> {
    be_encode(block_value(a) + block_value(b), a.len())
}

/// 8-bit addition: the low byte of the sum, and whether the sum overflowed.
pub fn add_with_carry(x: u8, y: u8) -> (r: (u8, bool))
    ensures
        r.0 == (x + y) % 256,
        r.1 == (x + y >= 256),
{
    let sum: u16 = (x as u16) + (y as u16);
    let least_significant_byte = (sum % 256) as u8;
    (least_significant_byte, sum >= 256u16)
}

/// Big-endian addition of two equal-length blocks, least significant byte
/// last, propagating the carry toward index 0 and discarding the carry out of
/// the most significant byte.
pub fn add_blocks(data: &Vec<u8>, pad: &Vec<u8>) -> (r: Vec<u8>)
    requires
        data@.len() == pad@.len(),
    ensures
        r@ == spec_add_blocks(data@, pad@),
        r@.len() == data@.len(),
        block_value(r@) == (block_value(data@) + block_value(pad@)) % pow256(data@.len()),
{
    let length: usize = data.len();
    let mut sum: Vec<u8> = Vec::new();
    while sum.len() < length
        invariant
            sum@.len() <= length,
        decreases length - sum@.len(),
    {
        sum.push(0u8);
    }

    let mut carry = false;
    let mut j: usize = 0;
    while j < length
        invariant
            j <= length,
            length == data@.len() == pad@.len(),
            sum@.len() == length,
            block_value(sum@.subrange(length - j, length as int)) + (if carry {
                1int
            } else {
                0int
            }) * pow256(j as nat) == block_value(data@.subrange(length - j, length as int))
                + block_value(pad@.subrange(length - j, length as int)),
        decreases length - j,
    {
        let i = length - 1 - j;
        let ghost old_sum = sum@;
        let ghost old_carry = carry;
        if !carry {
            let (partial_sum, partial_carry) = add_with_carry(data[i], pad[i]);
            sum.set(i, partial_sum);
            carry = partial_carry;
        } else {
            let temp_sum: u16 = (data[i] as u16) + (pad[i] as u16) + 1u16;
            sum.set(i, (temp_sum % 256) as u8);
            carry = temp_sum >= 256u16;
        }
        proof {
            let x = data@[i as int] as int;
            let y = pad@[i as int] as int;
            let cin: int = if old_carry {
                1
            } else {
                0
            };
            let cout: int = if carry {
                1
            } else {
                0
            };
            let s_i = sum@[i as int] as int;
            assert(x + y + cin == 256 * cout + s_i) by (nonlinear_arith)
                requires
                    0 <= x < 256,
                    0 <= y < 256,
                    0 <= cin <= 1,
                    s_i == (x + y + cin) % 256,
                    cout == (if x + y + cin >= 256 {
                        1int
                    } else {
                        0int
                    }),
            ;
            lemma_add_blocks_step(data@, pad@, old_sum, sum@, old_carry, carry, j as nat);
        }
        j = j + 1;
    }
    proof {
        assert(sum@.subrange(0, length as int) =~= sum@);
        assert(data@.subrange(0, length as int) =~= data@);
        assert(pad@.subrange(0, length as int) =~= pad@);
        lemma_add_blocks_total(data@, pad@, sum@, carry);
    }
    sum
}

/// One step of the carry chain: after writing byte `i = len - 1 - j`, the
/// processed suffix still adds up, with the carry weighted one place higher.
proof fn lemma_add_blocks_step(
    data: Seq<u8>,
    pad: Seq<u8>,
    old_sum: Seq<u8>,
    new_sum: Seq<u8>,
    c_in: bool,
    c_out: bool,
    j: nat,
)
    requires
        data.len() == pad.len() == old_sum.len() == new_sum.len(),
        j < data.len(),
        block_value(old_sum.subrange(data.len() - j, data.len() as int)) + (if c_in {
            1int
        } else {
            0int
        }) * pow256(j) == block_value(data.subrange(data.len() - j, data.len() as int))
            + block_value(pad.subrange(data.len() - j, data.len() as int)),
        new_sum == old_sum.update(data.len() - j - 1, new_sum[data.len() - j - 1]),
        data[data.len() - j - 1] + pad[data.len() - j - 1] + (if c_in {
            1int
        } else {
            0int
        }) == 256 * (if c_out {
            1int
        } else {
            0int
        }) + new_sum[data.len() - j - 1],
    ensures
        block_value(new_sum.subrange(data.len() - j - 1, data.len() as int)) + (if c_out {
            1int
        } else {
            0int
        }) * pow256((j + 1) as nat) == block_value(
            data.subrange(data.len() - j - 1, data.len() as int),
        ) + block_value(pad.subrange(data.len() - j - 1, data.len() as int)),
{
    let len = data.len() as int;
    let i = len - j - 1;
    let cin: int = if c_in { 1 } else { 0 };
    let cout: int = if c_out { 1 } else { 0 };
    let pj = pow256(j) as int;

    assert(new_sum.subrange(i + 1, len) =~= old_sum.subrange(i + 1, len));
    lemma_prepend_byte(new_sum, i, len);
    lemma_prepend_byte(data, i, len);
    lemma_prepend_byte(pad, i, len);

    let s_i = new_sum[i] as int;
    let x = data[i] as int;
    let y = pad[i] as int;
    let bs = block_value(old_sum.subrange(i + 1, len)) as int;
    let bd = block_value(data.subrange(i + 1, len)) as int;
    let bp = block_value(pad.subrange(i + 1, len)) as int;

    assert(block_value(new_sum.subrange(i, len)) == s_i * pj + bs);
    assert(block_value(data.subrange(i, len)) == x * pj + bd);
    assert(block_value(pad.subrange(i, len)) == y * pj + bp);
    assert(bd + bp == bs + cin * pj);
    assert(pow256((j + 1) as nat) == 256 * pj);
    assert((x * pj + bd) + (y * pj + bp) == (x + y + cin) * pj + bs) by (nonlinear_arith)
        requires
            bd + bp == bs + cin * pj,
    ;
    assert((x + y + cin) * pj == (256 * cout + s_i) * pj) by (nonlinear_arith)
        requires
            x + y + cin == 256 * cout + s_i,
    ;
    assert((256 * cout + s_i) * pj == cout * (256 * pj) + s_i * pj) by (nonlinear_arith);
}

/// The value of the suffix starting at `i` is the byte at `i` weighted by its
/// place, plus the value of the suffix after it.
proof fn lemma_prepend_byte(s: Seq<u8>, i: int, len: int)
    requires
        len == s.len(),
        0 <= i < len,
    ensures
        block_value(s.subrange(i, len)) == s[i] * pow256((len - i - 1) as nat) + block_value(
            s.subrange(i + 1, len),
        ),
{
    let single = seq![s[i]];
    assert(s.subrange(i, len) =~= single + s.subrange(i + 1, len));
    lemma_block_value_append(single, s.subrange(i + 1, len));
    assert(single.len() == 1 && single.last() == s[i]);
    assert(single.drop_last() =~= Seq::<u8>::empty());
    assert(block_value(Seq::<u8>::empty()) == 0);
    assert(block_value(single) == s[i]);
}

/// From the full-width carry identity to the modular statement of `add_blocks`.
proof fn lemma_add_blocks_total(data: Seq<u8>, pad: Seq<u8>, sum: Seq<u8>, carry: bool)
    requires
        data.len() == pad.len() == sum.len(),
        block_value(sum) + (if carry {
            1int
        } else {
            0int
        }) * pow256(data.len()) == block_value(data) + block_value(pad),
    ensures
        sum == spec_add_blocks(data, pad),
        block_value(sum) == (block_value(data) + block_value(pad)) % pow256(data.len()),
{
    let n = data.len();
    let p = pow256(n) as int;
    let b = block_value(sum) as int;
    let v = (block_value(data) + block_value(pad)) as nat;
    lemma_block_value_bound(sum);
    lemma_pow256_pos(n);
    lemma_small_mod(block_value(sum), pow256(n));
    if carry {
        lemma_mod_multiples_vanish(1, b, p);
        assert(p * 1 + b == v);
    }
    assert(v % pow256(n) == block_value(sum));
    lemma_be_encode_value(v, n);
    lemma_be_encode_len(v, n);
    lemma_block_value_injective(sum, be_encode(v, n));
}

/// Bytewise exclusive-or of two equal-length blocks. Unused by the search,
/// which combines by addition; kept as the explicitly distinct alternative.
pub fn xor_blocks(data: &Vec<u8>, pad: &Vec<u8>) -> (r: Vec<u8>)
    requires
        data@.len() == pad@.len(),
    ensures
        r@.len() == data@.len(),
        forall|i: int| 0 <= i < r@.len() ==> r@[i] == (data@[i] ^ pad@[i]),
{
    let mut xored: Vec<u8> = Vec::new();
    let mut i: usize = 0;
    while i < data.len()
        invariant
            i <= data@.len() == pad@.len(),
            xored@.len() == i,
            forall|k: int| 0 <= k < i ==> xored@[k] == (data@[k] ^ pad@[k]),
        decreases data@.len() - i,
    {
        xored.push(data[i] ^ pad[i]);
        i = i + 1;
    }
    xored
}

/// `add_blocks` behind the length check: mismatched widths are rejected, never
/// truncated or padded.
pub fn add_blocks_checked(data: &Vec<u8>, pad: &Vec<u8>) -> (r: Result<Vec<u8>, PowError>)
    ensures
        data@.len() == pad@.len() ==> (r matches Ok(s) && s@ == spec_add_blocks(data@, pad@)),
        data@.len() != pad@.len() ==> (r matches Err(e) && e == PowError::LengthMismatch),
{
    if data.len() != pad.len() {
        Err(PowError::LengthMismatch)
    } else {
        Ok(add_blocks(data, pad))
    }
}

/// Adding blocks is commutative: combining `a` with `b` and `b` with `a`
/// yields one and the same block, for all equal-length blocks.
pub proof fn lemma_add_blocks_commutative(a: Seq<u8>, b: Seq<u8>)
    requires
        a.len() == b.len(),
    ensures
        spec_add_blocks(a, b) == spec_add_blocks(b, a),
{
}

/// Adding the all-0xff block of any positive width to itself wraps modularly:
/// the carry out of the most significant byte is discarded, leaving 0xff in
/// every byte but the last, which holds 0xfe.
pub proof fn lemma_add_all_ff_wraps(n: nat)
    requires
        n >= 1,
    ensures
        spec_add_blocks(ff_block(n), ff_block(n)) == ff_block((n - 1) as nat).push(0xfeu8),
{
    let f = ff_block(n);
    let t = ff_block((n - 1) as nat).push(0xfeu8);
    let p = pow256(n) as int;
    assert(is_all_ff(f));
    lemma_all_ff_value(f);
    assert(t.drop_last() =~= ff_block((n - 1) as nat));
    assert(is_all_ff(ff_block((n - 1) as nat)));
    lemma_all_ff_value(ff_block((n - 1) as nat));
    lemma_pow256_pos((n - 1) as nat);
    assert(block_value(t) == p - 2);

    let v = (block_value(f) + block_value(f)) as nat;
    assert(v == 2 * p - 2);
    lemma_be_encode_value(v, n);
    lemma_be_encode_len(v, n);
    lemma_mod_multiples_vanish(1, p - 2, p);
    assert(p * 1 + (p - 2) == v);
    lemma_small_mod((p - 2) as nat, p as nat);
    assert(block_value(be_encode(v, n)) == p - 2);
    lemma_block_value_injective(be_encode(v, n), t);
}

} // verus!
