//! Mathematical model of fixed-width big-endian blocks.
//!
//! A block is a sequence of bytes read as an unsigned integer with the most
//! significant byte at index 0. `block_value` maps a block to that integer,
//! `be_encode` maps an integer back to its fixed-width representation, and the
//! lemmas here relate the two.

use vstd::arithmetic::div_mod::{
    lemma_fundamental_div_mod_converse_div, lemma_fundamental_div_mod_converse_mod,
    lemma_mod_breakdown, lemma_small_mod,
};
use vstd::prelude::*;

verus! {

/// 256 raised to the power `n`: the number of distinct values of an `n`-byte block.
pub open spec fn pow256(n: nat) -> nat
    decreases n,
{
    if n == 0 {
        1
    } else {
        256 * pow256((n - 1) as nat)
    }
}

/// The big-endian unsigned integer value of a block.
pub open spec fn block_value(s: Seq<u8>) -> nat
    decreases s.len(),
{
    if s.len() == 0 {
        0
    } else {
        (256 * block_value(s.drop_last()) + s.last()) as nat
    }
}

/// The `n`-byte big-endian representation of `v % pow256(n)`.
pub open spec fn be_encode(v: nat, n: nat) -> Seq<u8>
    decreases n,
{
    if n == 0 {
        Seq::empty()
    } else {
        be_encode(v / 256, (n - 1) as nat).push((v % 256) as u8)
    }
}

/// The all-zero block of width `n`.
pub open spec fn zero_block(n: nat) -> Seq<u8> {
    Seq::new(n, |i: int| 0u8)
}

/// Every byte of the block is at its maximum value. Holds vacuously for the
/// empty block, which is likewise exhausted: it has no successor.
pub open spec fn is_all_ff(s: Seq<u8>) -> bool {
    forall|i: int| 0 <= i < s.len() ==> s[i] == 0xffu8
}

/// The all-0xff block of width `n`: the largest value the width can hold.
pub open spec fn ff_block(n: nat) -> Seq<u8> {
    Seq::new(n, |i: int| 0xffu8)
}

pub proof fn lemma_pow256_pos(n: nat)
    ensures
        pow256(n) >= 1,
    decreases n,
{
    if n > 0 {
        lemma_pow256_pos((n - 1) as nat);
    }
}

/// A block's value fits in its width.
pub proof fn lemma_block_value_bound(s: Seq<u8>)
    ensures
        block_value(s) < pow256(s.len()),
    decreases s.len(),
{
    if s.len() > 0 {
        let d = s.drop_last();
        lemma_block_value_bound(d);
        assert(256 * block_value(d) <= 256 * (pow256(d.len()) - 1)) by (nonlinear_arith)
            requires
                block_value(d) <= pow256(d.len()) - 1,
        ;
    }
}

pub proof fn lemma_be_encode_len(v: nat, n: nat)
    ensures
        be_encode(v, n).len() == n,
    decreases n,
{
    if n > 0 {
        lemma_be_encode_len(v / 256, (n - 1) as nat);
    }
}

/// Encoding keeps exactly the value modulo the width's radix.
pub proof fn lemma_be_encode_value(v: nat, n: nat)
    ensures
        block_value(be_encode(v, n)) == v % pow256(n),
    decreases n,
{
    if n == 0 {
        lemma_small_mod(0, 1);
        assert(v % 1 == 0) by (nonlinear_arith);
    } else {
        let m = (n - 1) as nat;
        let enc = be_encode(v, n);
        lemma_be_encode_value(v / 256, m);
        lemma_be_encode_len(v / 256, m);
        assert(enc.drop_last() =~= be_encode(v / 256, m));
        assert(block_value(enc) == 256 * ((v / 256) % pow256(m)) + v % 256);
        lemma_pow256_pos(m);
        lemma_mod_breakdown(v as int, 256, pow256(m) as int);
        assert(v % (256 * pow256(m)) == 256 * ((v / 256) % pow256(m)) + v % 256);
    }
}

/// Encoding a block's value at the block's own width gives back the block.
pub proof fn lemma_be_encode_block_value(s: Seq<u8>)
    ensures
        be_encode(block_value(s), s.len()) == s,
    decreases s.len(),
{
    if s.len() > 0 {
        let d = s.drop_last();
        let v = block_value(s);
        lemma_be_encode_block_value(d);
        lemma_fundamental_div_mod_converse_div(
            v as int,
            256,
            block_value(d) as int,
            s.last() as int,
        );
        lemma_fundamental_div_mod_converse_mod(
            v as int,
            256,
            block_value(d) as int,
            s.last() as int,
        );
        assert(be_encode(v, s.len()) =~= s);
    }
}

/// Two blocks of one width with one value are the same block.
pub proof fn lemma_block_value_injective(s: Seq<u8>, t: Seq<u8>)
    requires
        s.len() == t.len(),
        block_value(s) == block_value(t),
    ensures
        s == t,
{
    lemma_be_encode_block_value(s);
    lemma_be_encode_block_value(t);
}

/// The value of a concatenation: the left part is shifted past the right part.
pub proof fn lemma_block_value_append(s: Seq<u8>, t: Seq<u8>)
    ensures
        block_value(s + t) == block_value(s) * pow256(t.len()) + block_value(t),
    decreases t.len(),
{
    if t.len() == 0 {
        assert(s + t =~= s);
        assert(pow256(t.len()) == 1);
        assert(block_value(t) == 0);
        assert(block_value(s) * 1 == block_value(s)) by (nonlinear_arith);
        assert(block_value(s + t) == block_value(s) * pow256(t.len()) + block_value(t));
    } else {
        let d = t.drop_last();
        assert((s + t).drop_last() =~= s + d);
        assert((s + t).last() == t.last());
        lemma_block_value_append(s, d);
        let bs = block_value(s) as int;
        let bd = block_value(d) as int;
        let p = pow256(d.len()) as int;
        let l = t.last() as int;
        assert(block_value(s + t) == 256 * (bs * p + bd) + l);
        assert(pow256(t.len()) == 256 * p);
        assert(block_value(t) == 256 * bd + l);
        assert(256 * (bs * p + bd) + l == bs * (256 * p) + (256 * bd + l)) by (nonlinear_arith);
        assert(block_value(s + t) == block_value(s) * pow256(t.len()) + block_value(t));
    }
}

pub proof fn lemma_zero_block_value(n: nat)
    ensures
        block_value(zero_block(n)) == 0,
    decreases n,
{
    if n > 0 {
        assert(zero_block(n).drop_last() =~= zero_block((n - 1) as nat));
        lemma_zero_block_value((n - 1) as nat);
    }
}

/// A block is all 0xff exactly when its value is the largest its width can hold.
pub proof fn lemma_all_ff_value(s: Seq<u8>)
    ensures
        is_all_ff(s) <==> block_value(s) == pow256(s.len()) - 1,
    decreases s.len(),
{
    if s.len() > 0 {
        let d = s.drop_last();
        lemma_all_ff_value(d);
        lemma_block_value_bound(d);
        lemma_pow256_pos(d.len());
        if is_all_ff(s) {
            assert(is_all_ff(d));
        } else {
            if block_value(s) == pow256(s.len()) - 1 {
                // value == 256 * high + last with last < 256 forces
                // last == 255 and high == pow256(len - 1) - 1
                lemma_fundamental_div_mod_converse_div(
                    (pow256(s.len()) - 1) as int,
                    256,
                    (pow256(d.len()) - 1) as int,
                    255,
                );
                lemma_fundamental_div_mod_converse_mod(
                    (pow256(s.len()) - 1) as int,
                    256,
                    (pow256(d.len()) - 1) as int,
                    255,
                );
                lemma_fundamental_div_mod_converse_div(
                    block_value(s) as int,
                    256,
                    block_value(d) as int,
                    s.last() as int,
                );
                lemma_fundamental_div_mod_converse_mod(
                    block_value(s) as int,
                    256,
                    block_value(d) as int,
                    s.last() as int,
                );
                assert(forall|i: int| 0 <= i < d.len() ==> s[i] == d[i]);
                assert(false);
            }
        }
    }
}

} // verus!
