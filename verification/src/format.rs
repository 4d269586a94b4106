//! Rendering blocks for display: bits of a byte, and the 8-character binary
//! string of each byte. The search itself returns raw byte sequences; these
//! helpers only turn them into human-readable text.

use vstd::prelude::*;
use vstd::string::StringExecFns;

verus! {

/// The bits of a byte, most significant first.
pub open spec fn spec_byte_bits(byte: u8) -> Seq<bool> {
    seq![
        (byte & 0x80u8) != 0,
        (byte & 0x40u8) != 0,
        (byte & 0x20u8) != 0,
        (byte & 0x10u8) != 0,
        (byte & 0x08u8) != 0,
        (byte & 0x04u8) != 0,
        (byte & 0x02u8) != 0,
        (byte & 0x01u8) != 0,
    ]
}

/// The character a bit is rendered as.
pub open spec fn spec_format_bit(bit: bool) -> char {
    if bit {
        '1'
    } else {
        '0'
    }
}

/// The 8-character binary rendering of a byte, most significant bit first.
pub open spec fn spec_format_byte(byte: u8) -> Seq<char> {
    spec_byte_bits(byte).map_values(|bit| spec_format_bit(bit))
}

/// The binary rendering of a byte sequence, byte by byte.
pub open spec fn spec_format_bytes(s: Seq<u8>) -> Seq<char>
    decreases s.len(),
{
    if s.len() == 0 {
        Seq::empty()
    } else {
        spec_format_byte(s[0]) + spec_format_bytes(s.drop_first())
    }
}

/// The bits of a byte as an array, most significant first.
pub fn byte_to_bits(byte: &u8) -> (r: [bool; 8])
    ensures
        r@ == spec_byte_bits(*byte),
{
    let r = [
        (*byte & 0b10000000) != 0,
        (*byte & 0b01000000) != 0,
        (*byte & 0b00100000) != 0,
        (*byte & 0b00010000) != 0,
        (*byte & 0b00001000) != 0,
        (*byte & 0b00000100) != 0,
        (*byte & 0b00000010) != 0,
        (*byte & 0b00000001) != 0,
    ];
    proof {
        assert(r@ =~= spec_byte_bits(*byte));
    }
    r
}

/// Render one bit.
pub fn format_bit(bit: bool) -> (c: char)
    ensures
        c == spec_format_bit(bit),
{
    if bit {
        return '1';
    }
    return '0';
}

/// Render a byte as its 8-bit binary string.
#[verifier::loop_isolation(false)]
pub fn format_byte(byte: &u8) -> (s: String)
    ensures
        s@ == spec_format_byte(*byte),
{
    let bits = byte_to_bits(byte);
    let mut s = String::new();
    let mut i: usize = 0;
    while i < 8
        invariant
            i <= 8,
            s@ =~= spec_format_byte(*byte).take(i as int),
        decreases 8 - i,
    {
        proof {
            reveal_strlit("1");
            reveal_strlit("0");
        }
        if bits[i] {
            s.append("1");
        } else {
            s.append("0");
        }
        proof {
            assert(spec_format_byte(*byte).take(i + 1) =~= spec_format_byte(*byte).take(
                i as int,
            ).push(spec_format_bit(bits@[i as int])));
        }
        i = i + 1;
    }
    proof {
        assert(spec_format_byte(*byte).take(8) =~= spec_format_byte(*byte));
    }
    s
}

/// Render a byte sequence as the concatenation of each byte's binary string.
#[verifier::loop_isolation(false)]
pub fn format_bytes(bytes: &[u8]) -> (s: String)
    ensures
        s@ == spec_format_bytes(bytes@),
{
    let mut s = String::new();
    let mut i: usize = 0;
    proof {
        assert(bytes@.take(0) =~= Seq::<u8>::empty());
    }
    while i < bytes.len()
        invariant
            i <= bytes@.len(),
            s@ == spec_format_bytes(bytes@.take(i as int)),
        decreases bytes@.len() - i,
    {
        let rendered = format_byte(&bytes[i]);
        s.append(rendered.as_str());
        proof {
            assert(bytes@.take(i + 1) =~= bytes@.take(i as int).push(bytes@[i as int]));
            lemma_format_bytes_snoc(bytes@.take(i as int), bytes@[i as int]);
        }
        i = i + 1;
    }
    proof {
        assert(bytes@.take(bytes@.len() as int) =~= bytes@);
    }
    s
}

/// Rendering one more byte appends its 8 characters.
proof fn lemma_format_bytes_snoc(s: Seq<u8>, x: u8)
    ensures
        spec_format_bytes(s.push(x)) == spec_format_bytes(s) + spec_format_byte(x),
    decreases s.len(),
{
    if s.len() == 0 {
        assert(s.push(x).drop_first() =~= Seq::<u8>::empty());
        assert(s.push(x)[0] == x);
        assert(spec_format_bytes(s.push(x)) == spec_format_byte(x) + spec_format_bytes(
            s.push(x).drop_first(),
        ));
        assert(spec_format_byte(x) + Seq::<char>::empty() =~= Seq::<char>::empty()
            + spec_format_byte(x));
    } else {
        assert(s.push(x).drop_first() =~= s.drop_first().push(x));
        assert(s.push(x)[0] == s[0]);
        lemma_format_bytes_snoc(s.drop_first(), x);
        assert(spec_format_byte(s[0]) + (spec_format_bytes(s.drop_first()) + spec_format_byte(x))
            =~= (spec_format_byte(s[0]) + spec_format_bytes(s.drop_first())) + spec_format_byte(
            x,
        ));
    }
}

} // verus!
