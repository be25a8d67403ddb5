//! Bytes as they travel on a wire: one bit after the other, the top bit first.

use vstd::prelude::*;

verus! {

use crate::frame::bit_set;

/// The bits of a byte, top bit first.
pub open spec fn byte_bits(byte: u8) -> Seq<bool> {
    Seq::new(8, |i: int| bit_set(byte, 7 - i))
}

/// The bits of several bytes in turn.
pub open spec fn all_bits(bytes: Seq<u8>) -> Seq<bool>
    decreases bytes.len(),
{
    if bytes.len() == 0 {
        Seq::empty()
    } else {
        all_bits(bytes.drop_last()) + byte_bits(bytes.last())
    }
}

/// The number that bits spell, top bit first.
pub open spec fn msb_first(bits: Seq<bool>) -> nat
    decreases bits.len(),
{
    if bits.len() == 0 {
        0
    } else {
        2 * msb_first(bits.drop_last()) + (if bits.last() {
            1nat
        } else {
            0nat
        })
    }
}

/// Bits spell a number with as many binary digits.
pub proof fn lemma_msb_first_bound(bits: Seq<bool>)
    ensures
        msb_first(bits) < vstd::arithmetic::power2::pow2(bits.len()),
    decreases bits.len(),
{
    vstd::arithmetic::power2::lemma2_to64();
    if bits.len() > 0 {
        lemma_msb_first_bound(bits.drop_last());
        vstd::arithmetic::power2::lemma_pow2_unfold(bits.len());
    }
}

/// Eight bits spell the sum of their weights.
proof fn lemma_eight_bits(bits: Seq<bool>)
    requires
        bits.len() == 8,
    ensures
        msb_first(bits) == weight(bits[0], 128) + weight(bits[1], 64) + weight(bits[2], 32)
            + weight(bits[3], 16) + weight(bits[4], 8) + weight(bits[5], 4) + weight(bits[6], 2)
            + weight(bits[7], 1),
{
    reveal_with_fuel(msb_first, 9);
}

spec fn weight(bit: bool, value: nat) -> nat {
    if bit {
        value
    } else {
        0
    }
}

/// A byte is what its bits spell.
pub proof fn law_byte_bits_spell_the_byte(byte: u8)
    ensures
        msb_first(byte_bits(byte)) == byte,
{
    lemma_eight_bits(byte_bits(byte));
    assert(byte == ((byte >> 7u8) & 1) * 128 + ((byte >> 6u8) & 1) * 64 + ((byte >> 5u8) & 1) * 32
        + ((byte >> 4u8) & 1) * 16 + ((byte >> 3u8) & 1) * 8 + ((byte >> 2u8) & 1) * 4 + ((byte
        >> 1u8) & 1) * 2 + ((byte >> 0u8) & 1)) by (bit_vector);
    assert forall|i: u8| (byte >> i) & 1 == 0 || #[trigger] ((byte >> i) & 1) == 1 by {
        assert((byte >> i) & 1 == 0 || (byte >> i) & 1 == 1) by (bit_vector);
    }
}

/// Bytes that put the same bits on the wire are the same bytes.
pub proof fn law_bits_decide_the_bytes(a: Seq<u8>, b: Seq<u8>)
    requires
        all_bits(a) == all_bits(b),
    ensures
        a == b,
    decreases a.len(),
{
    lemma_bit_count(a);
    lemma_bit_count(b);
    if a.len() > 0 {
        let n = all_bits(a).len() - 8;
        assert(all_bits(a).skip(n) =~= byte_bits(a.last()));
        assert(all_bits(b).skip(n) =~= byte_bits(b.last()));
        assert(all_bits(a).take(n) =~= all_bits(a.drop_last()));
        assert(all_bits(b).take(n) =~= all_bits(b.drop_last()));
        law_byte_bits_spell_the_byte(a.last());
        law_byte_bits_spell_the_byte(b.last());
        law_bits_decide_the_bytes(a.drop_last(), b.drop_last());
        assert(a =~= a.drop_last().push(a.last()));
        assert(b =~= b.drop_last().push(b.last()));
    } else {
        assert(a =~= b);
    }
}

/// A byte takes eight bits.
pub proof fn lemma_bit_count(bytes: Seq<u8>)
    ensures
        all_bits(bytes).len() == 8 * bytes.len(),
    decreases bytes.len(),
{
    if bytes.len() > 0 {
        lemma_bit_count(bytes.drop_last());
    }
}

/// Bit `j` of byte `k` travels in place `8 * k + j`, and it is the one that counts
/// 128, 64, 32 and so on down to 1.
pub proof fn law_bits_travel_in_order(bytes: Seq<u8>, k: int, j: int)
    requires
        0 <= k < bytes.len(),
        0 <= j < 8,
    ensures
        all_bits(bytes).len() == 8 * bytes.len(),
        all_bits(bytes)[8 * k + j] == ((bytes[k] >> ((7 - j) as u8)) & 1 == 1),
    decreases bytes.len(),
{
    lemma_bit_count(bytes);
    lemma_bit_count(bytes.drop_last());
    if k < bytes.len() - 1 {
        law_bits_travel_in_order(bytes.drop_last(), k, j);
    }
}

/// Every further bit doubles the number that the bits before it spell.
pub proof fn law_bits_double(bits: Seq<bool>)
    ensures
        msb_first(Seq::empty()) == 0,
        msb_first(bits.push(false)) == 2 * msb_first(bits),
        msb_first(bits.push(true)) == 2 * msb_first(bits) + 1,
{
    assert(bits.push(false).drop_last() =~= bits);
    assert(bits.push(true).drop_last() =~= bits);
}

} // verus!
