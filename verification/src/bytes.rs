//! Unsigned integers as little-endian bytes.

use vstd::arithmetic::power::{lemma_pow_increases, pow};
use vstd::prelude::*;

verus! {

/// The number that `bytes` stand for, the least significant byte first.
pub open spec fn le_value(bytes: Seq<u8>) -> nat
    decreases bytes.len(),
{
    if bytes.len() == 0 {
        0
    } else {
        bytes[0] as nat + 256 * le_value(bytes.drop_first())
    }
}

/// `count` bytes stand for a number below 256 to the power of `count`.
proof fn lemma_le_value_bound(bytes: Seq<u8>)
    ensures
        le_value(bytes) < pow(256, bytes.len()),
    decreases bytes.len(),
{
    reveal(pow);
    if bytes.len() > 0 {
        lemma_le_value_bound(bytes.drop_first());
    }
}

/// Eight bytes hold every number of 64 bits and no other.
proof fn lemma_pow_256_8()
    ensures
        pow(256, 8) == 0x1_0000_0000_0000_0000,
{
    reveal_with_fuel(pow, 9);
}

/// The number that at most eight bytes stand for.
pub fn le_u64(bytes: &[u8]) -> (value: u64)
    requires
        bytes@.len() <= 8,
    ensures
        value == le_value(bytes@),
{
    let mut value: u64 = 0;
    let mut i: usize = bytes.len();
    assert(bytes@.skip(bytes@.len() as int) =~= Seq::<u8>::empty());
    while i > 0
        invariant
            bytes@.len() <= 8,
            i <= bytes@.len(),
            value == le_value(bytes@.skip(i as int)),
        decreases i,
    {
        let ghost longer = bytes@.skip(i - 1);
        proof {
            assert(longer.drop_first() =~= bytes@.skip(i as int));
            lemma_le_value_bound(longer);
            lemma_pow_256_8();
            lemma_pow_increases(256, longer.len(), 8);
        }
        i -= 1;
        value = value * 256 + bytes[i] as u64;
    }
    assert(bytes@.skip(0) =~= bytes@);
    value
}

/// The `count` bytes that stand for `value`, the least significant first. What does not fit into
/// them is cut off.
pub open spec fn le_bytes(value: nat, count: nat) -> Seq<u8>
    decreases count,
{
    if count == 0 {
        Seq::empty()
    } else {
        seq![(value % 256) as u8] + le_bytes(value / 256, (count - 1) as nat)
    }
}

/// The bytes of a number that fits into them stand for it.
pub proof fn law_le_bytes_stand_for_their_value(value: nat, count: nat)
    requires
        value < pow(256, count),
    ensures
        le_bytes(value, count).len() == count,
        le_value(le_bytes(value, count)) == value,
    decreases count,
{
    reveal(pow);
    if count > 0 {
        let rest = (count - 1) as nat;
        law_le_bytes_stand_for_their_value(value / 256, rest);
        assert(le_bytes(value, count).drop_first() =~= le_bytes(value / 256, rest));
    }
}

/// Bytes are the bytes of the number that they stand for.
pub proof fn lemma_le_bytes_of_le_value(bytes: Seq<u8>)
    ensures
        le_bytes(le_value(bytes), bytes.len()) == bytes,
    decreases bytes.len(),
{
    if bytes.len() > 0 {
        let rest = bytes.drop_first();
        lemma_le_bytes_of_le_value(rest);
        assert(le_value(bytes) % 256 == bytes[0]);
        assert(le_value(bytes) / 256 == le_value(rest));
        assert(seq![bytes[0]] + rest =~= bytes);
    } else {
        assert(le_bytes(le_value(bytes), 0) =~= bytes);
    }
}

/// Eight bytes are enough for a number of 64 bits.
pub proof fn lemma_u64_fits_into_eight_bytes(value: u64)
    ensures
        le_bytes(value as nat, 8).len() == 8,
        le_value(le_bytes(value as nat, 8)) == value,
{
    lemma_pow_256_8();
    law_le_bytes_stand_for_their_value(value as nat, 8);
}

/// The eight bytes that stand for `value`, the least significant first.
pub fn u64_le_bytes(value: u64) -> (bytes: Vec<u8>)
    ensures
        bytes@ == le_bytes(value as nat, 8),
        bytes@.len() == 8,
        le_value(bytes@) == value,
{
    let mut bytes: Vec<u8> = Vec::new();
    let mut rest: u64 = value;
    while bytes.len() < 8
        invariant
            bytes@.len() <= 8,
            bytes@ + le_bytes(rest as nat, (8 - bytes@.len()) as nat) == le_bytes(value as nat, 8),
        decreases 8 - bytes.len(),
    {
        let ghost left = (8 - bytes@.len()) as nat;
        let ghost before = bytes@;
        bytes.push((rest % 256) as u8);
        proof {
            assert(bytes@ + le_bytes((rest / 256) as nat, (left - 1) as nat) =~= before + le_bytes(
                rest as nat,
                left,
            ));
        }
        rest = rest / 256;
    }
    proof {
        assert(bytes@ =~= le_bytes(value as nat, 8));
        lemma_u64_fits_into_eight_bytes(value);
    }
    bytes
}

/// Each byte counts 256 times as much as the byte before it: bytes that follow others count so much
/// more for each of those.
pub proof fn law_later_bytes_count_more(low: Seq<u8>, high: Seq<u8>)
    ensures
        le_value(low + high) == le_value(low) + pow(256, low.len()) * le_value(high),
    decreases low.len(),
{
    reveal(pow);
    if low.len() > 0 {
        let rest = low.drop_first();
        let all = low + high;
        law_later_bytes_count_more(rest, high);
        assert(all.drop_first() =~= rest + high);
        assert(all[0] == low[0]);
        let p = pow(256, rest.len());
        let v = le_value(high) as int;
        assert(256 * (p * v) == (256 * p) * v) by (nonlinear_arith);
        assert(pow(256, low.len()) == 256 * p);
    } else {
        assert(low + high =~= high);
        assert(le_value(low) == 0);
    }
}

/// Eight bytes stand for a number of 64 bits.
pub proof fn lemma_le_value_of_eight(bytes: Seq<u8>)
    requires
        bytes.len() == 8,
    ensures
        le_value(bytes) <= u64::MAX,
{
    lemma_le_value_bound(bytes);
    lemma_pow_256_8();
}

/// One byte stands for itself.
pub proof fn law_one_byte_is_its_value(byte: u8)
    ensures
        le_value(seq![byte]) == byte,
        le_value(Seq::empty()) == 0,
{
    reveal_with_fuel(le_value, 2);
    assert(seq![byte].drop_first() =~= Seq::<u8>::empty());
}

} // verus!
