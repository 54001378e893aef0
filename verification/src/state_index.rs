use vstd::prelude::*;

use vstd::arithmetic::div_mod::{lemma_breakdown, lemma_div_denominator};
use vstd::arithmetic::power2::{lemma_pow2_pos, lemma_pow2_unfold, pow2};

use crate::row::is_row;

verus! {

/// The row of length `size` that a state index names: cell `i` is bit `i`
/// of the index, the lowest bit first. Bits from `size` on are dropped.
pub open spec fn decode(index: nat, size: nat) -> Seq<u8> {
    Seq::new(size, |i: int| ((index / pow2(i as nat)) % 2) as u8)
}

/// The state index of a row: the sum of `row[i] * 2^i`, written as the
/// first cell plus twice the index of the rest.
pub open spec fn encode(row: Seq<u8>) -> nat
    decreases row.len(),
{
    if row.len() == 0 {
        0
    } else {
        row[0] as nat + 2 * encode(row.drop_first())
    }
}

/// A decoded index is a row of bits.
pub proof fn lemma_decode_is_row(index: nat, size: nat)
    ensures
        is_row(decode(index, size)),
        decode(index, size).len() == size,
{
}

/// Dropping the first cell of a decoded index halves the index.
pub proof fn lemma_decode_drop_first(index: nat, size: nat)
    requires
        size >= 1,
    ensures
        decode(index, size)[0] == index % 2,
        decode(index, size).drop_first() == decode(index / 2, (size - 1) as nat),
{
    let whole = decode(index, size);
    let rest = decode(index / 2, (size - 1) as nat);
    assert(whole[0] == index % 2) by {
        vstd::arithmetic::power2::lemma2_to64();
        assert(whole[0] == ((index / pow2(0)) % 2) as u8);
    }
    assert forall|j: int| 0 <= j < size - 1 implies whole.drop_first()[j] == rest[j] by {
        lemma_pow2_unfold((j + 1) as nat);
        lemma_pow2_pos(j as nat);
        lemma_div_denominator(index as int, 2, pow2(j as nat) as int);
    }
}

/// The index of a row of bits lies below two to the row's length.
pub proof fn lemma_encode_bound(row: Seq<u8>)
    requires
        is_row(row),
    ensures
        encode(row) < pow2(row.len()),
    decreases row.len(),
{
    if row.len() == 0 {
        lemma_pow2_pos(0);
    } else {
        let rest = row.drop_first();
        assert(is_row(rest)) by {
            assert forall|i: int| 0 <= i < rest.len() implies rest[i] <= 1 by {
                assert(rest[i] == row[i + 1]);
            }
        }
        lemma_encode_bound(rest);
        lemma_pow2_unfold(row.len());
        assert(row[0] <= 1);
    }
}

/// Decoding an index into `size` cells and encoding them again keeps the
/// low `size` bits of the index.
pub proof fn lemma_encode_decode_low_bits(index: nat, size: nat)
    ensures
        encode(decode(index, size)) == index % pow2(size),
    decreases size,
{
    if size == 0 {
        assert(pow2(0) == 1) by {
            vstd::arithmetic::power2::lemma2_to64();
        }
    } else {
        let rest_size = (size - 1) as nat;
        lemma_decode_drop_first(index, size);
        lemma_encode_decode_low_bits(index / 2, rest_size);
        lemma_pow2_unfold(size);
        lemma_pow2_pos(rest_size);
        lemma_breakdown(index as int, 2, pow2(rest_size) as int);
    }
}

/// Round trip from indices: for every index below `2^size`, decoding it
/// into a row of length `size` and encoding that row gives the index back.
pub proof fn lemma_index_round_trip(index: nat, size: nat)
    requires
        index < pow2(size),
    ensures
        encode(decode(index, size)) == index,
{
    lemma_encode_decode_low_bits(index, size);
    vstd::arithmetic::div_mod::lemma_small_mod(index, pow2(size));
}

/// Round trip from rows: encoding a row of bits and decoding the index
/// into as many cells gives the row back. With the one above, indices below
/// `2^n` and rows of `n` bits correspond one to one.
pub proof fn lemma_row_round_trip(row: Seq<u8>)
    requires
        is_row(row),
    ensures
        decode(encode(row), row.len()) == row,
    decreases row.len(),
{
    let index = encode(row);
    let back = decode(index, row.len());
    if row.len() > 0 {
        let rest = row.drop_first();
        assert(is_row(rest)) by {
            assert forall|i: int| 0 <= i < rest.len() implies rest[i] <= 1 by {
                assert(rest[i] == row[i + 1]);
            }
        }
        lemma_row_round_trip(rest);
        lemma_decode_drop_first(index, row.len());
        assert(row[0] <= 1);
        assert forall|i: int| 0 <= i < row.len() implies back[i] == row[i] by {
            if i > 0 {
                assert(row[i] == rest[i - 1]);
            }
        }
    }
}

/// No tail of a row encodes to more than the row does.
pub proof fn lemma_encode_tail_le(row: Seq<u8>, from: int)
    requires
        0 <= from <= row.len(),
    ensures
        encode(row.subrange(from, row.len() as int)) <= encode(row),
    decreases from,
{
    if from == 0 {
        assert(row.subrange(0, row.len() as int) =~= row);
    } else {
        let rest = row.drop_first();
        lemma_encode_tail_le(rest, from - 1);
        assert(rest.subrange(from - 1, rest.len() as int) =~= row.subrange(
            from,
            row.len() as int,
        ));
    }
}

/// Decodes a state index into a row of `size` cells, lowest bit first.
pub fn u32_to_bits(val: u32, size: usize) -> (bits: Vec<u8>)
    ensures
        bits@ == decode(val as nat, size as nat),
{
    let mut bits: Vec<u8> = Vec::with_capacity(size);
    let mut rest: u32 = val;
    let mut i: usize = 0;
    proof {
        vstd::arithmetic::power2::lemma2_to64();
    }
    while i < size
        invariant
            i <= size,
            rest == val as nat / pow2(i as nat),
            bits@ == decode(val as nat, i as nat),
        decreases size - i,
    {
        proof {
            lemma_pow2_unfold((i + 1) as nat);
            lemma_pow2_pos(i as nat);
            lemma_div_denominator(val as int, pow2(i as nat) as int, 2);
        }
        bits.push((rest % 2) as u8);
        rest = rest / 2;
        i += 1;
    }
    bits
}

/// Encodes a row as its state index, cell `i` weighing `2^i`.
pub fn bits_to_u32(bits: &[u8]) -> (index: u32)
    requires
        encode(bits@) <= u32::MAX,
    ensures
        index == encode(bits@),
{
    let n: usize = bits.len();
    let mut index: u32 = 0;
    let mut i: usize = n;
    while i > 0
        invariant
            n == bits@.len(),
            i <= n,
            encode(bits@) <= u32::MAX,
            index == encode(bits@.subrange(i as int, n as int)),
        decreases i,
    {
        i -= 1;
        proof {
            let tail = bits@.subrange(i as int, n as int);
            assert(tail.drop_first() =~= bits@.subrange(i + 1, n as int));
            lemma_encode_tail_le(bits@, i as int);
        }
        index = index * 2 + bits[i] as u32;
    }
    assert(bits@.subrange(0, n as int) =~= bits@);
    index
}

} // verus!
