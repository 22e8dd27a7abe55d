//! Tag masks: a `u32` whose bit `i` stands for tag `i`.
use vstd::prelude::*;

verus! {

/// Number of tags each monitor carries.
pub const NUM_TAGS: usize = 32;

/// Bit `i` of `mask` is set.
pub open spec fn has_bit(mask: u32, i: int) -> bool {
    0 <= i < 32 && (mask >> (i as u32)) & 1u32 == 1u32
}

/// The mask whose bit `i` is set exactly where `flags[i]` holds (for the first 32 flags).
pub open spec fn mask_of(flags: Seq<bool>) -> u32
    decreases flags.len(),
{
    if flags.len() == 0 {
        0
    } else {
        let rest = mask_of(flags.drop_last());
        if flags.last() {
            rest | (1u32 << ((flags.len() - 1) as u32))
        } else {
            rest
        }
    }
}

pub proof fn lemma_single_bit(i: u32, j: u32)
    requires
        i < 32,
        j < 32,
    ensures
        ((1u32 << i) >> j) & 1u32 == 1u32 <==> i == j,
{
    assert(i < 32 && j < 32 ==> (((1u32 << i) >> j) & 1u32 == 1u32 <==> i == j)) by (bit_vector);
}

pub proof fn lemma_or_bit(a: u32, b: u32, j: u32)
    requires
        j < 32,
    ensures
        ((a | b) >> j) & 1u32 == 1u32 <==> ((a >> j) & 1u32 == 1u32 || (b >> j) & 1u32 == 1u32),
{
    assert(j < 32 ==> (((a | b) >> j) & 1u32 == 1u32 <==> ((a >> j) & 1u32 == 1u32 || (b >> j)
        & 1u32 == 1u32))) by (bit_vector);
}

pub proof fn lemma_xor_bit(a: u32, b: u32, j: u32)
    requires
        j < 32,
    ensures
        ((a ^ b) >> j) & 1u32 == 1u32 <==> ((a >> j) & 1u32 == 1u32) != ((b >> j) & 1u32 == 1u32),
{
    assert(j < 32 ==> (((a ^ b) >> j) & 1u32 == 1u32 <==> ((a >> j) & 1u32 == 1u32) != ((b >> j)
        & 1u32 == 1u32))) by (bit_vector);
}

pub proof fn lemma_and_single_bit(mask: u32, j: u32)
    requires
        j < 32,
    ensures
        (mask & (1u32 << j)) != 0u32 <==> (mask >> j) & 1u32 == 1u32,
{
    assert(j < 32 ==> ((mask & (1u32 << j)) != 0u32 <==> (mask >> j) & 1u32 == 1u32))
        by (bit_vector);
}

/// Two masks that agree on all 32 bits are equal.
pub proof fn lemma_mask_ext(a: u32, b: u32)
    requires
        forall|i: int| 0 <= i < 32 ==> has_bit(a, i) == has_bit(b, i),
    ensures
        a == b,
{
    assert(has_bit(a, 0) == has_bit(b, 0));
    assert(has_bit(a, 1) == has_bit(b, 1));
    assert(has_bit(a, 2) == has_bit(b, 2));
    assert(has_bit(a, 3) == has_bit(b, 3));
    assert(has_bit(a, 4) == has_bit(b, 4));
    assert(has_bit(a, 5) == has_bit(b, 5));
    assert(has_bit(a, 6) == has_bit(b, 6));
    assert(has_bit(a, 7) == has_bit(b, 7));
    assert(has_bit(a, 8) == has_bit(b, 8));
    assert(has_bit(a, 9) == has_bit(b, 9));
    assert(has_bit(a, 10) == has_bit(b, 10));
    assert(has_bit(a, 11) == has_bit(b, 11));
    assert(has_bit(a, 12) == has_bit(b, 12));
    assert(has_bit(a, 13) == has_bit(b, 13));
    assert(has_bit(a, 14) == has_bit(b, 14));
    assert(has_bit(a, 15) == has_bit(b, 15));
    assert(has_bit(a, 16) == has_bit(b, 16));
    assert(has_bit(a, 17) == has_bit(b, 17));
    assert(has_bit(a, 18) == has_bit(b, 18));
    assert(has_bit(a, 19) == has_bit(b, 19));
    assert(has_bit(a, 20) == has_bit(b, 20));
    assert(has_bit(a, 21) == has_bit(b, 21));
    assert(has_bit(a, 22) == has_bit(b, 22));
    assert(has_bit(a, 23) == has_bit(b, 23));
    assert(has_bit(a, 24) == has_bit(b, 24));
    assert(has_bit(a, 25) == has_bit(b, 25));
    assert(has_bit(a, 26) == has_bit(b, 26));
    assert(has_bit(a, 27) == has_bit(b, 27));
    assert(has_bit(a, 28) == has_bit(b, 28));
    assert(has_bit(a, 29) == has_bit(b, 29));
    assert(has_bit(a, 30) == has_bit(b, 30));
    assert(has_bit(a, 31) == has_bit(b, 31));
    assert(a == b) by (bit_vector)
        requires
            ((a >> 0u32) & 1u32 == 1u32) == ((b >> 0u32) & 1u32 == 1u32),
            ((a >> 1u32) & 1u32 == 1u32) == ((b >> 1u32) & 1u32 == 1u32),
            ((a >> 2u32) & 1u32 == 1u32) == ((b >> 2u32) & 1u32 == 1u32),
            ((a >> 3u32) & 1u32 == 1u32) == ((b >> 3u32) & 1u32 == 1u32),
            ((a >> 4u32) & 1u32 == 1u32) == ((b >> 4u32) & 1u32 == 1u32),
            ((a >> 5u32) & 1u32 == 1u32) == ((b >> 5u32) & 1u32 == 1u32),
            ((a >> 6u32) & 1u32 == 1u32) == ((b >> 6u32) & 1u32 == 1u32),
            ((a >> 7u32) & 1u32 == 1u32) == ((b >> 7u32) & 1u32 == 1u32),
            ((a >> 8u32) & 1u32 == 1u32) == ((b >> 8u32) & 1u32 == 1u32),
            ((a >> 9u32) & 1u32 == 1u32) == ((b >> 9u32) & 1u32 == 1u32),
            ((a >> 10u32) & 1u32 == 1u32) == ((b >> 10u32) & 1u32 == 1u32),
            ((a >> 11u32) & 1u32 == 1u32) == ((b >> 11u32) & 1u32 == 1u32),
            ((a >> 12u32) & 1u32 == 1u32) == ((b >> 12u32) & 1u32 == 1u32),
            ((a >> 13u32) & 1u32 == 1u32) == ((b >> 13u32) & 1u32 == 1u32),
            ((a >> 14u32) & 1u32 == 1u32) == ((b >> 14u32) & 1u32 == 1u32),
            ((a >> 15u32) & 1u32 == 1u32) == ((b >> 15u32) & 1u32 == 1u32),
            ((a >> 16u32) & 1u32 == 1u32) == ((b >> 16u32) & 1u32 == 1u32),
            ((a >> 17u32) & 1u32 == 1u32) == ((b >> 17u32) & 1u32 == 1u32),
            ((a >> 18u32) & 1u32 == 1u32) == ((b >> 18u32) & 1u32 == 1u32),
            ((a >> 19u32) & 1u32 == 1u32) == ((b >> 19u32) & 1u32 == 1u32),
            ((a >> 20u32) & 1u32 == 1u32) == ((b >> 20u32) & 1u32 == 1u32),
            ((a >> 21u32) & 1u32 == 1u32) == ((b >> 21u32) & 1u32 == 1u32),
            ((a >> 22u32) & 1u32 == 1u32) == ((b >> 22u32) & 1u32 == 1u32),
            ((a >> 23u32) & 1u32 == 1u32) == ((b >> 23u32) & 1u32 == 1u32),
            ((a >> 24u32) & 1u32 == 1u32) == ((b >> 24u32) & 1u32 == 1u32),
            ((a >> 25u32) & 1u32 == 1u32) == ((b >> 25u32) & 1u32 == 1u32),
            ((a >> 26u32) & 1u32 == 1u32) == ((b >> 26u32) & 1u32 == 1u32),
            ((a >> 27u32) & 1u32 == 1u32) == ((b >> 27u32) & 1u32 == 1u32),
            ((a >> 28u32) & 1u32 == 1u32) == ((b >> 28u32) & 1u32 == 1u32),
            ((a >> 29u32) & 1u32 == 1u32) == ((b >> 29u32) & 1u32 == 1u32),
            ((a >> 30u32) & 1u32 == 1u32) == ((b >> 30u32) & 1u32 == 1u32),
            ((a >> 31u32) & 1u32 == 1u32) == ((b >> 31u32) & 1u32 == 1u32),
    ;
}

/// Bit `i` of `mask_of(flags)` is set exactly where `flags[i]` holds.
pub proof fn lemma_mask_of_bits(flags: Seq<bool>)
    requires
        flags.len() <= 32,
    ensures
        forall|i: int| 0 <= i < 32 ==> (#[trigger] has_bit(mask_of(flags), i) <==> (i < flags.len() && flags[i])),
    decreases flags.len(),
{
    if flags.len() == 0 {
        assert forall|i: int| 0 <= i < 32 implies !#[trigger] has_bit(mask_of(flags), i) by {
            let j = i as u32;
            assert(j < 32 ==> (0u32 >> j) & 1u32 == 0u32) by (bit_vector);
        }
    } else {
        let rest = flags.drop_last();
        lemma_mask_of_bits(rest);
        let n = (flags.len() - 1) as u32;
        assert forall|i: int| 0 <= i < 32 implies (#[trigger] has_bit(mask_of(flags), i) <==> (i
            < flags.len() && flags[i])) by {
            let j = i as u32;
            assert(j as int == i);
            assert(has_bit(mask_of(rest), i) <==> (i < rest.len() && rest[i]));
            if i < rest.len() {
                assert(rest[i] == flags[i]);
            }
            if i == rest.len() {
                assert(flags[i] == flags.last());
            }
            if flags.last() {
                assert(mask_of(flags) == mask_of(rest) | (1u32 << n));
                lemma_or_bit(mask_of(rest), 1u32 << n, j);
                lemma_single_bit(n, j);
            } else {
                assert(mask_of(flags) == mask_of(rest));
            }
        }
    }
}

/// Flags past the first `n` that are all unset leave the mask as the first `n` make it.
pub proof fn lemma_mask_of_unset_tail(flags: Seq<bool>, n: int)
    requires
        0 <= n <= flags.len(),
        forall|i: int| n <= i < flags.len() ==> !flags[i],
    ensures
        mask_of(flags) == mask_of(flags.take(n)),
    decreases flags.len(),
{
    if flags.len() > n {
        let r = flags.drop_last();
        assert(!flags[flags.len() - 1]);
        lemma_mask_of_unset_tail(r, n);
        assert(r.take(n) =~= flags.take(n));
    } else {
        assert(flags.take(n) =~= flags);
    }
}

} // verus!
