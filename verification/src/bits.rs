//! Bit-level helpers shared by the card-set and hand-evaluation modules:
//! single-bit tests, population counts, and the lemmas that connect them.

use vstd::prelude::*;

verus! {

/// All 52 card bits set: the full deck.
pub const FULL_DECK_BITS: u64 = 0xF_FFFF_FFFF_FFFF;

/// True when bit `i` of `bits` is set.
pub open spec fn bitat(bits: u64, i: int) -> bool {
    0 <= i < 64 && (bits >> (i as u64)) & 1u64 == 1u64
}

/// A card-set word is well formed when only the 52 card bits may be set.
pub open spec fn deck_wf(bits: u64) -> bool {
    bits & FULL_DECK_BITS == bits
}

/// Number of set bits of `bits` among positions `[0, n)`.
pub open spec fn pcount(bits: u64, n: int) -> nat
    decreases n,
{
    if n <= 0 {
        0
    } else {
        pcount(bits, n - 1) + (if bitat(bits, n - 1) {
            1nat
        } else {
            0nat
        })
    }
}

/// The set of positions of set bits of `bits` among `[0, n)`.
pub open spec fn bit_positions(bits: u64, n: int) -> Set<int> {
    Set::new(|i: int| 0 <= i < n && bitat(bits, i))
}

pub proof fn lemma_pcount_le(bits: u64, n: int)
    requires
        0 <= n,
    ensures
        pcount(bits, n) <= n,
    decreases n,
{
    if n > 0 {
        lemma_pcount_le(bits, n - 1);
    }
}

/// A population count over `[0, n)` is the cardinality of the set of
/// positions it counts.
pub proof fn lemma_pcount_is_len(bits: u64, n: int)
    requires
        0 <= n,
    ensures
        bit_positions(bits, n).finite(),
        bit_positions(bits, n).len() == pcount(bits, n),
    decreases n,
{
    if n == 0 {
        assert(bit_positions(bits, 0) =~= Set::empty());
    } else {
        lemma_pcount_is_len(bits, n - 1);
        if bitat(bits, n - 1) {
            assert(bit_positions(bits, n) =~= bit_positions(bits, n - 1).insert(n - 1));
            assert(!bit_positions(bits, n - 1).contains(n - 1));
        } else {
            assert(bit_positions(bits, n) =~= bit_positions(bits, n - 1));
        }
    }
}

/// The zero word holds no cards.
pub proof fn lemma_pcount_of_zero(n: int)
    requires
        0 <= n,
    ensures
        pcount(0, n) == 0,
    decreases n,
{
    lemma_zero_bit();
    if n > 0 {
        lemma_pcount_of_zero(n - 1);
    }
}

pub proof fn lemma_or_bit(a: u64, b: u64)
    by (bit_vector)
    ensures
        forall|i: u64|
            i < 64 ==> ((((a | b) >> i) & 1u64 == 1u64) == (((a >> i) & 1u64 == 1u64) || ((b >> i)
                & 1u64 == 1u64))),
{
}

pub proof fn lemma_and_bit(a: u64, b: u64)
    by (bit_vector)
    ensures
        forall|i: u64|
            i < 64 ==> ((((a & b) >> i) & 1u64 == 1u64) == (((a >> i) & 1u64 == 1u64) && ((b >> i)
                & 1u64 == 1u64))),
{
}

/// Bits of the complement relative to the 52-card universe.
pub proof fn lemma_not_bit(a: u64)
    by (bit_vector)
    ensures
        forall|i: u64|
            i < 52 ==> ((((!a & 0xF_FFFF_FFFF_FFFFu64) >> i) & 1u64 == 1u64) == !((a >> i) & 1u64
                == 1u64)),
        forall|i: u64|
            52 <= i < 64 ==> (((!a & 0xF_FFFF_FFFF_FFFFu64) >> i) & 1u64 == 0u64),
{
}

pub proof fn lemma_single_bit(j: u64)
    by (bit_vector)
    requires
        j < 64,
    ensures
        forall|i: u64| i < 64 ==> ((((1u64 << j) >> i) & 1u64 == 1u64) == (i == j)),
{
}

/// Clearing one bit: every other position is unchanged and the cleared
/// position is zero.
pub proof fn lemma_clear_bit(a: u64, j: u64)
    by (bit_vector)
    requires
        j < 64,
    ensures
        forall|i: u64|
            i < 64 && i != j ==> (((a & !(1u64 << j)) >> i) & 1u64 == (a >> i) & 1u64),
        ((a & !(1u64 << j)) >> j) & 1u64 == 0u64,
{
}

pub proof fn lemma_zero_bit()
    by (bit_vector)
    ensures
        forall|i: u64| (0u64 >> i) & 1u64 == 0u64,
        forall|i: u64| i < 52 ==> (0xF_FFFF_FFFF_FFFFu64 >> i) & 1u64 == 1u64,
        forall|i: u64| 52 <= i ==> (0xF_FFFF_FFFF_FFFFu64 >> i) & 1u64 == 0u64,
{
}

/// Well-formedness of the results of the bitwise card-set operations.
pub proof fn lemma_wf_ops(a: u64, b: u64)
    by (bit_vector)
    ensures
        a & 0xF_FFFF_FFFF_FFFFu64 == a && b & 0xF_FFFF_FFFF_FFFFu64 == b ==> (a | b)
            & 0xF_FFFF_FFFF_FFFFu64 == (a | b),
        a & 0xF_FFFF_FFFF_FFFFu64 == a && b & 0xF_FFFF_FFFF_FFFFu64 == b ==> (a & b)
            & 0xF_FFFF_FFFF_FFFFu64 == (a & b),
        (!a & 0xF_FFFF_FFFF_FFFFu64) & 0xF_FFFF_FFFF_FFFFu64 == (!a & 0xF_FFFF_FFFF_FFFFu64),
        0u64 & 0xF_FFFF_FFFF_FFFFu64 == 0u64,
        0xF_FFFF_FFFF_FFFFu64 & 0xF_FFFF_FFFF_FFFFu64 == 0xF_FFFF_FFFF_FFFFu64,
        a & 0xF_FFFF_FFFF_FFFFu64 == a ==> (a & !b) & 0xF_FFFF_FFFF_FFFFu64 == (a & !b),
{
}

pub proof fn lemma_andnot_bit(a: u64, b: u64)
    by (bit_vector)
    ensures
        forall|i: u64|
            i < 64 ==> ((((a & !b) >> i) & 1u64 == 1u64) == (((a >> i) & 1u64 == 1u64) && !((b
                >> i) & 1u64 == 1u64))),
{
}

/// Removing a subset's bits leaves a word inside the same superset.
pub proof fn lemma_subset_clear(c: u64, o: u64, m: u64)
    by (bit_vector)
    ensures
        c & o == c ==> (c & !m) & o == (c & !m),
        o & o == o,
{
}

/// Positions below an untouched bit are unaffected by clearing it.
pub proof fn lemma_pcount_clear_low(bits: u64, j: int, n: int)
    requires
        0 <= j < 64,
        0 <= n <= j,
    ensures
        pcount(bits & !(1u64 << (j as u64)), n) == pcount(bits, n),
    decreases n,
{
    lemma_clear_bit(bits, j as u64);
    if n > 0 {
        lemma_pcount_clear_low(bits, j, n - 1);
    }
}

/// Clearing one set bit lowers the population count by exactly one.
pub proof fn lemma_pcount_clear(bits: u64, j: int, n: int)
    requires
        0 <= j < n <= 64,
        bitat(bits, j),
    ensures
        pcount(bits & !(1u64 << (j as u64)), n) == pcount(bits, n) - 1,
    decreases n,
{
    lemma_clear_bit(bits, j as u64);
    if j == n - 1 {
        lemma_pcount_clear_low(bits, j, n - 1);
    } else {
        lemma_pcount_clear(bits, j, n - 1);
    }
}

/// The low positions of the full deck are all set.
pub proof fn lemma_full_count(n: int)
    requires
        0 <= n <= 52,
    ensures
        pcount(FULL_DECK_BITS, n) == n,
    decreases n,
{
    lemma_zero_bit();
    if n > 0 {
        lemma_full_count(n - 1);
    }
}

/// Population counts of words with no common bit add up under union.
pub proof fn lemma_pcount_or_disjoint(a: u64, b: u64, n: int)
    requires
        0 <= n,
        a & b == 0,
    ensures
        pcount(a | b, n) == pcount(a, n) + pcount(b, n),
    decreases n,
{
    if n > 0 {
        lemma_pcount_or_disjoint(a, b, n - 1);
        lemma_or_bit(a, b);
        lemma_and_bit(a, b);
        lemma_zero_bit();
    }
}

/// Counting the positions left after removing a subset of the set bits.
pub proof fn lemma_pcount_diff(a: u64, b: u64, n: int)
    requires
        0 <= n,
        b & a == b,
    ensures
        pcount(b, n) <= pcount(a, n),
        pcount(a & !b, n) == pcount(a, n) - pcount(b, n),
    decreases n,
{
    if n > 0 {
        lemma_pcount_diff(a, b, n - 1);
        lemma_andnot_bit(a, b);
        lemma_and_bit(b, a);
    }
}

/// If no position of `[0, n)` is set, the low `n` bits are zero.
/// The mask of the low `n` positions is written as a right shift of the
/// full 52-bit universe.
pub proof fn lemma_pcount_zero(bits: u64, n: int)
    requires
        0 <= n <= 52,
        pcount(bits, n) == 0,
    ensures
        bits & (0xF_FFFF_FFFF_FFFFu64 >> ((52 - n) as u64)) == 0,
    decreases n,
{
    if n == 0 {
        assert(bits & (0xF_FFFF_FFFF_FFFFu64 >> 52u64) == 0) by (bit_vector);
    } else {
        lemma_pcount_zero(bits, n - 1);
        let m = (n - 1) as u64;
        let s1 = (52 - (n - 1)) as u64;
        let s2 = (52 - n) as u64;
        assert(s1 == s2 + 1 && m + s2 == 51 && s2 < 52 && bits & (0xF_FFFF_FFFF_FFFFu64 >> s1)
            == 0 && (bits >> m) & 1u64 != 1u64 ==> bits & (0xF_FFFF_FFFF_FFFFu64 >> s2) == 0)
            by (bit_vector);
    }
}

/// A word with no set position below `n` has population count zero there.
pub proof fn lemma_pcount_none(bits: u64, n: int)
    requires
        0 <= n,
        forall|i: int| 0 <= i < n ==> !bitat(bits, i),
    ensures
        pcount(bits, n) == 0,
    decreases n,
{
    if n > 0 {
        lemma_pcount_none(bits, n - 1);
    }
}

/// A well-formed word with no set card bit is zero.
pub proof fn lemma_no_bits_is_zero(bits: u64)
    requires
        deck_wf(bits),
        pcount(bits, 52) == 0,
    ensures
        bits == 0,
{
    lemma_pcount_zero(bits, 52);
    assert(bits & 0xF_FFFF_FFFF_FFFFu64 == bits && bits & (0xF_FFFF_FFFF_FFFFu64 >> 0u64) == 0
        ==> bits == 0) by (bit_vector);
}

} // verus!
