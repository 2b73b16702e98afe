//! Poker-hand evaluation. A `Combination` is a single `u32` whose high
//! bits carry the hand category and whose low bits carry the tiebreak
//! payload, so one integer comparison orders any two hands correctly.
//!
//! The evaluator decomposes the 52-bit card mask into four 13-bit
//! rank masks (one per suit) and classifies the hand with branch-free
//! mask algebra: flushes by suit population count, straights by ANDing
//! shifted copies of a rank mask (the ace doubling as rank one for the
//! wheel), four-of-a-kind by the AND of all four suits, and so on.

use vstd::prelude::*;
use crate::cardset::CardSet;

verus! {

/// Category bases. Each base is at least twice the previous one and every
/// tiebreak payload stays below the lowest base, so category always
/// dominates payload in the numeric order.
pub const HIGH_CARD_BASE: u32 = 0x80_0000;

pub const PAIR_BASE: u32 = 0x100_0000;

pub const TWO_PAIRS_BASE: u32 = 0x200_0000;

pub const TRIS_BASE: u32 = 0x400_0000;

pub const STRAIGHT_BASE: u32 = 0x800_0000;

pub const FLUSH_BASE: u32 = 0x1000_0000;

pub const FULL_HOUSE_BASE: u32 = 0x2000_0000;

pub const POKER_BASE: u32 = 0x4000_0000;

pub const STRAIGHT_FLUSH_BASE: u32 = 0x8000_0000;

/// The ace-high straight flush: the largest value the evaluator produces.
pub const ROYAL_FLUSH_VALUE: u32 = 0x8000_000C;

#[derive(Eq, PartialEq, Structural, PartialOrd, Ord, Clone, Copy, Debug)]
pub struct Combination {
    value: u32,
}

#[derive(Eq, PartialEq, Structural, Clone, Debug, Copy)]
pub enum CombinationType {
    RoyalFlush,
    StraightFlush,
    Poker,
    FullHouse,
    Flush,
    Straight,
    Tris,
    TwoPairs,
    Pair,
    HighCard,
}

/// Rank of a category in the hand order: larger beats smaller.
pub open spec fn category_level(t: CombinationType) -> int {
    match t {
        CombinationType::HighCard => 0,
        CombinationType::Pair => 1,
        CombinationType::TwoPairs => 2,
        CombinationType::Tris => 3,
        CombinationType::Straight => 4,
        CombinationType::Flush => 5,
        CombinationType::FullHouse => 6,
        CombinationType::Poker => 7,
        CombinationType::StraightFlush => 8,
        CombinationType::RoyalFlush => 9,
    }
}

/// The numeric base a combination value of this category starts at.
pub open spec fn category_base(t: CombinationType) -> u32 {
    match t {
        CombinationType::HighCard => HIGH_CARD_BASE,
        CombinationType::Pair => PAIR_BASE,
        CombinationType::TwoPairs => TWO_PAIRS_BASE,
        CombinationType::Tris => TRIS_BASE,
        CombinationType::Straight => STRAIGHT_BASE,
        CombinationType::Flush => FLUSH_BASE,
        CombinationType::FullHouse => FULL_HOUSE_BASE,
        CombinationType::Poker => POKER_BASE,
        CombinationType::StraightFlush => STRAIGHT_FLUSH_BASE,
        CombinationType::RoyalFlush => ROYAL_FLUSH_VALUE,
    }
}

/// The largest tiebreak payload the evaluator produces for a category.
pub open spec fn category_payload_max(t: CombinationType) -> u32 {
    match t {
        CombinationType::RoyalFlush => 0,
        CombinationType::StraightFlush => 11,
        _ => 0x7F_FFFF,
    }
}

/// The category a combination value decodes to.
pub open spec fn category_of(v: u32) -> CombinationType {
    if v == ROYAL_FLUSH_VALUE {
        CombinationType::RoyalFlush
    } else if v >= STRAIGHT_FLUSH_BASE {
        CombinationType::StraightFlush
    } else if v >= POKER_BASE {
        CombinationType::Poker
    } else if v >= FULL_HOUSE_BASE {
        CombinationType::FullHouse
    } else if v >= FLUSH_BASE {
        CombinationType::Flush
    } else if v >= STRAIGHT_BASE {
        CombinationType::Straight
    } else if v >= TRIS_BASE {
        CombinationType::Tris
    } else if v >= TWO_PAIRS_BASE {
        CombinationType::TwoPairs
    } else if v >= PAIR_BASE {
        CombinationType::Pair
    } else {
        CombinationType::HighCard
    }
}

/// Position of the most significant set bit of a 13-bit mask, 0 when the
/// mask is zero.
pub open spec fn msb13(bits: u32) -> u32 {
    if bits >= 0x1000 {
        12
    } else if bits >= 0x800 {
        11
    } else if bits >= 0x400 {
        10
    } else if bits >= 0x200 {
        9
    } else if bits >= 0x100 {
        8
    } else if bits >= 0x80 {
        7
    } else if bits >= 0x40 {
        6
    } else if bits >= 0x20 {
        5
    } else if bits >= 0x10 {
        4
    } else if bits >= 0x8 {
        3
    } else if bits >= 0x4 {
        2
    } else if bits >= 0x2 {
        1
    } else {
        0
    }
}

/// Number of set bits of `bits` among positions `[0, n)`.
pub open spec fn count13(bits: u32, n: int) -> nat
    decreases n,
{
    if n <= 0 {
        0
    } else {
        count13(bits, n - 1) + (if (bits >> ((n - 1) as u32)) & 1u32 == 1u32 {
            1nat
        } else {
            0nat
        })
    }
}

/// The `n` most significant set bits of a 13-bit mask, the others cleared.
pub open spec fn keep13(bits: u32, n: int) -> u32
    decreases n,
{
    if n <= 0 || bits == 0 {
        0
    } else {
        (1u32 << msb13(bits)) | keep13(bits & !(1u32 << msb13(bits)), n - 1)
    }
}

/// Straight detection on a 13-bit rank mask: bit `r` of the result is set
/// exactly when ranks `r` down to `r - 4` are all present, the ace (bit
/// 12) doubling as the rank below bit 0 for the wheel. A surviving bit is
/// the top rank of a straight.
pub open spec fn straight13(numbers: u32) -> u32 {
    let numbers_ace = (numbers << 1u32) | (numbers >> 12u32);
    numbers & numbers_ace & (numbers_ace << 1u32) & (numbers_ace << 2u32) & (numbers_ace << 3u32)
}

/// The 13-bit rank mask of the first suit.
pub open spec fn suit1(cards: u64) -> u32 {
    (cards & 0x1FFF) as u32
}

/// The 13-bit rank mask of the second suit.
pub open spec fn suit2(cards: u64) -> u32 {
    ((cards >> 13u64) & 0x1FFF) as u32
}

/// The 13-bit rank mask of the third suit.
pub open spec fn suit3(cards: u64) -> u32 {
    ((cards >> 26u64) & 0x1FFF) as u32
}

/// The 13-bit rank mask of the fourth suit.
pub open spec fn suit4(cards: u64) -> u32 {
    ((cards >> 39u64) & 0x1FFF) as u32
}

/// The flush decision: the suit with the most cards together with that
/// count, ties broken toward the numerically larger mask.
pub open spec fn flush_pick(cards: u64) -> (nat, u32) {
    let n1 = suit1(cards);
    let n2 = suit2(cards);
    let n3 = suit3(cards);
    let n4 = suit4(cards);
    let c1 = count13(n1, 13);
    let c2 = count13(n2, 13);
    let c3 = count13(n3, 13);
    let c4 = count13(n4, 13);
    let t2 = if c2 > c1 || (c2 == c1 && n2 > n1) {
        (c2, n2)
    } else {
        (c1, n1)
    };
    let t3 = if c3 > t2.0 || (c3 == t2.0 && n3 > t2.1) {
        (c3, n3)
    } else {
        t2
    };
    if c4 > t3.0 || (c4 == t3.0 && n4 > t3.1) {
        (c4, n4)
    } else {
        t3
    }
}

/// Ranks present in any suit: the mask used for straights and kickers.
pub open spec fn numbers_of(cards: u64) -> u32 {
    suit1(cards) | suit2(cards) | suit3(cards) | suit4(cards)
}

/// Ranks present in all four suits at once.
pub open spec fn poker_bits_of(cards: u64) -> u32 {
    suit1(cards) & suit2(cards) & suit3(cards) & suit4(cards)
}

/// Ranks present in at least three suits.
pub open spec fn tris_bits_of(cards: u64) -> u32 {
    (suit1(cards) & suit2(cards) & suit3(cards)) | (suit1(cards) & suit2(cards) & suit4(cards)) | (
    suit1(cards) & suit3(cards) & suit4(cards)) | (suit2(cards) & suit3(cards) & suit4(cards))
}

/// The single bit of the best three-of-a-kind rank, zero when there is
/// none.
pub open spec fn best_tris_bit_of(cards: u64) -> u32 {
    tris_bits_of(cards) & (1u32 << msb13(tris_bits_of(cards)))
}

/// Ranks present in at least two suits, the best three-of-a-kind rank
/// excluded.
pub open spec fn pair_bits_of(cards: u64) -> u32 {
    ((suit1(cards) & suit2(cards)) | (suit1(cards) & suit3(cards)) | (suit1(cards) & suit4(cards))
        | (suit2(cards) & suit3(cards)) | (suit2(cards) & suit4(cards)) | (suit3(cards) & suit4(
    cards))) & !best_tris_bit_of(cards)
}

/// The combination value of a card mask: the category base plus the
/// category's tiebreak payload, following the mask algebra the evaluator
/// executes.
pub open spec fn comb_value(cards: u64) -> int {
    let is_flush = flush_pick(cards).0 >= 5;
    if is_flush && straight13(flush_pick(cards).1) != 0 {
        STRAIGHT_FLUSH_BASE + msb13(straight13(flush_pick(cards).1))
    } else if poker_bits_of(cards) != 0 {
        POKER_BASE + (((msb13(poker_bits_of(cards)) + 1) as u32) << 13u32) + msb13(
            numbers_of(cards) & !(1u32 << msb13(poker_bits_of(cards))),
        )
    } else if best_tris_bit_of(cards) != 0 && pair_bits_of(cards) != 0 {
        FULL_HOUSE_BASE + (((msb13(tris_bits_of(cards)) + 1) as u32) << 13u32) + msb13(
            pair_bits_of(cards),
        )
    } else if is_flush {
        FLUSH_BASE + keep13(flush_pick(cards).1, 5)
    } else if straight13(numbers_of(cards)) != 0 {
        STRAIGHT_BASE + msb13(straight13(numbers_of(cards)))
    } else if best_tris_bit_of(cards) != 0 {
        TRIS_BASE + (((msb13(tris_bits_of(cards)) + 1) as u32) << 13u32) + keep13(
            numbers_of(cards) & !best_tris_bit_of(cards),
            2,
        )
    } else if pair_bits_of(cards) != 0 {
        if count13(pair_bits_of(cards), 13) >= 2 {
            TWO_PAIRS_BASE + ((keep13(pair_bits_of(cards), 2) << 6u32) as int) + msb13(
                numbers_of(cards) & !keep13(pair_bits_of(cards), 2),
            )
        } else {
            PAIR_BASE + (((msb13(pair_bits_of(cards)) + 1) as u32) << 13u32) + keep13(
                numbers_of(cards) & !pair_bits_of(cards),
                3,
            )
        }
    } else {
        HIGH_CARD_BASE + keep13(numbers_of(cards), 5)
    }
}

/// A 13-bit slice of the card mask is below `0x2000`.
proof fn lemma_and13(c: u64)
    by (bit_vector)
    ensures
        (c & 0x1FFFu64) < 0x2000,
{
}

/// Masking never adds bits.
proof fn lemma_and_le(a: u32, b: u32)
    by (bit_vector)
    ensures
        (a & b) <= a,
{
}

/// The union of two 13-bit masks is a 13-bit mask.
proof fn lemma_or13(a: u32, b: u32)
    by (bit_vector)
    requires
        a < 0x2000,
        b < 0x2000,
    ensures
        (a | b) < 0x2000,
        (a | b) >= a,
{
}

/// A single rank bit is a nonzero 13-bit mask.
proof fn lemma_single13(m: u32)
    by (bit_vector)
    requires
        m <= 12,
    ensures
        1 <= (1u32 << m) < 0x2000,
{
}

/// The rank-payload shift is multiplication by `0x2000`.
proof fn lemma_shl13(x: u32)
    by (bit_vector)
    requires
        x <= 16,
    ensures
        (x << 13u32) == x * 0x2000,
{
}

/// The two-pair payload shift is multiplication by 64.
proof fn lemma_shl6(p: u32)
    by (bit_vector)
    requires
        p < 0x2000,
    ensures
        (p << 6u32) == p * 64,
{
}

/// Every mask the evaluator takes a most-significant bit of, or keeps top
/// bits of, stays a 13-bit mask.
proof fn lemma_keep13_bound(bits: u32, n: int)
    requires
        bits < 0x2000,
    ensures
        keep13(bits, n) < 0x2000,
    decreases n,
{
    if !(n <= 0 || bits == 0) {
        let m = msb13(bits);
        lemma_single13(m);
        lemma_and_le(bits, !(1u32 << m));
        lemma_keep13_bound(bits & !(1u32 << m), n - 1);
        lemma_or13(1u32 << m, keep13(bits & !(1u32 << m), n - 1));
    }
}

/// Every mask the evaluator works on is a 13-bit mask.
proof fn lemma_masks_bounded(cards: u64)
    ensures
        suit1(cards) < 0x2000,
        suit2(cards) < 0x2000,
        suit3(cards) < 0x2000,
        suit4(cards) < 0x2000,
        numbers_of(cards) < 0x2000,
        poker_bits_of(cards) < 0x2000,
        tris_bits_of(cards) < 0x2000,
        best_tris_bit_of(cards) < 0x2000,
        pair_bits_of(cards) < 0x2000,
        flush_pick(cards).1 < 0x2000,
{
    let n1 = suit1(cards);
    let n2 = suit2(cards);
    let n3 = suit3(cards);
    let n4 = suit4(cards);
    lemma_and13(cards);
    lemma_and13(cards >> 13u64);
    lemma_and13(cards >> 26u64);
    lemma_and13(cards >> 39u64);
    lemma_or13(n1, n2);
    lemma_or13(n1 | n2, n3);
    lemma_or13((n1 | n2) | n3, n4);
    lemma_and_le(n1 & n2 & n3, n4);
    lemma_and_le(n1 & n2, n3);
    lemma_and_le(n1, n2);
    lemma_and_le(n1 & n2, n4);
    lemma_and_le(n1 & n3, n4);
    lemma_and_le(n1, n3);
    lemma_and_le(n2 & n3, n4);
    lemma_and_le(n2, n3);
    lemma_or13(n1 & n2 & n3, n1 & n2 & n4);
    lemma_or13((n1 & n2 & n3) | (n1 & n2 & n4), n1 & n3 & n4);
    lemma_or13(((n1 & n2 & n3) | (n1 & n2 & n4)) | (n1 & n3 & n4), n2 & n3 & n4);
    lemma_and_le(tris_bits_of(cards), 1u32 << msb13(tris_bits_of(cards)));
    lemma_and_le(n1, n4);
    lemma_and_le(n2, n4);
    lemma_and_le(n3, n4);
    lemma_or13(n1 & n2, n1 & n3);
    lemma_or13((n1 & n2) | (n1 & n3), n1 & n4);
    lemma_or13(((n1 & n2) | (n1 & n3)) | (n1 & n4), n2 & n3);
    lemma_or13((((n1 & n2) | (n1 & n3)) | (n1 & n4)) | (n2 & n3), n2 & n4);
    lemma_or13(((((n1 & n2) | (n1 & n3)) | (n1 & n4)) | (n2 & n3)) | (n2 & n4), n3 & n4);
    lemma_and_le(
        ((((n1 & n2) | (n1 & n3)) | (n1 & n4)) | (n2 & n3)) | (n2 & n4) | (n3 & n4),
        !best_tris_bit_of(cards),
    );
}

/// The combination value always lies between the high-card base and the
/// royal flush value, so it decodes to a category and its payload never
/// reaches the next base.
pub proof fn lemma_comb_value_bounds(cards: u64)
    ensures
        HIGH_CARD_BASE <= comb_value(cards) <= ROYAL_FLUSH_VALUE,
{
    lemma_masks_bounded(cards);
    lemma_keep13_bound(numbers_of(cards), 5);
    lemma_and_le(numbers_of(cards), !best_tris_bit_of(cards));
    lemma_keep13_bound(numbers_of(cards) & !best_tris_bit_of(cards), 2);
    lemma_and_le(numbers_of(cards), !pair_bits_of(cards));
    lemma_keep13_bound(numbers_of(cards) & !pair_bits_of(cards), 3);
    lemma_keep13_bound(pair_bits_of(cards), 2);
    lemma_and_le(numbers_of(cards), !keep13(pair_bits_of(cards), 2));
    lemma_and_le(numbers_of(cards), !(1u32 << msb13(poker_bits_of(cards))));
    lemma_keep13_bound(flush_pick(cards).1, 5);
    lemma_straight13_le(flush_pick(cards).1);
    lemma_straight13_le(numbers_of(cards));
    lemma_shl13((msb13(poker_bits_of(cards)) + 1) as u32);
    lemma_shl13((msb13(tris_bits_of(cards)) + 1) as u32);
    lemma_shl13((msb13(pair_bits_of(cards)) + 1) as u32);
    lemma_shl6(keep13(pair_bits_of(cards), 2));
}

/// Straight detection never leaves the 13-bit mask it starts from.
proof fn lemma_straight13_le(numbers: u32)
    ensures
        straight13(numbers) <= numbers,
{
    let numbers_ace = (numbers << 1u32) | (numbers >> 12u32);
    lemma_and_le(numbers, numbers_ace);
    lemma_and_le(numbers & numbers_ace, numbers_ace << 1u32);
    lemma_and_le((numbers & numbers_ace) & (numbers_ace << 1u32), numbers_ace << 2u32);
    lemma_and_le(
        ((numbers & numbers_ace) & (numbers_ace << 1u32)) & (numbers_ace << 2u32),
        numbers_ace << 3u32,
    );
}

/// Population count of a 13-bit mask.
fn popcount13(bits: u32) -> (r: u32)
    ensures
        r == count13(bits, 13),
        r <= 13,
{
    let mut acc: u32 = 0;
    let mut i: u32 = 0;
    while i < 13
        invariant
            i <= 13,
            acc == count13(bits, i as int),
            acc <= i,
        decreases 13 - i,
    {
        if (bits >> i) & 1 == 1 {
            acc = acc + 1;
        }
        i = i + 1;
    }
    acc
}

impl Combination {
    /// The encoded category-plus-tiebreak value.
    pub closed spec fn spec_value(&self) -> u32 {
        self.value
    }

    /// Position of the most significant set bit of `bits`, or 0 when
    /// `bits` is 0.
    pub fn msb(bits: u32) -> (r: u32)
        requires
            bits < 0x2000,
        ensures
            r == msb13(bits),
            r <= 12,
    {
        if bits >= 0x1000 {
            12
        } else if bits >= 0x800 {
            11
        } else if bits >= 0x400 {
            10
        } else if bits >= 0x200 {
            9
        } else if bits >= 0x100 {
            8
        } else if bits >= 0x80 {
            7
        } else if bits >= 0x40 {
            6
        } else if bits >= 0x20 {
            5
        } else if bits >= 0x10 {
            4
        } else if bits >= 0x8 {
            3
        } else if bits >= 0x4 {
            2
        } else if bits >= 0x2 {
            1
        } else {
            0
        }
    }

    /// Keeps only the up-to-`n` most significant set bits of `bits`.
    pub fn keep_n_bits(bits: u32, n: usize) -> (r: u32)
        requires
            bits < 0x2000,
        ensures
            r == keep13(bits, n as int),
            r < 0x2000,
    {
        proof {
            lemma_keep13_bound(bits, n as int);
            let whole: u32 = keep13(bits, n as int);
            assert(0u32 | whole == whole) by (bit_vector);
        }
        let mut result: u32 = 0;
        let mut work: u32 = bits;
        let mut taken: usize = 0;
        while taken < n && work != 0
            invariant
                work < 0x2000,
                taken <= n,
                result | keep13(work, n - taken) == keep13(bits, n as int),
            decreases n - taken,
        {
            let m = Self::msb(work);
            proof {
                lemma_single13(m);
                lemma_and_le(work, !(1u32 << m));
                let rest: u32 = keep13(work & !(1u32 << m), n - taken - 1);
                assert(result | ((1u32 << m) | rest) == (result | (1u32 << m)) | rest)
                    by (bit_vector);
            }
            result = result | (1u32 << m);
            work = work & !(1u32 << m);
            taken = taken + 1;
        }
        proof {
            assert(keep13(work, n - taken) == 0);
            assert(result | 0u32 == result) by (bit_vector);
        }
        result
    }

    /// The encoded value, for unverified display and comparison.
    pub fn as_u32(&self) -> (r: u32)
        ensures
            r == self.spec_value(),
    {
        self.value
    }

    /// Straight detection on a rank mask; see `straight13`.
    pub fn straight_bits(numbers: u32) -> (r: u32)
        ensures
            r == straight13(numbers),
            r <= numbers,
    {
        proof {
            lemma_straight13_le(numbers);
        }
        let numbers_ace = (numbers << 1u32) | (numbers >> 12u32);
        numbers & numbers_ace & (numbers_ace << 1u32) & (numbers_ace << 2u32) & (numbers_ace
            << 3u32)
    }

    /// Evaluates a set of up to eight cards to its combination value.
    pub fn new(cards: CardSet) -> (c: Combination)
        requires
            cards@.len() <= 8,
        ensures
            c.spec_value() == comb_value(cards.spec_bits()),
    {
        proof {
            lemma_and13(cards.spec_bits());
            lemma_and13(cards.spec_bits() >> 13u64);
            lemma_and13(cards.spec_bits() >> 26u64);
            lemma_and13(cards.spec_bits() >> 39u64);
        }
        let bits = cards.as_u64();
        let suit_mask: u64 = 0x1FFF;
        let n1 = (bits & suit_mask) as u32;
        let n2 = ((bits >> 13u64) & suit_mask) as u32;
        let n3 = ((bits >> 26u64) & suit_mask) as u32;
        let n4 = ((bits >> 39u64) & suit_mask) as u32;
        proof {
            assert(n1 == suit1(cards.spec_bits()));
            assert(n2 == suit2(cards.spec_bits()));
            assert(n3 == suit3(cards.spec_bits()));
            assert(n4 == suit4(cards.spec_bits()));
        }
        let c1 = popcount13(n1);
        let c2 = popcount13(n2);
        let c3 = popcount13(n3);
        let c4 = popcount13(n4);
        let mut flush_count = c1;
        let mut flush_value = n1;
        if c2 > flush_count || (c2 == flush_count && n2 > flush_value) {
            flush_count = c2;
            flush_value = n2;
        }
        if c3 > flush_count || (c3 == flush_count && n3 > flush_value) {
            flush_count = c3;
            flush_value = n3;
        }
        if c4 > flush_count || (c4 == flush_count && n4 > flush_value) {
            flush_count = c4;
            flush_value = n4;
        }
        proof {
            assert(flush_count == flush_pick(cards.spec_bits()).0);
            assert(flush_value == flush_pick(cards.spec_bits()).1);
        }
        let is_flush = flush_count >= 5;
        if is_flush {
            let straight_value = Self::straight_bits(flush_value);
            if straight_value != 0 {
                // the highest straight wins; an ace-high top is the royal flush
                return Combination {
                    value: STRAIGHT_FLUSH_BASE + Self::msb(straight_value),
                };
            }
        }
        let numbers = n1 | n2 | n3 | n4;
        let poker_bits = n1 & n2 & n3 & n4;
        proof {
            lemma_or13(n1, n2);
            lemma_or13(n1 | n2, n3);
            lemma_or13((n1 | n2) | n3, n4);
            lemma_and_le(n1 & n2 & n3, n4);
            lemma_and_le(n1 & n2, n3);
            lemma_and_le(n1, n2);
            assert(numbers == numbers_of(cards.spec_bits()));
            assert(poker_bits == poker_bits_of(cards.spec_bits()));
        }
        if poker_bits != 0 {
            let highest_poker = Self::msb(poker_bits);
            proof {
                lemma_shl13((highest_poker + 1) as u32);
                lemma_and_le(numbers, !(1u32 << highest_poker));
            }
            // the four's rank, then the best card outside it
            Combination {
                value: POKER_BASE + ((highest_poker + 1) << 13u32) + Self::msb(
                    numbers & !(1u32 << highest_poker),
                ),
            }
        } else {
            let tris_bits = (n1 & n2 & n3) | (n1 & n2 & n4) | (n1 & n3 & n4) | (n2 & n3 & n4);
            proof {
                lemma_and_le(n1 & n2, n4);
                lemma_and_le(n1 & n3, n4);
                lemma_and_le(n1, n3);
                lemma_and_le(n2 & n3, n4);
                lemma_and_le(n2, n3);
                lemma_or13(n1 & n2 & n3, n1 & n2 & n4);
                lemma_or13((n1 & n2 & n3) | (n1 & n2 & n4), n1 & n3 & n4);
                lemma_or13(((n1 & n2 & n3) | (n1 & n2 & n4)) | (n1 & n3 & n4), n2 & n3 & n4);
            }
            let highest_tris = Self::msb(tris_bits);
            let highest_tris_bit = tris_bits & (1u32 << highest_tris);
            // pairs outside the best three-of-a-kind
            let pair_bits = ((n1 & n2) | (n1 & n3) | (n1 & n4) | (n2 & n3) | (n2 & n4) | (n3
                & n4)) & !highest_tris_bit;
            proof {
                lemma_and_le(n1, n4);
                lemma_and_le(n2, n4);
                lemma_and_le(n3, n4);
                lemma_or13(n1 & n2, n1 & n3);
                lemma_or13((n1 & n2) | (n1 & n3), n1 & n4);
                lemma_or13(((n1 & n2) | (n1 & n3)) | (n1 & n4), n2 & n3);
                lemma_or13((((n1 & n2) | (n1 & n3)) | (n1 & n4)) | (n2 & n3), n2 & n4);
                lemma_or13(((((n1 & n2) | (n1 & n3)) | (n1 & n4)) | (n2 & n3)) | (n2 & n4), n3
                    & n4);
                lemma_and_le(
                    ((((n1 & n2) | (n1 & n3)) | (n1 & n4)) | (n2 & n3)) | (n2 & n4) | (n3 & n4),
                    !highest_tris_bit,
                );
                lemma_shl13((highest_tris + 1) as u32);
                assert(tris_bits == tris_bits_of(cards.spec_bits()));
                assert(highest_tris_bit == best_tris_bit_of(cards.spec_bits()));
                assert(pair_bits == pair_bits_of(cards.spec_bits()));
            }
            let is_tris = highest_tris_bit != 0;
            let is_pair = pair_bits != 0;
            if is_tris && is_pair {
                Combination {
                    value: FULL_HOUSE_BASE + ((highest_tris + 1) << 13u32) + Self::msb(pair_bits),
                }
            } else if is_flush {
                Combination { value: FLUSH_BASE + Self::keep_n_bits(flush_value, 5) }
            } else {
                let straight_bits = Self::straight_bits(numbers);
                if straight_bits != 0 {
                    Combination { value: STRAIGHT_BASE + Self::msb(straight_bits) }
                } else if is_tris {
                    proof {
                        lemma_and_le(numbers, !highest_tris_bit);
                    }
                    Combination {
                        value: TRIS_BASE + ((highest_tris + 1) << 13u32) + Self::keep_n_bits(
                            numbers & !highest_tris_bit,
                            2,
                        ),
                    }
                } else if is_pair {
                    if popcount13(pair_bits) >= 2 {
                        let first_2_pairs = Self::keep_n_bits(pair_bits, 2);
                        proof {
                            lemma_shl6(first_2_pairs);
                            lemma_and_le(numbers, !first_2_pairs);
                        }
                        Combination {
                            value: TWO_PAIRS_BASE + (first_2_pairs << 6u32) + Self::msb(
                                numbers & !first_2_pairs,
                            ),
                        }
                    } else {
                        let highest_pair = Self::msb(pair_bits);
                        proof {
                            lemma_shl13((highest_pair + 1) as u32);
                            lemma_and_le(numbers, !pair_bits);
                        }
                        Combination {
                            value: PAIR_BASE + ((highest_pair + 1) << 13u32) + Self::keep_n_bits(
                                numbers & !pair_bits,
                                3,
                            ),
                        }
                    }
                } else {
                    Combination { value: HIGH_CARD_BASE + Self::keep_n_bits(numbers, 5) }
                }
            }
        }
    }

    /// Decodes the category of this combination value.
    pub fn category(&self) -> (t: CombinationType)
        requires
            self.spec_value() <= ROYAL_FLUSH_VALUE,
        ensures
            t == category_of(self.spec_value()),
    {
        let v = self.value;
        if v == ROYAL_FLUSH_VALUE {
            CombinationType::RoyalFlush
        } else if v >= STRAIGHT_FLUSH_BASE {
            CombinationType::StraightFlush
        } else if v >= POKER_BASE {
            CombinationType::Poker
        } else if v >= FULL_HOUSE_BASE {
            CombinationType::FullHouse
        } else if v >= FLUSH_BASE {
            CombinationType::Flush
        } else if v >= STRAIGHT_BASE {
            CombinationType::Straight
        } else if v >= TRIS_BASE {
            CombinationType::Tris
        } else if v >= TWO_PAIRS_BASE {
            CombinationType::TwoPairs
        } else if v >= PAIR_BASE {
            CombinationType::Pair
        } else {
            CombinationType::HighCard
        }
    }

    /// The category's display name.
    pub fn name(&self) -> (r: &str)
        requires
            self.spec_value() <= ROYAL_FLUSH_VALUE,
        ensures
            r@ == category_name(category_of(self.spec_value())),
    {
        match self.category() {
            CombinationType::RoyalFlush => "RoyalFlush",
            CombinationType::StraightFlush => "StraightFlush",
            CombinationType::Poker => "Poker",
            CombinationType::FullHouse => "FullHouse",
            CombinationType::Flush => "Flush",
            CombinationType::Straight => "Straight",
            CombinationType::Tris => "Tris",
            CombinationType::TwoPairs => "TwoPairs",
            CombinationType::Pair => "Pair",
            CombinationType::HighCard => "HighCard",
        }
    }
}

/// Display name of each hand category.
pub open spec fn category_name(t: CombinationType) -> Seq<char> {
    match t {
        CombinationType::RoyalFlush => "RoyalFlush"@,
        CombinationType::StraightFlush => "StraightFlush"@,
        CombinationType::Poker => "Poker"@,
        CombinationType::FullHouse => "FullHouse"@,
        CombinationType::Flush => "Flush"@,
        CombinationType::Straight => "Straight"@,
        CombinationType::Tris => "Tris"@,
        CombinationType::TwoPairs => "TwoPairs"@,
        CombinationType::Pair => "Pair"@,
        CombinationType::HighCard => "HighCard"@,
    }
}

impl CardSet {
    /// Evaluates this card set to its combination.
    pub fn comb(&self) -> (c: Combination)
        requires
            self@.len() <= 8,
        ensures
            c.spec_value() == comb_value(self.spec_bits()),
    {
        Combination::new(*self)
    }
}

/// Category always dominates tiebreak: any combination value built from a
/// higher category compares greater than any built from a lower one,
/// whatever the two tiebreak payloads are.
pub proof fn lemma_category_dominates(
    t1: CombinationType,
    t2: CombinationType,
    p1: u32,
    p2: u32,
)
    requires
        category_level(t1) > category_level(t2),
        p1 <= category_payload_max(t1),
        p2 <= category_payload_max(t2),
    ensures
        category_base(t1) + p1 > category_base(t2) + p2,
{
}

/// The total order on encoded values refines the category order: between
/// combination values of different categories, the higher category wins.
pub proof fn lemma_total_order(v1: u32, v2: u32)
    requires
        HIGH_CARD_BASE <= v1 <= ROYAL_FLUSH_VALUE,
        HIGH_CARD_BASE <= v2 <= ROYAL_FLUSH_VALUE,
        category_level(category_of(v1)) > category_level(category_of(v2)),
    ensures
        v1 > v2,
{
}

/// Category dominance holds of evaluated hands too: between two hands
/// whose values decode to different categories, the hand of the higher
/// category has the numerically greater value.
pub proof fn lemma_comb_total_order(a: u64, b: u64)
    requires
        category_level(category_of(comb_value(a) as u32)) > category_level(
            category_of(comb_value(b) as u32),
        ),
    ensures
        comb_value(a) > comb_value(b),
{
    lemma_comb_value_bounds(a);
    lemma_comb_value_bounds(b);
    lemma_total_order(comb_value(a) as u32, comb_value(b) as u32);
}

/// Hand evaluation is a pure function of the card set: equal inputs give
/// equal combination values.
pub proof fn lemma_comb_pure(a: CardSet, b: CardSet)
    requires
        a == b,
    ensures
        comb_value(a.spec_bits()) == comb_value(b.spec_bits()),
{
}


} // verus!
