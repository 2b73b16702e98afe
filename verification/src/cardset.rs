//! An immutable-by-value set of playing cards, stored as a 52-bit mask.
//! Card `i` (`suit * 13 + rank_ordinal`, `i < 52`) is present exactly when
//! bit `i` is set. The view of a `CardSet` is the set of present card
//! indices.

use vstd::prelude::*;
use crate::bits::{
    bitat, deck_wf, pcount, bit_positions, lemma_pcount_is_len, lemma_pcount_le, lemma_or_bit,
    lemma_and_bit, lemma_andnot_bit, lemma_not_bit, lemma_single_bit, lemma_zero_bit,
    lemma_wf_ops, lemma_no_bits_is_zero, lemma_pcount_clear, lemma_pcount_diff,
    lemma_subset_clear, FULL_DECK_BITS,
};

verus! {

#[derive(PartialEq, Eq, Structural, Clone, Copy, Debug)]
pub struct CardSet {
    bits: u64,
}

impl View for CardSet {
    type V = Set<int>;

    open spec fn view(&self) -> Set<int> {
        bit_positions(self.spec_bits(), 52)
    }
}

impl CardSet {
    /// The raw 52-bit mask.
    pub closed spec fn spec_bits(&self) -> u64 {
        self.bits
    }

    /// The card set holding exactly the cards of `bits`, as a
    /// specification value.
    pub closed spec fn spec_from_bits(bits: u64) -> CardSet {
        CardSet { bits }
    }

    /// `spec_from_bits` and `spec_bits` are inverses.
    pub proof fn lemma_spec_from_bits(bits: u64)
        ensures
            CardSet::spec_from_bits(bits).spec_bits() == bits,
    {
    }

    /// A card set is nothing but its mask: equal masks, equal sets.
    pub proof fn lemma_bits_injective(a: CardSet, b: CardSet)
        requires
            a.spec_bits() == b.spec_bits(),
        ensures
            a == b,
    {
    }

    /// Only the 52 card bits may be set.
    pub open spec fn wf(&self) -> bool {
        deck_wf(self.spec_bits())
    }

    /// The number of cards present, as a specification value.
    pub open spec fn spec_count(&self) -> nat {
        pcount(self.spec_bits(), 52)
    }

    /// The view is always the finite set of present card indices, with
    /// cardinality `spec_count`.
    pub proof fn lemma_view(&self)
        ensures
            self@.finite(),
            self@.len() == self.spec_count(),
            self@.len() <= 52,
            forall|i: int| self@.contains(i) ==> 0 <= i < 52,
    {
        lemma_pcount_is_len(self.bits, 52);
        lemma_pcount_le(self.bits, 52);
    }

    /// The empty set.
    pub fn none() -> (r: CardSet)
        ensures
            r.wf(),
            r.spec_bits() == 0,
            r@ == Set::<int>::empty(),
    {
        proof {
            lemma_zero_bit();
            lemma_wf_ops(0, 0);
            assert(bit_positions(0, 52) =~= Set::<int>::empty());
        }
        CardSet { bits: 0 }
    }

    /// The full 52-card deck.
    pub fn all() -> (r: CardSet)
        ensures
            r.wf(),
            r.spec_bits() == FULL_DECK_BITS,
            r@ == Set::new(|i: int| 0 <= i < 52),
    {
        proof {
            lemma_zero_bit();
            lemma_wf_ops(0, 0);
            assert(bit_positions(FULL_DECK_BITS, 52) =~= Set::new(|i: int| 0 <= i < 52));
        }
        CardSet { bits: FULL_DECK_BITS }
    }

    /// The set holding the single card `index`.
    pub fn one(index: u32) -> (r: CardSet)
        requires
            index < 52,
        ensures
            r.wf(),
            r.spec_bits() == 1u64 << index,
            r@ == Set::<int>::empty().insert(index as int),
    {
        proof {
            lemma_single_bit(index as u64);
            assert((1u64 << (index as u64)) & 0xF_FFFF_FFFF_FFFFu64 == (1u64 << (index as u64)))
                by (bit_vector)
                requires
                    index < 52,
            ;
            assert(bit_positions(1u64 << (index as u64), 52) =~= Set::<int>::empty().insert(
                index as int));
        }
        CardSet { bits: 1u64 << index }
    }

    /// Set union.
    pub fn bitor(self, rhs: CardSet) -> (r: CardSet)
        requires
            self.wf(),
            rhs.wf(),
        ensures
            r.wf(),
            r.spec_bits() == self.spec_bits() | rhs.spec_bits(),
            r@ == self@.union(rhs@),
    {
        proof {
            lemma_or_bit(self.bits, rhs.bits);
            lemma_wf_ops(self.bits, rhs.bits);
            assert(bit_positions(self.bits | rhs.bits, 52) =~= self@.union(rhs@));
        }
        CardSet { bits: self.bits | rhs.bits }
    }

    /// In-place set union.
    pub fn bitor_assign(&mut self, rhs: CardSet)
        requires
            old(self).wf(),
            rhs.wf(),
        ensures
            final(self).wf(),
            final(self).spec_bits() == old(self).spec_bits() | rhs.spec_bits(),
            final(self)@ == old(self)@.union(rhs@),
    {
        *self = self.bitor(rhs);
    }

    /// Set intersection.
    pub fn bitand(self, rhs: CardSet) -> (r: CardSet)
        requires
            self.wf(),
            rhs.wf(),
        ensures
            r.wf(),
            r.spec_bits() == self.spec_bits() & rhs.spec_bits(),
            r@ == self@.intersect(rhs@),
    {
        proof {
            lemma_and_bit(self.bits, rhs.bits);
            lemma_wf_ops(self.bits, rhs.bits);
            assert(bit_positions(self.bits & rhs.bits, 52) =~= self@.intersect(rhs@));
        }
        CardSet { bits: self.bits & rhs.bits }
    }

    /// Complement relative to the 52-card universe.
    pub fn not(self) -> (r: CardSet)
        requires
            self.wf(),
        ensures
            r.wf(),
            r.spec_bits() == !self.spec_bits() & FULL_DECK_BITS,
            r@ == Set::new(|i: int| 0 <= i < 52).difference(self@),
    {
        proof {
            lemma_not_bit(self.bits);
            lemma_wf_ops(self.bits, self.bits);
            assert(bit_positions(!self.bits & FULL_DECK_BITS, 52) =~= Set::new(
                |i: int| 0 <= i < 52,
            ).difference(self@));
        }
        CardSet { bits: !self.bits & FULL_DECK_BITS }
    }

    /// Number of cards present.
    pub fn count_cards(&self) -> (r: u32)
        ensures
            r == self.spec_count(),
            r <= 52,
    {
        popcount(self.bits)
    }

    /// True when no card is present.
    pub fn is_empty(&self) -> (r: bool)
        requires
            self.wf(),
        ensures
            r == (self@.len() == 0),
            r == (self.spec_bits() == 0),
    {
        proof {
            self.lemma_view();
            if self.bits != 0 {
                if pcount(self.bits, 52) == 0 {
                    lemma_no_bits_is_zero(self.bits);
                }
            } else {
                crate::bits::lemma_pcount_of_zero(52);
            }
        }
        self.bits == 0
    }

    /// The raw mask, as an executable value.
    pub fn as_u64(&self) -> (r: u64)
        ensures
            r == self.spec_bits(),
    {
        self.bits
    }

    /// Removes up to `count` cards chosen uniformly at random, without
    /// replacement, and returns them as a new set. Saturates when fewer
    /// than `count` cards remain: the result then holds everything that
    /// was left.
    ///
    /// Each step picks a uniform index among the cards still present and
    /// removes that card, so the result is uniform over subsets of the
    /// drawn size.
    pub fn draw(&mut self, count: u32) -> (drawn: CardSet)
        requires
            old(self).wf(),
        ensures
            final(self).wf(),
            drawn.wf(),
            drawn@.subset_of(old(self)@),
            final(self)@ == old(self)@.difference(drawn@),
            drawn@.disjoint(final(self)@),
            drawn@.union(final(self)@) == old(self)@,
            drawn@.len() == (if count <= old(self)@.len() {
                count as nat
            } else {
                old(self)@.len()
            }),
            final(self)@.len() == old(self)@.len() - drawn@.len(),
    {
        let ghost orig: u64 = self.bits;
        proof {
            self.lemma_view();
            lemma_subset_clear(orig, orig, 0);
        }
        let mut cards: u64 = self.bits;
        let mut left: u32 = popcount(self.bits);
        let mut todraw: u32 = if count <= left {
            count
        } else {
            left
        };
        let ghost goal: nat = todraw as nat;
        while todraw > 0
            invariant
                deck_wf(orig),
                deck_wf(cards),
                cards & orig == cards,
                left == pcount(cards, 52),
                todraw <= left,
                pcount(orig, 52) + todraw == pcount(cards, 52) + goal,
                goal == (if count <= pcount(orig, 52) {
                    count as nat
                } else {
                    pcount(orig, 52)
                }),
            decreases todraw,
        {
            let j = random_below(left);
            let i = nth_set_bit(cards, j);
            let mask: u64 = 1u64 << i;
            proof {
                lemma_pcount_clear(cards, i as int, 52);
                lemma_subset_clear(cards, orig, mask);
                lemma_wf_ops(cards, mask);
            }
            cards = cards & !mask;
            left = left - 1;
            todraw = todraw - 1;
        }
        let drawn_bits: u64 = self.bits & !cards;
        proof {
            lemma_wf_ops(orig, cards);
            lemma_pcount_diff(orig, cards, 52);
            lemma_pcount_is_len(orig, 52);
            lemma_pcount_is_len(cards, 52);
            lemma_pcount_is_len(orig & !cards, 52);
            lemma_andnot_bit(orig, cards);
            lemma_and_bit(cards, orig);
            assert(bit_positions(cards, 52) =~= bit_positions(orig, 52).difference(
                bit_positions(orig & !cards, 52)));
            assert(bit_positions(orig & !cards, 52).union(bit_positions(cards, 52))
                =~= bit_positions(orig, 52));
        }
        self.bits = cards;
        CardSet { bits: drawn_bits }
    }
}

/// Population count of the 52 card bits.
fn popcount(bits: u64) -> (r: u32)
    ensures
        r == pcount(bits, 52),
        r <= 52,
{
    let mut acc: u32 = 0;
    let mut i: u64 = 0;
    while i < 52
        invariant
            i <= 52,
            acc == pcount(bits, i as int),
            acc <= i,
        decreases 52 - i,
    {
        if (bits >> i) & 1 == 1 {
            acc = acc + 1;
        }
        i = i + 1;
    }
    acc
}

/// Position of the set bit with exactly `j` set bits below it.
fn nth_set_bit(bits: u64, j: u32) -> (r: u32)
    requires
        j < pcount(bits, 52),
    ensures
        r < 52,
        bitat(bits, r as int),
        pcount(bits, r as int) == j,
{
    let mut seen: u32 = 0;
    let mut i: u64 = 0;
    while i < 52
        invariant
            i <= 52,
            seen == pcount(bits, i as int),
            seen <= j,
            j < pcount(bits, 52),
        decreases 52 - i,
    {
        if (bits >> i) & 1 == 1 {
            if seen == j {
                return i as u32;
            }
            seen = seen + 1;
        }
        i = i + 1;
    }
    proof {
        assert(false);
    }
    0
}

/// Relies on `rand::random_range`: a uniformly distributed value in the
/// given non-empty range, here `[0, n)`.
#[verifier::external_body]
fn random_below(n: u32) -> (r: u32)
    requires
        n > 0,
    ensures
        r < n,
{
    rand::random_range(0..n)
}

} // verus!
