//! The Monte-Carlo equity estimator. Each trial completes the board and
//! every opponent's hole cards by uniform draws from the unknown part of
//! the deck, ranks all hands against the shared board, and tallies a win
//! when no opponent ranks strictly higher.

use vstd::prelude::*;
use vstd::set_lib::lemma_len_union;
use crate::cardset::CardSet;
use crate::combination::{comb_value, Combination};

verus! {

/// Most cards a player may hold.
pub const MAX_HAND: u32 = 2;

/// Most cards the table may show.
pub const MAX_TABLE: u32 = 5;

/// Smallest allowed number of players at the table.
pub const MIN_PLAYERS: u32 = 2;

/// Largest allowed number of players at the table.
pub const MAX_PLAYERS: u32 = 8;

/// A hand/table/player-count combination the simulation accepts.
pub open spec fn valid_game(hand: CardSet, table: CardSet, players: u32) -> bool {
    &&& hand.wf()
    &&& table.wf()
    &&& MIN_PLAYERS <= players <= MAX_PLAYERS
    &&& hand@.len() <= MAX_HAND
    &&& table@.len() <= MAX_TABLE
    &&& hand@.disjoint(table@)
}

/// A reason a hand/table/player-count combination is rejected before any
/// simulation work begins.
#[derive(Debug, PartialEq, Eq, Structural)]
pub enum GameError {
    /// The hand holds more cards than a player may. Holds the hand.
    InvalidHand(CardSet),
    /// The table shows more cards than it may. Holds the table.
    InvalidTable(CardSet),
    /// A player count outside the allowed range. Holds the count.
    WrongNumberOfPlayers(u32),
    /// Hand and table share cards. Holds the shared cards.
    InvalidHandTableComposition(CardSet),
}

/// Validates a game before simulation: succeeds exactly on the games
/// `valid_game` allows, and names the first rule broken otherwise — the
/// player count, then the hand size, then the table size, then the
/// overlap of hand and table.
pub fn check_game(hand: CardSet, table: CardSet, players: u32) -> (r: Result<(), GameError>)
    requires
        hand.wf(),
        table.wf(),
    ensures
        r matches Ok(_) <==> valid_game(hand, table, players),
        !(MIN_PLAYERS <= players <= MAX_PLAYERS) <==> r == Result::<(), GameError>::Err(
            GameError::WrongNumberOfPlayers(players),
        ),
        (MIN_PLAYERS <= players <= MAX_PLAYERS && hand@.len() > MAX_HAND) <==> r == Result::<
            (),
            GameError,
        >::Err(GameError::InvalidHand(hand)),
        (MIN_PLAYERS <= players <= MAX_PLAYERS && hand@.len() <= MAX_HAND && table@.len()
            > MAX_TABLE) <==> r == Result::<(), GameError>::Err(GameError::InvalidTable(table)),
        (MIN_PLAYERS <= players <= MAX_PLAYERS && hand@.len() <= MAX_HAND && table@.len()
            <= MAX_TABLE && !hand@.disjoint(table@)) <==> r == Result::<(), GameError>::Err(
            GameError::InvalidHandTableComposition(
                CardSet::spec_from_bits(table.spec_bits() & hand.spec_bits()),
            ),
        ),
{
    proof {
        hand.lemma_view();
        table.lemma_view();
    }
    if players < MIN_PLAYERS || players > MAX_PLAYERS {
        Err(GameError::WrongNumberOfPlayers(players))
    } else if hand.count_cards() > MAX_HAND {
        Err(GameError::InvalidHand(hand))
    } else if table.count_cards() > MAX_TABLE {
        Err(GameError::InvalidTable(table))
    } else {
        let overlap = table.bitand(hand);
        proof {
            lemma_overlap(hand, table);
            CardSet::lemma_spec_from_bits(table.spec_bits() & hand.spec_bits());
            CardSet::lemma_bits_injective(
                overlap,
                CardSet::spec_from_bits(table.spec_bits() & hand.spec_bits()),
            );
        }
        if !overlap.is_empty() {
            Err(GameError::InvalidHandTableComposition(overlap))
        } else {
            Ok(())
        }
    }
}

/// Cards present in neither of two disjoint sets are counted once each:
/// the union's size is the sum of the sizes.
proof fn lemma_union_count(a: CardSet, b: CardSet)
    requires
        a.wf(),
        b.wf(),
        a@.disjoint(b@),
    ensures
        crate::bits::pcount(a.spec_bits() | b.spec_bits(), 52) == a@.len() + b@.len(),
{
    a.lemma_view();
    b.lemma_view();
    lemma_overlap(a, b);
    let x = a.spec_bits();
    let y = b.spec_bits();
    assert(x & y == y & x && (x | y) == (y | x)) by (bit_vector);
    crate::bits::lemma_pcount_or_disjoint(a.spec_bits(), b.spec_bits(), 52);
    crate::bits::lemma_pcount_is_len(a.spec_bits() | b.spec_bits(), 52);
}

/// Hand and table are disjoint exactly when the mask of their shared
/// cards is zero.
proof fn lemma_overlap(hand: CardSet, table: CardSet)
    requires
        hand.wf(),
        table.wf(),
    ensures
        hand@.disjoint(table@) <==> table.spec_bits() & hand.spec_bits() == 0,
{
    crate::bits::lemma_and_bit(table.spec_bits(), hand.spec_bits());
    if table.spec_bits() & hand.spec_bits() == 0 {
        crate::bits::lemma_zero_bit();
        assert forall|a: int| hand@.contains(a) implies !table@.contains(a) by {
            assert(((table.spec_bits() & hand.spec_bits()) >> (a as u64)) & 1u64 == (0u64 >> (
            a as u64)) & 1u64);
        }
    } else {
        let and = table.spec_bits() & hand.spec_bits();
        crate::bits::lemma_wf_ops(table.spec_bits(), hand.spec_bits());
        if hand@.disjoint(table@) {
            assert forall|i: int| 0 <= i < 52 implies !crate::bits::bitat(and, i) by {
                if crate::bits::bitat(and, i) {
                    assert(hand@.contains(i) && table@.contains(i));
                }
            }
            crate::bits::lemma_pcount_none(and, 52);
            crate::bits::lemma_no_bits_is_zero(and);
        }
    }
}

/// The showdown decision: the hero wins the round exactly when no
/// opponent's combination value is strictly greater than the hero's.
pub fn wins_showdown(my: Combination, opponents: &Vec<Combination>) -> (r: bool)
    ensures
        r == (forall|i: int|
            0 <= i < opponents@.len() ==> opponents@[i].spec_value() <= my.spec_value()),
{
    let my_value = my.as_u32();
    let mut k: usize = 0;
    while k < opponents.len()
        invariant
            k <= opponents@.len(),
            forall|i: int| 0 <= i < k ==> opponents@[i].spec_value() <= my.spec_value(),
            my_value == my.spec_value(),
        decreases opponents@.len() - k,
    {
        if opponents[k].as_u32() > my_value {
            return false;
        }
        k = k + 1;
    }
    true
}

/// Plays one simulated round: completes the board, deals the hero's
/// missing hole cards and two cards to each opponent, and reports whether
/// the hero's combination is at least as strong as every opponent's.
pub fn simulate_round(hand: CardSet, table: CardSet, players: u32) -> (won: bool)
    requires
        valid_game(hand, table, players),
{
    proof {
        hand.lemma_view();
        table.lemma_view();
    }
    let table_draw_count = MAX_TABLE - table.count_cards();
    let hand_draw_count = MAX_HAND - hand.count_cards();
    let mut deck = hand.bitor(table).not();
    let drawn_table = deck.draw(table_draw_count);
    let table_full = table.bitor(drawn_table);
    let drawn_hand = deck.draw(hand_draw_count);
    let my_cards = hand.bitor(drawn_hand).bitor(table_full);
    proof {
        drawn_hand.lemma_view();
        drawn_table.lemma_view();
        lemma_len_union(table@, drawn_table@);
        lemma_len_union(hand@, drawn_hand@);
        table_full.lemma_view();
        lemma_len_union(hand@.union(drawn_hand@), table_full@);
    }
    let my_comb = my_cards.comb();
    let mut opponents: Vec<Combination> = Vec::new();
    let mut p: u32 = 0;
    while p < players - 1
        invariant
            deck.wf(),
            table_full.wf(),
            table_full@.len() <= 5,
            MIN_PLAYERS <= players,
        decreases players - 1 - p,
    {
        let opp_hole = deck.draw(MAX_HAND);
        let opp_cards = opp_hole.bitor(table_full);
        proof {
            opp_hole.lemma_view();
            table_full.lemma_view();
            lemma_len_union(opp_hole@, table_full@);
        }
        let opp_comb = opp_cards.comb();
        opponents.push(opp_comb);
        p = p + 1;
    }
    wins_showdown(my_comb, &opponents)
}

/// Plays one round and reports every player's cards and combination, the
/// hero first, together with the completed table: the data behind a
/// round-by-round report. Each entry pairs a player's hole cards with the
/// combination of those cards and the shared table.
pub fn play_round_detail(hand: CardSet, table: CardSet, players: u32) -> (r: (
    CardSet,
    Vec<(CardSet, Combination)>,
))
    requires
        valid_game(hand, table, players),
    ensures
        r.0.wf(),
        r.0@.len() == MAX_TABLE,
        table@.subset_of(r.0@),
        r.1@.len() == players,
        forall|i: int| 0 <= i < r.1@.len() ==> (#[trigger] r.1@[i]).0@.len() == MAX_HAND,
        hand@.subset_of(r.1@[0].0@),
        forall|i: int|
            0 <= i < r.1@.len() ==> (#[trigger] r.1@[i]).1.spec_value() == comb_value(
                r.1@[i].0.spec_bits() | r.0.spec_bits(),
            ),
{
    proof {
        hand.lemma_view();
        table.lemma_view();
    }
    let table_draw_count = MAX_TABLE - table.count_cards();
    let hand_draw_count = MAX_HAND - hand.count_cards();
    let unknown = hand.bitor(table);
    let mut deck = unknown.not();
    proof {
        unknown.lemma_view();
        deck.lemma_view();
        lemma_union_count(hand, table);
        let u = unknown.spec_bits();
        assert(!u & 0xF_FFFF_FFFF_FFFFu64 == 0xF_FFFF_FFFF_FFFFu64 & !u) by (bit_vector);
        crate::bits::lemma_pcount_diff(0xF_FFFF_FFFF_FFFF, unknown.spec_bits(), 52);
        crate::bits::lemma_full_count(52);
        assert(deck@.len() == 52 - hand@.len() - table@.len());
    }
    let drawn_hand = deck.draw(hand_draw_count);
    let my_hole = hand.bitor(drawn_hand);
    proof {
        drawn_hand.lemma_view();
        assert(hand@.disjoint(drawn_hand@));
        lemma_union_count(hand, drawn_hand);
        my_hole.lemma_view();
        assert(my_hole@.len() == MAX_HAND);
    }
    let drawn_table = deck.draw(table_draw_count);
    let table_full = table.bitor(drawn_table);
    proof {
        drawn_table.lemma_view();
        assert(table@.disjoint(drawn_table@));
        lemma_union_count(table, drawn_table);
        table_full.lemma_view();
        assert(table_full@.len() == MAX_TABLE);
    }
    let mut results: Vec<(CardSet, Combination)> = Vec::new();
    proof {
        lemma_len_union(my_hole@, table_full@);
    }
    let my_comb = my_hole.bitor(table_full).comb();
    results.push((my_hole, my_comb));
    let ghost deck0_len: nat = deck@.len();
    let mut p: u32 = 0;
    while p < players - 1
        invariant
            deck.wf(),
            table_full.wf(),
            table_full@.len() == MAX_TABLE,
            MIN_PLAYERS <= players <= MAX_PLAYERS,
            p <= players - 1,
            deck@.len() == deck0_len - 2 * p,
            deck0_len >= 45,
            results@.len() == p + 1,
            hand@.subset_of(results@[0].0@),
            forall|i: int|
                0 <= i < results@.len() ==> (#[trigger] results@[i]).0@.len() == MAX_HAND,
            forall|i: int|
                0 <= i < results@.len() ==> (#[trigger] results@[i]).1.spec_value() == comb_value(
                    results@[i].0.spec_bits() | table_full.spec_bits(),
                ),
        decreases players - 1 - p,
    {
        let opp_hole = deck.draw(MAX_HAND);
        proof {
            opp_hole.lemma_view();
            table_full.lemma_view();
            lemma_len_union(opp_hole@, table_full@);
        }
        let opp_comb = opp_hole.bitor(table_full).comb();
        results.push((opp_hole, opp_comb));
        p = p + 1;
    }
    (table_full, results)
}

/// The strongest combination of a round's results: an element of the
/// list that no other element exceeds.
pub fn best_combination(results: &Vec<(CardSet, Combination)>) -> (best: Combination)
    requires
        results@.len() > 0,
    ensures
        exists|i: int| 0 <= i < results@.len() && best == (#[trigger] results@[i]).1,
        forall|i: int|
            0 <= i < results@.len() ==> (#[trigger] results@[i]).1.spec_value()
                <= best.spec_value(),
{
    let mut best = results[0].1;
    let mut k: usize = 1;
    while k < results.len()
        invariant
            1 <= k <= results@.len(),
            exists|i: int| 0 <= i < results@.len() && best == (#[trigger] results@[i]).1,
            forall|i: int|
                0 <= i < k ==> (#[trigger] results@[i]).1.spec_value() <= best.spec_value(),
        decreases results@.len() - k,
    {
        if results[k].1.as_u32() > best.as_u32() {
            best = results[k].1;
        }
        k = k + 1;
    }
    best
}

/// Runs `games` independent rounds and counts the hero's wins.
pub fn simulate(hand: CardSet, table: CardSet, players: u32, games: u32) -> (wins: u32)
    requires
        valid_game(hand, table, players),
    ensures
        wins <= games,
{
    let mut wins: u32 = 0;
    let mut round: u32 = 0;
    while round < games
        invariant
            wins <= round <= games,
            valid_game(hand, table, players),
        decreases games - round,
    {
        if simulate_round(hand, table, players) {
            wins = wins + 1;
        }
        round = round + 1;
    }
    wins
}

/// Estimates the hero's wins over `games` rounds. Without hole cards no
/// round is simulated: all players are symmetric, so the estimate is the
/// uniform `games / players`.
pub fn estimate_wins(hand: CardSet, table: CardSet, players: u32, games: u32) -> (wins: u32)
    requires
        valid_game(hand, table, players),
    ensures
        wins <= games,
        hand@.len() == 0 ==> wins == games / players,
{
    proof {
        hand.lemma_view();
    }
    if hand.is_empty() {
        games / players
    } else {
        simulate(hand, table, players, games)
    }
}

} // verus!
