//! Card notation: parsing and formatting of card strings.
//!
//! A card token is a rank followed by a suit, with no separator between
//! tokens. Ranks are `2`..`9`, `10`..`13` (ten, jack, queen, king), a bare
//! `1` or `A` for the ace, or `J`, `Q`, `K`. Suits are `♦`/`Q`, `♥`/`C`,
//! `♠`/`P`, `♣`/`F`; everything is case-insensitive. Formatting enumerates
//! the cards rank-first (deuces before treys, diamonds before hearts) and
//! joins them with commas for display, or with nothing for the compact
//! form that parses back.

use vstd::prelude::*;
use vstd::string::*;
use crate::bits::{bitat, deck_wf};
use crate::cardset::CardSet;

verus! {

/// A reason card notation is rejected.
#[derive(Debug, PartialEq, Eq, Structural)]
pub enum CardParseError {
    /// A character where a rank was expected that names no rank. Holds
    /// the offending character, upper-cased.
    InvalidDigit(char),
    /// A character where a suit was expected that names no suit. Holds
    /// the offending character, upper-cased.
    InvalidSuit(char),
    /// A card that occurred twice, as a one-card set.
    RepeatedCard(CardSet),
    /// The input ended in the middle of a token.
    UnexpectedEndOfInput,
}

/// ASCII upper-casing of a single character.
pub open spec fn upc(c: char) -> char {
    match c {
        'a' => 'A',
        'b' => 'B',
        'c' => 'C',
        'd' => 'D',
        'e' => 'E',
        'f' => 'F',
        'g' => 'G',
        'h' => 'H',
        'i' => 'I',
        'j' => 'J',
        'k' => 'K',
        'l' => 'L',
        'm' => 'M',
        'n' => 'N',
        'o' => 'O',
        'p' => 'P',
        'q' => 'Q',
        'r' => 'R',
        's' => 'S',
        't' => 'T',
        'u' => 'U',
        'v' => 'V',
        'w' => 'W',
        'x' => 'X',
        'y' => 'Y',
        'z' => 'Z',
        _ => c,
    }
}

/// The suit a (upper-cased) suit character names, or -1.
pub open spec fn suit_code(c: char) -> int {
    if c == '\u{2666}' || c == 'Q' {
        0
    } else if c == '\u{2665}' || c == 'C' {
        1
    } else if c == '\u{2660}' || c == 'P' {
        2
    } else if c == '\u{2663}' || c == 'F' {
        3
    } else {
        -1
    }
}

/// Reads the suit character at position `used` of the token and builds
/// the card index `suit * 13 + (number - 2)`.
pub open spec fn parse_suit_step(s: Seq<char>, number: int, used: int) -> Result<
    Option<(int, int)>,
    CardParseError,
> {
    if s.len() <= used {
        Err(CardParseError::UnexpectedEndOfInput)
    } else {
        let cs = upc(s[used]);
        if suit_code(cs) >= 0 {
            Ok(Some((suit_code(cs) * 13 + number - 2, used + 1)))
        } else {
            Err(CardParseError::InvalidSuit(cs))
        }
    }
}

/// Reads one card token at the front of `s`: `Ok(None)` at the end of the
/// input, or the card index and the number of characters consumed. A `1`
/// looks one character ahead: `10`..`13` are ten to king, anything else
/// leaves a bare ace.
pub open spec fn parse_one(s: Seq<char>) -> Result<Option<(int, int)>, CardParseError> {
    if s.len() == 0 {
        Ok(None)
    } else {
        let c1 = upc(s[0]);
        let u1 = c1 as u32;
        if c1 == '1' {
            if s.len() < 2 {
                Err(CardParseError::UnexpectedEndOfInput)
            } else {
                let u2 = upc(s[1]) as u32;
                if 48 <= u2 <= 51 {
                    parse_suit_step(s, u2 - 48 + 10, 2)
                } else {
                    parse_suit_step(s, 14, 1)
                }
            }
        } else if 50 <= u1 <= 57 {
            parse_suit_step(s, u1 - 48, 1)
        } else if c1 == 'J' {
            parse_suit_step(s, 11, 1)
        } else if c1 == 'Q' {
            parse_suit_step(s, 12, 1)
        } else if c1 == 'K' {
            parse_suit_step(s, 13, 1)
        } else if c1 == 'A' {
            parse_suit_step(s, 14, 1)
        } else {
            Err(CardParseError::InvalidDigit(c1))
        }
    }
}

/// A successful token read consumes two or three characters, never more
/// than the input holds, and yields a card index.
proof fn lemma_parse_one_props(s: Seq<char>)
    ensures
        parse_one(s) matches Ok(Some((card, used))) ==> 0 <= card < 52 && 2 <= used <= 3 && used
            <= s.len(),
{
}

/// Reads a whole card string: tokens until the end of the input, a card
/// repeated within it rejected.
pub open spec fn parse_cards(s: Seq<char>, acc: u64) -> Result<u64, CardParseError>
    decreases s.len(),
    via parse_cards_decreases
{
    match parse_one(s) {
        Err(e) => Err(e),
        Ok(None) => Ok(acc),
        Ok(Some((card, used))) => {
            if acc & (1u64 << (card as u64)) != 0 {
                Err(CardParseError::RepeatedCard(CardSet::spec_from_bits(1u64 << (card as u64))))
            } else {
                parse_cards(s.skip(used), acc | (1u64 << (card as u64)))
            }
        },
    }
}

#[via_fn]
proof fn parse_cards_decreases(s: Seq<char>, acc: u64) {
    lemma_parse_one_props(s);
}

/// ASCII upper-casing of a single character.
fn upper_char(c: char) -> (r: char)
    ensures
        r == upc(c),
{
    match c {
        'a' => 'A',
        'b' => 'B',
        'c' => 'C',
        'd' => 'D',
        'e' => 'E',
        'f' => 'F',
        'g' => 'G',
        'h' => 'H',
        'i' => 'I',
        'j' => 'J',
        'k' => 'K',
        'l' => 'L',
        'm' => 'M',
        'n' => 'N',
        'o' => 'O',
        'p' => 'P',
        'q' => 'Q',
        'r' => 'R',
        's' => 'S',
        't' => 'T',
        'u' => 'U',
        'v' => 'V',
        'w' => 'W',
        'x' => 'X',
        'y' => 'Y',
        'z' => 'Z',
        _ => c,
    }
}

/// Reads one card token of `s` starting at character `pos`: `Ok(None)` at
/// the end of the input, or the card (as a one-card set) and the number
/// of characters consumed.
pub fn parse_one_card(s: &str, pos: usize) -> (r: Result<Option<(CardSet, usize)>, CardParseError>)
    requires
        pos <= s@.len(),
    ensures
        parse_one(s@.skip(pos as int)) matches Ok(None) ==> r matches Ok(None),
        parse_one(s@.skip(pos as int)) matches Ok(Some((card, used))) ==> (r matches Ok(Some((
            cs,
            u,
        ))) && cs.spec_bits() == 1u64 << (card as u64) && cs.wf() && u == used && pos + u
            <= s@.len()),
        parse_one(s@.skip(pos as int)) matches Err(e) ==> r matches Err(e2) && e2 == e,
{
    proof {
        lemma_parse_one_props(s@.skip(pos as int));
        if pos < s@.len() {
            assert(s@.skip(pos as int)[0] == s@[pos as int]);
            if pos + 1 < s@.len() {
                assert(s@.skip(pos as int)[1] == s@[pos as int + 1]);
            }
            if pos + 2 < s@.len() {
                assert(s@.skip(pos as int)[2] == s@[pos as int + 2]);
            }
        }
    }
    let n = s.unicode_len();
    if pos >= n {
        return Ok(None);
    }
    let c1 = upper_char(s.get_char(pos));
    let u1 = c1 as u32;
    let (number, used): (u32, usize) = if c1 == '1' {
        if n - pos < 2 {
            return Err(CardParseError::UnexpectedEndOfInput);
        }
        let u2 = upper_char(s.get_char(pos + 1)) as u32;
        if 48 <= u2 && u2 <= 51 {
            (u2 - 48 + 10, 2)
        } else {
            (14, 1)
        }
    } else if 50 <= u1 && u1 <= 57 {
        (u1 - 48, 1)
    } else if c1 == 'J' {
        (11, 1)
    } else if c1 == 'Q' {
        (12, 1)
    } else if c1 == 'K' {
        (13, 1)
    } else if c1 == 'A' {
        (14, 1)
    } else {
        return Err(CardParseError::InvalidDigit(c1));
    };
    if n - pos <= used {
        return Err(CardParseError::UnexpectedEndOfInput);
    }
    let cs = upper_char(s.get_char(pos + used));
    let suit: u32 = if cs == '\u{2666}' || cs == 'Q' {
        0
    } else if cs == '\u{2665}' || cs == 'C' {
        1
    } else if cs == '\u{2660}' || cs == 'P' {
        2
    } else if cs == '\u{2663}' || cs == 'F' {
        3
    } else {
        return Err(CardParseError::InvalidSuit(cs));
    };
    let index = suit * 13 + number - 2;
    Ok(Some((CardSet::one(index), used + 1)))
}

impl CardSet {
    /// Parses a card string into the set of the cards it names.
    pub fn from_str(s: &str) -> (r: Result<CardSet, CardParseError>)
        ensures
            r matches Ok(cards) ==> parse_cards(s@, 0) == Result::<u64, CardParseError>::Ok(
                cards.spec_bits(),
            ) && cards.wf(),
            r matches Err(e) ==> parse_cards(s@, 0) == Result::<u64, CardParseError>::Err(e),
    {
        let n = s.unicode_len();
        let mut pos: usize = 0;
        let mut cards = CardSet::none();
        proof {
            assert(s@.skip(0) =~= s@);
        }
        while pos < n
            invariant
                pos <= n,
                n == s@.len(),
                cards.wf(),
                parse_cards(s@, 0) == parse_cards(s@.skip(pos as int), cards.spec_bits()),
            decreases n - pos,
        {
            let step = parse_one_card(s, pos);
            proof {
                lemma_parse_one_props(s@.skip(pos as int));
            }
            match step {
                Err(e) => {
                    return Err(e);
                },
                Ok(None) => {
                    proof {
                        assert(false);
                    }
                },
                Ok(Some((card, used))) => {
                    if !(cards.bitand(card)).is_empty() {
                        proof {
                            if let Ok(Some((c, u))) = parse_one(s@.skip(pos as int)) {
                                CardSet::lemma_spec_from_bits(1u64 << (c as u64));
                                CardSet::lemma_bits_injective(
                                    card,
                                    CardSet::spec_from_bits(1u64 << (c as u64)),
                                );
                            }
                        }
                        return Err(CardParseError::RepeatedCard(card));
                    }
                    proof {
                        let sk = s@.skip(pos as int);
                        assert(sk.skip(used as int) =~= s@.skip((pos + used) as int));
                    }
                    cards = cards.bitor(card);
                    pos = pos + used;
                },
            }
        }
        proof {
            assert(s@.skip(pos as int) =~= Seq::<char>::empty());
        }
        Ok(cards)
    }
}

/// The card index of rank-major position `k`: position `k` names the
/// `k / 4`-th rank of the `k % 4`-th suit.
pub open spec fn card_of(k: int) -> int {
    (k % 4) * 13 + k / 4
}

/// The text of rank number `number` (0 for the deuce up to 12 for the
/// ace).
pub open spec fn rank_text(number: int) -> Seq<char> {
    if number == 0 {
        "2"@
    } else if number == 1 {
        "3"@
    } else if number == 2 {
        "4"@
    } else if number == 3 {
        "5"@
    } else if number == 4 {
        "6"@
    } else if number == 5 {
        "7"@
    } else if number == 6 {
        "8"@
    } else if number == 7 {
        "9"@
    } else if number == 8 {
        "10"@
    } else if number == 9 {
        "J"@
    } else if number == 10 {
        "Q"@
    } else if number == 11 {
        "K"@
    } else {
        "A"@
    }
}

/// The symbol of suit `st`.
pub open spec fn suit_text(st: int) -> Seq<char> {
    if st == 0 {
        "\u{2666}"@
    } else if st == 1 {
        "\u{2665}"@
    } else if st == 2 {
        "\u{2660}"@
    } else {
        "\u{2663}"@
    }
}

/// The token of the card at rank-major position `k`.
pub open spec fn card_token(k: int) -> Seq<char> {
    rank_text(k / 4) + suit_text(k % 4)
}

/// The first rank-major position at or after `k` whose card is present,
/// or 52 when none is.
pub open spec fn first_rm_from(bits: u64, k: int) -> int
    decreases 52 - k,
{
    if !(0 <= k < 52) {
        52
    } else if bitat(bits, card_of(k)) {
        k
    } else {
        first_rm_from(bits, k + 1)
    }
}

proof fn lemma_first_rm(bits: u64, k: int)
    requires
        0 <= k <= 52,
    ensures
        k <= first_rm_from(bits, k) <= 52,
        first_rm_from(bits, k) < 52 ==> bitat(bits, card_of(first_rm_from(bits, k))),
        forall|j: int| k <= j < first_rm_from(bits, k) ==> !bitat(bits, card_of(j)),
    decreases 52 - k,
{
    if k < 52 && !bitat(bits, card_of(k)) {
        lemma_first_rm(bits, k + 1);
    }
}

/// Every card index is reached by some rank-major position: a word with
/// no card present at any rank-major position has no card bit at all.
proof fn lemma_rm_covers(bits: u64)
    requires
        forall|j: int| 0 <= j < 52 ==> !bitat(bits, card_of(j)),
    ensures
        forall|i: int| 0 <= i < 52 ==> !bitat(bits, i),
{
    assert forall|i: int| 0 <= i < 52 implies !bitat(bits, i) by {
        let j = (i % 13) * 4 + i / 13;
        assert(((i % 13) * 4 + i / 13) % 4 == i / 13 && ((i % 13) * 4 + i / 13) / 4 == i % 13)
            by (nonlinear_arith)
            requires
                0 <= i < 52,
        ;
        assert(card_of(j) == i);
        assert(!bitat(bits, card_of(j)));
    }
}

/// A nonzero well-formed word has a first present card.
proof fn lemma_first_rm_exists(bits: u64)
    requires
        deck_wf(bits),
        bits != 0,
    ensures
        first_rm_from(bits, 0) < 52,
        bitat(bits, card_of(first_rm_from(bits, 0))),
{
    lemma_first_rm(bits, 0);
    if first_rm_from(bits, 0) == 52 {
        lemma_rm_covers(bits);
        crate::bits::lemma_pcount_none(bits, 52);
        crate::bits::lemma_no_bits_is_zero(bits);
    }
}

/// The compact text of a card set: its card tokens in rank-major order,
/// with nothing between them.
pub open spec fn tokens_spec(bits: u64) -> Seq<char>
    decreases bits,
    via tokens_spec_decreases
{
    if bits == 0 {
        Seq::empty()
    } else {
        let k = first_rm_from(bits, 0);
        if k >= 52 {
            Seq::empty()
        } else {
            card_token(k) + tokens_spec(bits & !(1u64 << (card_of(k) as u64)))
        }
    }
}

#[via_fn]
proof fn tokens_spec_decreases(bits: u64) {
    lemma_clear_decreases(bits);
}

/// The display text of a card set: its card tokens in rank-major order,
/// comma-joined.
pub open spec fn display_text(bits: u64, first: bool) -> Seq<char>
    decreases bits,
    via display_text_decreases
{
    if bits == 0 {
        Seq::empty()
    } else {
        let k = first_rm_from(bits, 0);
        if k >= 52 {
            Seq::empty()
        } else {
            (if first {
                Seq::empty()
            } else {
                ","@
            }) + card_token(k) + display_text(bits & !(1u64 << (card_of(k) as u64)), false)
        }
    }
}

#[via_fn]
proof fn display_text_decreases(bits: u64, first: bool) {
    lemma_clear_decreases(bits);
}

/// Clearing the first present card makes the word smaller.
proof fn lemma_clear_decreases(bits: u64)
    ensures
        bits != 0 && first_rm_from(bits, 0) < 52 ==> (bits & !(1u64 << (card_of(
            first_rm_from(bits, 0),
        ) as u64))) < bits,
{
    if bits != 0 && first_rm_from(bits, 0) < 52 {
        lemma_first_rm(bits, 0);
        let i = card_of(first_rm_from(bits, 0)) as u64;
        assert(i < 64 && (bits >> i) & 1u64 == 1u64 ==> (bits & !(1u64 << i)) < bits)
            by (bit_vector);
    }
}

/// The display text of the whole set.
pub open spec fn display_spec(bits: u64) -> Seq<char> {
    display_text(bits, true)
}

/// The text of rank number `number`.
fn rank_str(number: u32) -> (r: &'static str)
    requires
        number < 13,
    ensures
        r@ == rank_text(number as int),
{
    if number == 0 {
        "2"
    } else if number == 1 {
        "3"
    } else if number == 2 {
        "4"
    } else if number == 3 {
        "5"
    } else if number == 4 {
        "6"
    } else if number == 5 {
        "7"
    } else if number == 6 {
        "8"
    } else if number == 7 {
        "9"
    } else if number == 8 {
        "10"
    } else if number == 9 {
        "J"
    } else if number == 10 {
        "Q"
    } else if number == 11 {
        "K"
    } else {
        "A"
    }
}

/// The symbol of suit `st`.
fn suit_str(st: u32) -> (r: &'static str)
    requires
        st < 4,
    ensures
        r@ == suit_text(st as int),
{
    if st == 0 {
        "\u{2666}"
    } else if st == 1 {
        "\u{2665}"
    } else if st == 2 {
        "\u{2660}"
    } else {
        "\u{2663}"
    }
}

/// The first present card of a nonzero word, in rank-major order.
fn first_card(work: u64) -> (k: u32)
    requires
        deck_wf(work),
        work != 0,
    ensures
        k < 52,
        k == first_rm_from(work, 0),
        bitat(work, card_of(k as int)),
{
    proof {
        lemma_first_rm_exists(work);
    }
    let mut k: u32 = 0;
    while k < 52
        invariant
            k <= 52,
            first_rm_from(work, 0) == first_rm_from(work, k as int),
        decreases 52 - k,
    {
        let i = (k % 4) * 13 + k / 4;
        if (work >> (i as u64)) & 1 == 1 {
            return k;
        }
        k = k + 1;
    }
    proof {
        lemma_first_rm_exists(work);
        assert(false);
    }
    0
}

impl CardSet {
    /// The display text of the set: card tokens in rank-major order,
    /// comma-joined, as the round report prints them.
    pub fn to_text(&self) -> (r: String)
        requires
            self.wf(),
        ensures
            r@ == display_spec(self.spec_bits()),
    {
        let mut out = String::new();
        let mut work = self.as_u64();
        let mut first = true;
        proof {
            assert(Seq::<char>::empty() + display_text(work, true) =~= display_text(work, true));
        }
        while work != 0
            invariant
                deck_wf(work),
                out@ + display_text(work, first) == display_spec(self.spec_bits()),
            decreases work,
        {
            let k = first_card(work);
            let i = (k % 4) * 13 + k / 4;
            let ghost before = out@;
            if !first {
                out.append(",");
            }
            out.append(rank_str(k / 4));
            out.append(suit_str(k % 4));
            proof {
                lemma_wf_token_step(work, k as int);
                let sep: Seq<char> = if first {
                    Seq::empty()
                } else {
                    ","@
                };
                let tail = display_text(work & !(1u64 << (card_of(k as int) as u64)), false);
                assert(before + (sep + card_token(k as int) + tail) =~= (((before + sep)
                    + rank_text(k as int / 4)) + suit_text(k as int % 4)) + tail);
                assert(before + sep =~= before + sep);
                if first {
                    assert(before + sep =~= before);
                }
            }
            work = work & !(1u64 << i);
            first = false;
        }
        out
    }

    /// The compact text of the set: the same card tokens with nothing
    /// between them, the form `from_str` reads back.
    pub fn to_compact_text(&self) -> (r: String)
        requires
            self.wf(),
        ensures
            r@ == tokens_spec(self.spec_bits()),
    {
        let mut out = String::new();
        let mut work = self.as_u64();
        proof {
            assert(Seq::<char>::empty() + tokens_spec(work) =~= tokens_spec(work));
        }
        while work != 0
            invariant
                deck_wf(work),
                out@ + tokens_spec(work) == tokens_spec(self.spec_bits()),
            decreases work,
        {
            let k = first_card(work);
            let i = (k % 4) * 13 + k / 4;
            let ghost before = out@;
            out.append(rank_str(k / 4));
            out.append(suit_str(k % 4));
            proof {
                lemma_wf_token_step(work, k as int);
                let tail = tokens_spec(work & !(1u64 << (card_of(k as int) as u64)));
                assert(before + (card_token(k as int) + tail) =~= ((before + rank_text(
                    k as int / 4,
                )) + suit_text(k as int % 4)) + tail);
            }
            work = work & !(1u64 << i);
        }
        out
    }
}

/// Reading the suit character of a token: position `used` of `t` holds
/// the symbol of suit `st`.
proof fn lemma_suit_step(t: Seq<char>, number: int, used: int, st: int)
    requires
        0 <= st < 4,
        0 <= used,
        used + 1 <= t.len(),
        t[used] == suit_text(st)[0],
    ensures
        parse_suit_step(t, number, used) == Result::<Option<(int, int)>, CardParseError>::Ok(
            Some((st * 13 + number - 2, used + 1)),
        ),
{
    reveal_strlit("\u{2666}");
    reveal_strlit("\u{2665}");
    reveal_strlit("\u{2660}");
    reveal_strlit("\u{2663}");
    if st == 0 {
        assert(upc(t[used]) == '\u{2666}');
    } else if st == 1 {
        assert(upc(t[used]) == '\u{2665}');
    } else if st == 2 {
        assert(upc(t[used]) == '\u{2660}');
    } else {
        assert(upc(t[used]) == '\u{2663}');
    }
}

/// A card token at the front of the input parses to exactly that card,
/// whatever follows it.
proof fn lemma_token_parse(k: int, rest: Seq<char>)
    requires
        0 <= k < 52,
    ensures
        parse_one(card_token(k) + rest) == Result::<Option<(int, int)>, CardParseError>::Ok(
            Some((card_of(k), card_token(k).len() as int)),
        ),
{
    let n = k / 4;
    let st = k % 4;
    let rt = rank_text(n);
    let sx = suit_text(st);
    let t = card_token(k) + rest;
    reveal_strlit("\u{2666}");
    reveal_strlit("\u{2665}");
    reveal_strlit("\u{2660}");
    reveal_strlit("\u{2663}");
    assert(sx.len() == 1) by {
        if st == 0 {
        } else if st == 1 {
        } else if st == 2 {
        } else {
        }
    }
    assert(t =~= rt + (sx + rest));
    if n == 8 {
        reveal_strlit("10");
        assert(t[0] == '1' && t[1] == '0' && t[2] == sx[0]);
        lemma_suit_step(t, 10, 2, st);
    } else {
        if n == 0 {
            reveal_strlit("2");
        } else if n == 1 {
            reveal_strlit("3");
        } else if n == 2 {
            reveal_strlit("4");
        } else if n == 3 {
            reveal_strlit("5");
        } else if n == 4 {
            reveal_strlit("6");
        } else if n == 5 {
            reveal_strlit("7");
        } else if n == 6 {
            reveal_strlit("8");
        } else if n == 7 {
            reveal_strlit("9");
        } else if n == 9 {
            reveal_strlit("J");
        } else if n == 10 {
            reveal_strlit("Q");
        } else if n == 11 {
            reveal_strlit("K");
        } else {
            reveal_strlit("A");
        }
        assert(rt.len() == 1);
        assert(t[0] == rt[0] && t[1] == sx[0]);
        lemma_suit_step(t, n + 2, 1, st);
    }
}

/// Parsing the token text of a set adds exactly its cards to what was
/// already read.
proof fn lemma_tokens_parse(bits: u64, acc: u64)
    requires
        deck_wf(bits),
        acc & bits == 0,
    ensures
        parse_cards(tokens_spec(bits), acc) == Result::<u64, CardParseError>::Ok(acc | bits),
    decreases bits,
{
    if bits == 0 {
        assert(acc | 0u64 == acc && acc & 0u64 == 0) by (bit_vector);
    } else {
        lemma_first_rm_exists(bits);
        lemma_first_rm(bits, 0);
        let k = first_rm_from(bits, 0);
        let i = card_of(k) as u64;
        lemma_wf_token_step(bits, k);
        let cleared = bits & !(1u64 << i);
        let tail = tokens_spec(cleared);
        lemma_token_parse(k, tail);
        assert(i < 64 && (bits >> i) & 1u64 == 1u64 && acc & bits == 0 ==> acc & (1u64 << i) == 0
            && (acc | (1u64 << i)) & (bits & !(1u64 << i)) == 0 && ((acc | (1u64 << i)) | (bits
            & !(1u64 << i))) == (acc | bits)) by (bit_vector);
        assert((card_token(k) + tail).skip(card_token(k).len() as int) =~= tail);
        lemma_tokens_parse(cleared, acc | (1u64 << i));
    }
}

/// Round trip of the card notation: formatting a card set as its compact
/// token text and parsing that text back yields exactly the same set,
/// with no card lost, added or repeated. The comma-joined display text
/// behaves the same way whenever it holds no comma, that is for sets of
/// at most one card; `lemma_display_single_round_trip` states that case.
pub proof fn lemma_format_parse_round_trip(bits: u64)
    requires
        deck_wf(bits),
    ensures
        parse_cards(tokens_spec(bits), 0) == Result::<u64, CardParseError>::Ok(bits),
{
    assert(0u64 & bits == 0 && 0u64 | bits == bits) by (bit_vector);
    lemma_tokens_parse(bits, 0);
}

/// For a set of at most one card the display text is the compact text,
/// and parsing it gives the set back.
pub proof fn lemma_display_single_round_trip(bits: u64)
    requires
        deck_wf(bits),
        crate::bits::pcount(bits, 52) <= 1,
    ensures
        display_spec(bits) == tokens_spec(bits),
        parse_cards(display_spec(bits), 0) == Result::<u64, CardParseError>::Ok(bits),
{
    lemma_format_parse_round_trip(bits);
    if bits == 0 {
    } else {
        lemma_first_rm_exists(bits);
        lemma_first_rm(bits, 0);
        let k = first_rm_from(bits, 0);
        let i = card_of(k) as u64;
        lemma_wf_token_step(bits, k);
        let cleared = bits & !(1u64 << i);
        crate::bits::lemma_pcount_clear(bits, card_of(k), 52);
        crate::bits::lemma_no_bits_is_zero(cleared);
        assert(Seq::<char>::empty() + card_token(k) + display_text(0, false) =~= card_token(k)
            + tokens_spec(0));
    }
}

/// Clearing a card keeps the word well formed and smaller.
proof fn lemma_wf_token_step(work: u64, k: int)
    requires
        deck_wf(work),
        0 <= k < 52,
        bitat(work, card_of(k)),
    ensures
        deck_wf(work & !(1u64 << (card_of(k) as u64))),
        (work & !(1u64 << (card_of(k) as u64))) < work,
{
    let i = card_of(k) as u64;
    assert(work & 0xF_FFFF_FFFF_FFFFu64 == work ==> (work & !(1u64 << i)) & 0xF_FFFF_FFFF_FFFFu64
        == (work & !(1u64 << i))) by (bit_vector);
    assert(i < 64 && (work >> i) & 1u64 == 1u64 ==> (work & !(1u64 << i)) < work) by (bit_vector);
}

} // verus!
