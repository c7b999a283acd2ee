use vstd::prelude::*;
use crate::crypto::{chacha8_shuffle, shuffle_with_seed};

verus! {

/// The four suits of a French deck.
#[derive(Debug, Clone, Copy, PartialEq, Eq, Structural)]
pub enum Suit {
    Spades,
    Clubs,
    Diamonds,
    Hearts,
}

/// A playing card: a suit and a rank from 1 (ace) to 13 (king).
#[derive(Debug, Clone, Copy, PartialEq, Eq, Structural)]
pub struct Card {
    pub suit: Suit,
    pub value: u8,
}

impl Card {
    pub fn new(suit: Suit, value: u8) -> (card: Self)
        ensures
            card.suit == suit,
            card.value == value,
    {
        Self { suit, value }
    }
}

/// Points a card is worth before any ace is softened: an ace counts 11,
/// court cards count 10, every other card its face value.
pub open spec fn card_points(c: Card) -> int {
    if c.value == 1 {
        11
    } else if c.value > 10 {
        10
    } else {
        c.value as int
    }
}

/// Sum of the points of a hand, every ace counted as 11.
pub open spec fn raw_points(hand: Seq<Card>) -> int
    decreases hand.len(),
{
    if hand.len() == 0 {
        0
    } else {
        raw_points(hand.drop_last()) + card_points(hand.last())
    }
}

/// Number of aces in a hand.
pub open spec fn ace_count(hand: Seq<Card>) -> int
    decreases hand.len(),
{
    if hand.len() == 0 {
        0
    } else {
        ace_count(hand.drop_last()) + if hand.last().value == 1 { 1int } else { 0int }
    }
}

/// While the total is over 21 and an ace still counts 11, count that ace as 1.
pub open spec fn soften(total: int, aces: int) -> int
    decreases aces,
{
    if total > 21 && aces > 0 {
        soften(total - 10, aces - 1)
    } else {
        total
    }
}

/// The blackjack value of a hand.
pub open spec fn hand_score(hand: Seq<Card>) -> int {
    soften(raw_points(hand), ace_count(hand))
}

/// The score can be computed in a byte: the unsoftened total fits in a `u8`.
pub open spec fn score_fits(hand: Seq<Card>) -> bool {
    raw_points(hand) <= 255
}

pub proof fn lemma_counts_nonneg(hand: Seq<Card>)
    ensures
        0 <= raw_points(hand),
        0 <= ace_count(hand) <= hand.len(),
        11 * ace_count(hand) <= raw_points(hand),
    decreases hand.len(),
{
    if hand.len() > 0 {
        lemma_counts_nonneg(hand.drop_last());
    }
}

pub proof fn lemma_raw_points_prefix(hand: Seq<Card>, i: int)
    requires
        0 <= i <= hand.len(),
    ensures
        raw_points(hand.take(i)) <= raw_points(hand),
    decreases hand.len() - i,
{
    if i < hand.len() {
        lemma_raw_points_prefix(hand, i + 1);
        assert(hand.take(i + 1).drop_last() =~= hand.take(i));
    } else {
        assert(hand.take(i) =~= hand);
    }
}

/// The blackjack score of a hand: aces count 11, or 1 as long as the hand
/// would otherwise be over 21; court cards count 10.
pub fn calculate_score(hand: &Vec<Card>) -> (score: u8)
    requires
        score_fits(hand@),
    ensures
        score == hand_score(hand@),
{
    let mut score: u8 = 0;
    let mut ace_counter: u32 = 0;
    let mut i: usize = 0;
    while i < hand.len()
        invariant
            i <= hand.len(),
            score_fits(hand@),
            score == raw_points(hand@.take(i as int)),
            ace_counter == ace_count(hand@.take(i as int)),
            ace_counter <= i,
            11 * ace_counter <= score,
        decreases hand.len() - i,
    {
        let card = hand[i];
        proof {
            assert(hand@.take(i + 1).drop_last() =~= hand@.take(i as int));
            lemma_raw_points_prefix(hand@, i + 1);
            lemma_counts_nonneg(hand@.take(i as int));
        }
        if card.value == 1 {
            score = score + 11;
            ace_counter = ace_counter + 1;
        } else if card.value > 10 {
            score = score + 10;
        } else {
            score = score + card.value;
        }
        i = i + 1;
    }
    proof {
        assert(hand@.take(i as int) =~= hand@);
    }
    let ghost total: int = score as int;
    let ghost aces: int = ace_counter as int;
    while score > 21 && ace_counter > 0
        invariant
            soften(score as int, ace_counter as int) == soften(total, aces),
            10 * ace_counter <= score,
        decreases ace_counter,
    {
        score = score - 10;
        ace_counter = ace_counter - 1;
    }
    score
}

proof fn lemma_soften(total: int, aces: int)
    requires
        aces >= 0,
    ensures
        soften(total, aces) <= total,
        (total - soften(total, aces)) % 10 == 0,
        total - soften(total, aces) <= 10 * aces,
        soften(total, aces) > 21 ==> total - soften(total, aces) == 10 * aces,
        soften(total, aces) < total ==> soften(total, aces) + 10 > 21,
    decreases aces,
{
    if total > 21 && aces > 0 {
        lemma_soften(total - 10, aces - 1);
    }
}

/// Aces count 1 only as far as needed: the score is the total with some of
/// the aces counted 1 instead of 11 (ten points off for each); an ace is
/// counted 1 only if counting it 11 would take the hand over 21; and a hand
/// over 21 counts every ace as 1.
pub proof fn law_aces_count_low_only_when_needed(hand: Seq<Card>)
    ensures
        hand_score(hand) <= raw_points(hand),
        (raw_points(hand) - hand_score(hand)) % 10 == 0,
        raw_points(hand) - hand_score(hand) <= 10 * ace_count(hand),
        hand_score(hand) > 21 ==> raw_points(hand) - hand_score(hand) == 10 * ace_count(hand),
        hand_score(hand) < raw_points(hand) ==> hand_score(hand) + 10 > 21,
{
    lemma_counts_nonneg(hand);
    lemma_soften(raw_points(hand), ace_count(hand));
}

proof fn lemma_counts_without(hand: Seq<Card>, j: int)
    requires
        0 <= j < hand.len(),
    ensures
        raw_points(hand) == raw_points(hand.remove(j)) + card_points(hand[j]),
        ace_count(hand) == ace_count(hand.remove(j)) + if hand[j].value == 1 { 1int } else { 0int },
    decreases hand.len(),
{
    if j == hand.len() - 1 {
        assert(hand.remove(j) =~= hand.drop_last());
    } else {
        lemma_counts_without(hand.drop_last(), j);
        assert(hand.drop_last().remove(j) =~= hand.remove(j).drop_last());
        assert(hand.remove(j).last() == hand.last());
    }
}

/// The order of the cards in a hand does not change its score.
pub proof fn law_score_forgets_card_order(h1: Seq<Card>, h2: Seq<Card>)
    requires
        h1.to_multiset() == h2.to_multiset(),
    ensures
        raw_points(h1) == raw_points(h2),
        ace_count(h1) == ace_count(h2),
        hand_score(h1) == hand_score(h2),
    decreases h1.len(),
{
    broadcast use vstd::seq_lib::group_to_multiset_ensures;

    if h1.len() == 0 {
        assert(h2.to_multiset().len() == 0);
        assert(h2.len() == 0);
        assert(h1 =~= h2);
    } else {
        let x = h1.last();
        let rest = h1.drop_last();
        assert(rest.push(x) =~= h1);
        assert(h2.to_multiset().count(x) > 0);
        assert(h2.contains(x));
        let j = choose|j: int| 0 <= j < h2.len() && h2[j] == x;
        assert(h2.remove(j).to_multiset() =~= h2.to_multiset().remove(x));
        assert(rest.to_multiset() =~= h2.remove(j).to_multiset());
        law_score_forgets_card_order(rest, h2.remove(j));
        lemma_counts_without(h2, j);
    }
}

/// The suit a card code stands for: codes run Spades, Clubs, Diamonds, Hearts
/// within each rank.
pub open spec fn suit_of_code(code: u8) -> Suit {
    if code % 4 == 0 {
        Suit::Spades
    } else if code % 4 == 1 {
        Suit::Clubs
    } else if code % 4 == 2 {
        Suit::Diamonds
    } else {
        Suit::Hearts
    }
}

/// The card with code `code` (0 to 51) in the order a fresh deck is laid out:
/// rank by rank from the ace, and within a rank Spades, Clubs, Diamonds, Hearts.
pub open spec fn card_of_code(code: u8) -> Card {
    Card { suit: suit_of_code(code), value: (code / 4 + 1) as u8 }
}

/// The codes 0 to 51 in increasing order.
pub open spec fn fresh_codes() -> Seq<u8> {
    Seq::new(52, |i: int| i as u8)
}

/// A fresh, unshuffled deck.
pub open spec fn fresh_deck() -> Seq<Card> {
    fresh_codes().map_values(|code: u8| card_of_code(code))
}

/// The deck dealt from a 32-byte seed: the fresh deck, shuffled by ChaCha8
/// seeded with `seed`.
pub open spec fn deck_from_seed(seed: Seq<u8>) -> Seq<Card> {
    chacha8_shuffle(seed, fresh_codes()).map_values(|code: u8| card_of_code(code))
}

/// Mapping two sequences that hold the same elements gives two sequences
/// that hold the same elements.
pub proof fn lemma_map_values_permutation<A, B>(a: Seq<A>, b: Seq<A>, f: spec_fn(A) -> B)
    requires
        a.to_multiset() =~= b.to_multiset(),
    ensures
        a.map_values(f).to_multiset() =~= b.map_values(f).to_multiset(),
    decreases a.len(),
{
    broadcast use vstd::seq_lib::group_to_multiset_ensures;

    if a.len() == 0 {
        assert(a.to_multiset().len() == 0);
        assert(b.to_multiset().len() == b.len());
        assert(b.len() == 0);
        assert(a.map_values(f) =~= Seq::<B>::empty());
        assert(b.map_values(f) =~= Seq::<B>::empty());
    } else {
        let x = a.last();
        let rest = a.drop_last();
        assert(rest.push(x) =~= a);
        assert(a.to_multiset() =~= rest.to_multiset().insert(x));
        assert(b.to_multiset().count(x) > 0);
        assert(b.contains(x));
        let j = choose|j: int| 0 <= j < b.len() && b[j] == x;
        assert(b.remove(j).to_multiset() =~= b.to_multiset().remove(x));
        assert(rest.to_multiset() =~= b.remove(j).to_multiset());
        lemma_map_values_permutation(rest, b.remove(j), f);
        assert(rest.map_values(f).push(f(x)) =~= a.map_values(f));
        assert(b.map_values(f).remove(j) =~= b.remove(j).map_values(f));
        assert(b.map_values(f)[j] == f(x));
        assert(b.map_values(f).remove(j).to_multiset() =~= b.map_values(f).to_multiset().remove(f(x)));
        assert(b.map_values(f).to_multiset().count(f(x)) > 0);
        assert(a.map_values(f).to_multiset() =~= rest.map_values(f).to_multiset().insert(f(x)));
    }
}

/// Builds the 52 cards of a fresh deck and shuffles them with ChaCha8 seeded
/// with `seed`: every node that holds the same seed deals the same deck.
pub fn generate_deck(seed: [u8; 32]) -> (deck: Vec<Card>)
    ensures
        deck@ == deck_from_seed(seed@),
        deck@.to_multiset() == fresh_deck().to_multiset(),
{
    let mut codes: Vec<u8> = Vec::with_capacity(52);
    let mut c: u8 = 0;
    while c < 52
        invariant
            c <= 52,
            codes@ == fresh_codes().take(c as int),
        decreases 52 - c,
    {
        codes.push(c);
        c = c + 1;
        assert(codes@ =~= fresh_codes().take(c as int));
    }
    assert(codes@ =~= fresh_codes());
    let shuffled = shuffle_with_seed(codes, seed);
    let mut deck: Vec<Card> = Vec::with_capacity(52);
    let mut i: usize = 0;
    while i < shuffled.len()
        invariant
            i <= shuffled.len(),
            deck@ =~= shuffled@.take(i as int).map_values(|code: u8| card_of_code(code)),
        decreases shuffled.len() - i,
    {
        let code = shuffled[i];
        let suit = if code % 4 == 0 {
            Suit::Spades
        } else if code % 4 == 1 {
            Suit::Clubs
        } else if code % 4 == 2 {
            Suit::Diamonds
        } else {
            Suit::Hearts
        };
        deck.push(Card::new(suit, code / 4 + 1));
        i = i + 1;
        assert(shuffled@.take(i as int).drop_last() =~= shuffled@.take(i - 1));
    }
    assert(shuffled@.take(i as int) =~= shuffled@);
    proof {
        lemma_map_values_permutation(shuffled@, fresh_codes(), |code: u8| card_of_code(code));
    }
    deck
}

/// Whether the score of `hand` can be computed in a byte.
pub fn hand_fits(hand: &Vec<Card>) -> (fits: bool)
    ensures
        fits == score_fits(hand@),
{
    let mut total: u32 = 0;
    let mut i: usize = 0;
    while i < hand.len()
        invariant
            i <= hand.len(),
            total == raw_points(hand@.take(i as int)),
            total <= 255,
        decreases hand.len() - i,
    {
        let card = hand[i];
        proof {
            assert(hand@.take(i + 1).drop_last() =~= hand@.take(i as int));
        }
        if card.value == 1 {
            total = total + 11;
        } else if card.value > 10 {
            total = total + 10;
        } else {
            total = total + card.value as u32;
        }
        i = i + 1;
        if total > 255 {
            proof {
                lemma_raw_points_prefix(hand@, i as int);
            }
            return false;
        }
    }
    assert(hand@.take(i as int) =~= hand@);
    true
}

/// A copy of `hand` with `card` added.
pub fn with_card(hand: &Vec<Card>, card: Card) -> (more: Vec<Card>)
    ensures
        more@ == hand@.push(card),
{
    let mut more: Vec<Card> = Vec::new();
    let mut i: usize = 0;
    while i < hand.len()
        invariant
            i <= hand.len(),
            more@ =~= hand@.take(i as int),
        decreases hand.len() - i,
    {
        more.push(hand[i]);
        i = i + 1;
    }
    more.push(card);
    assert(more@ =~= hand@.push(card));
    more
}

/// A card counts its face value from 2 to 10; jacks, queens and kings count
/// 10; an ace counts 11 before any softening.
pub proof fn law_card_values(c: Card)
    ensures
        2 <= c.value <= 10 ==> card_points(c) == c.value,
        c.value > 10 ==> card_points(c) == 10,
        c.value == 1 ==> card_points(c) == 11,
{
}

proof fn lemma_no_ace_sum(hand: Seq<Card>)
    requires
        forall|i: int| 0 <= i < hand.len() ==> 2 <= #[trigger] hand[i].value <= 10,
    ensures
        raw_points(hand) == hand.fold_left(0int, |acc: int, c: Card| acc + c.value),
        ace_count(hand) == 0,
    decreases hand.len(),
{
    if hand.len() > 0 {
        lemma_no_ace_sum(hand.drop_last());
    }
}

/// A hand of cards from 2 to 10 scores the sum of their face values: for
/// example 7 and 10 score 17.
pub proof fn law_plain_hand_scores_its_sum(hand: Seq<Card>)
    requires
        forall|i: int| 0 <= i < hand.len() ==> 2 <= #[trigger] hand[i].value <= 10,
    ensures
        hand_score(hand) == hand.fold_left(0int, |acc: int, c: Card| acc + c.value),
{
    lemma_no_ace_sum(hand);
}

/// The deck dealt from a seed is ChaCha8's shuffle of all 52 cards of a fresh
/// deck, the fresh deck laid out rank by rank from the ace, each rank in the
/// order Spades, Clubs, Diamonds, Hearts.
pub proof fn law_deck_is_the_whole_shuffle(seed: Seq<u8>)
    ensures
        deck_from_seed(seed) == chacha8_shuffle(seed, Seq::new(52, |i: int| i as u8)).map_values(
            |code: u8|
                Card {
                    suit: if code % 4 == 0 {
                        Suit::Spades
                    } else if code % 4 == 1 {
                        Suit::Clubs
                    } else if code % 4 == 2 {
                        Suit::Diamonds
                    } else {
                        Suit::Hearts
                    },
                    value: (code / 4 + 1) as u8,
                },
        ),
{
    assert(fresh_codes() =~= Seq::new(52, |i: int| i as u8));
    let shuffled = chacha8_shuffle(seed, fresh_codes());
    assert(deck_from_seed(seed) =~= shuffled.map_values(
        |code: u8|
            Card {
                suit: if code % 4 == 0 {
                    Suit::Spades
                } else if code % 4 == 1 {
                    Suit::Clubs
                } else if code % 4 == 2 {
                    Suit::Diamonds
                } else {
                    Suit::Hearts
                },
                value: (code / 4 + 1) as u8,
            },
    ));
}

} // verus!
