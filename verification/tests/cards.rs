use bjle::cards::{calculate_score, generate_deck, hand_fits, with_card, Card, Suit};

fn hand(values: &[u8]) -> Vec<Card> {
    values.iter().map(|v| Card::new(Suit::Hearts, *v)).collect()
}

#[test]
fn card_new_keeps_suit_and_value() {
    let c = Card::new(Suit::Clubs, 12);
    assert_eq!(c.suit, Suit::Clubs);
    assert_eq!(c.value, 12);
}

#[test]
fn score_of_empty_hand_is_zero() {
    assert_eq!(calculate_score(&Vec::new()), 0);
}

#[test]
fn score_counts_court_cards_as_ten() {
    assert_eq!(calculate_score(&hand(&[11, 12, 13])), 30);
    assert_eq!(calculate_score(&hand(&[10, 13])), 20);
    assert_eq!(calculate_score(&hand(&[2, 3, 4])), 9);
}

#[test]
fn score_counts_ace_as_eleven_when_it_fits() {
    assert_eq!(calculate_score(&hand(&[1, 13])), 21);
    assert_eq!(calculate_score(&hand(&[1, 5])), 16);
}

#[test]
fn score_counts_ace_as_one_when_eleven_busts() {
    assert_eq!(calculate_score(&hand(&[1, 9, 5])), 15);
    assert_eq!(calculate_score(&hand(&[1, 1])), 12);
    assert_eq!(calculate_score(&hand(&[1, 1, 1, 1])), 14);
    assert_eq!(calculate_score(&hand(&[1, 1, 13, 13])), 22);
}

#[test]
fn score_of_bust_hand_without_aces() {
    assert_eq!(calculate_score(&hand(&[10, 9, 5])), 24);
}

#[test]
fn hand_fits_below_and_above_a_byte() {
    assert!(hand_fits(&hand(&[1; 23])));
    assert!(!hand_fits(&hand(&[1; 24])));
    assert!(hand_fits(&hand(&[10; 25])));
    assert!(!hand_fits(&hand(&[10; 26])));
}

#[test]
fn with_card_appends() {
    let h = hand(&[2, 3]);
    let more = with_card(&h, Card::new(Suit::Spades, 1));
    assert_eq!(more.len(), 3);
    assert_eq!(more[2], Card::new(Suit::Spades, 1));
    assert_eq!(h.len(), 2);
}

#[test]
fn deck_holds_every_card_once() {
    let deck = generate_deck([7u8; 32]);
    assert_eq!(deck.len(), 52);
    for value in 1..=13u8 {
        for suit in [Suit::Spades, Suit::Clubs, Suit::Diamonds, Suit::Hearts] {
            let n = deck.iter().filter(|c| c.value == value && c.suit == suit).count();
            assert_eq!(n, 1);
        }
    }
}

#[test]
fn deck_depends_on_seed_alone() {
    assert_eq!(generate_deck([3u8; 32]), generate_deck([3u8; 32]));
    assert_ne!(generate_deck([3u8; 32]), generate_deck([4u8; 32]));
}

#[test]
fn deck_is_shuffled() {
    let mut fresh = Vec::new();
    for v in 1..14u8 {
        for suit in [Suit::Spades, Suit::Clubs, Suit::Diamonds, Suit::Hearts] {
            fresh.push(Card::new(suit, v));
        }
    }
    assert_ne!(generate_deck([0u8; 32]), fresh);
}

#[test]
fn card_order_does_not_change_the_score() {
    assert_eq!(calculate_score(&hand(&[1, 9, 5])), calculate_score(&hand(&[5, 1, 9])));
    assert_eq!(calculate_score(&hand(&[13, 1, 1])), calculate_score(&hand(&[1, 1, 13])));
}
