use bjle::cards::{Card, Suit};
use bjle::player::Player;

#[test]
fn new_player_commits_to_its_seed() {
    let (player, seed) = Player::new(4);
    assert_eq!(player.id, 4);
    assert!(player.hand.is_empty());
    assert!(player.split_hand.is_none());
    assert_eq!(player.fishes, 1000);
    assert_eq!(player.bet, 0);
    assert!(!player.ready);
    assert!(!player.stood);
    assert!(Player::verify_hash(seed, player.hash));
}

#[test]
fn new_players_draw_different_seeds() {
    let (_, a) = Player::new(1);
    let (_, b) = Player::new(1);
    assert_ne!(a, b);
}

#[test]
fn new_from_hash_keeps_the_commitment() {
    let p = Player::new_from_hash(9, [5u8; 16]);
    assert_eq!(p.id, 9);
    assert_eq!(p.hash, [5u8; 16]);
    assert_eq!(p.fishes, 1000);
    assert!(p.hand.is_empty());
}

#[test]
fn verify_hash_uses_sha256_prefix() {
    let expected = [55, 71, 8, 255, 247, 113, 157, 213, 151, 158, 200, 117, 213, 108, 210, 40];
    assert!(Player::verify_hash([0u8; 16], expected));
    let mut seed = [0u8; 16];
    for i in 0..16 {
        seed[i] = i as u8;
    }
    let expected2 = [190, 69, 203, 38, 5, 191, 54, 190, 189, 230, 132, 132, 26, 40, 240, 253];
    assert!(Player::verify_hash(seed, expected2));
    assert!(!Player::verify_hash(seed, expected));
    assert!(!Player::verify_hash([0u8; 16], [0u8; 16]));
}

#[test]
fn add_card_to_main_and_split_hand() {
    let mut p = Player::new_from_hash(1, [0u8; 16]);
    p.add_card(Card::new(Suit::Hearts, 5), false);
    assert_eq!(p.hand, vec![Card::new(Suit::Hearts, 5)]);
    p.split_hand = Some(Vec::new());
    p.add_card(Card::new(Suit::Spades, 1), true);
    assert_eq!(p.split_hand, Some(vec![Card::new(Suit::Spades, 1)]));
    assert_eq!(p.hand.len(), 1);
}

#[test]
fn view_shows_score_and_bust() {
    let mut p = Player::new_from_hash(2, [0u8; 16]);
    p.add_card(Card::new(Suit::Hearts, 13), false);
    p.add_card(Card::new(Suit::Hearts, 12), false);
    let v = p.view();
    assert_eq!(v.id, 2);
    assert_eq!(v.score, 20);
    assert!(!v.is_bust);
    assert_eq!(v.hand, p.hand);
    assert_eq!(v.fishes, 1000);
    p.add_card(Card::new(Suit::Clubs, 5), false);
    let v = p.view();
    assert_eq!(v.score, 25);
    assert!(v.is_bust);
}
