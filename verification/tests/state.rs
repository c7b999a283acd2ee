use bjle::cards::{calculate_score, generate_deck, Card, Suit};
use bjle::protocol::{Action, GameEvent, GamePhase};
use bjle::state::State;
use bjle::table::{
    ERR_PLAYER_PRESENT, ERR_SEED_MISMATCH, ERR_SEED_REVEALED, ERR_TOO_FEW_PLAYERS,
    ERR_TURN_OVER, ERR_UNKNOWN_PLAYER, ERR_WRONG_PHASE,
};

fn join(id: u8, hash: [u8; 16]) -> GameEvent {
    GameEvent::Join { player_id: id, room_id: 1, hash }
}

/// Two players joined in the given order, game started, both seeds revealed.
fn dealt_table(order: &[(u8, [u8; 16], [u8; 16])], local: u8) -> State {
    let mut st = State::new(local);
    for (id, hash, _) in order {
        assert_eq!(st.apply(join(*id, *hash)), Ok(None));
    }
    assert_eq!(st.apply(GameEvent::StartGame), Ok(None));
    for (id, _, seed) in order.iter().rev() {
        assert_eq!(st.apply(GameEvent::RevealSeed { player_id: *id, seed: *seed }), Ok(None));
    }
    st
}

/// Players 1 and 2 with the seeds [1; 16] and [2; 16] and their commitments
/// (the first 16 bytes of the seeds' SHA-256).
fn two_players() -> Vec<(u8, [u8; 16], [u8; 16])> {
    let h1 = [204, 140, 212, 28, 239, 144, 124, 77, 33, 96, 105, 18, 44, 75, 137, 147];
    let h2 = [41, 42, 253, 227, 182, 78, 102, 54, 214, 143, 17, 32, 217, 36, 47, 31];
    vec![(1, h1, [1u8; 16]), (2, h2, [2u8; 16])]
}

#[test]
fn new_state_is_empty_lobby() {
    let st = State::new(3);
    assert_eq!(st.phase, GamePhase::Lobby);
    assert!(st.players.is_empty());
    assert!(st.deck.is_empty());
    assert!(st.dealer_hand.is_empty());
    assert!(st.revealed_seeds.is_empty());
    assert_eq!(st.local_player_id, 3);
}

#[test]
fn join_twice_is_refused() {
    let mut st = State::new(1);
    assert_eq!(st.apply(join(4, [1u8; 16])), Ok(None));
    assert_eq!(st.apply(join(4, [2u8; 16])), Err(ERR_PLAYER_PRESENT));
    assert_eq!(st.players.len(), 1);
    assert_eq!(st.players[0].hash, [1u8; 16]);
}

#[test]
fn leave_removes_the_player() {
    let mut st = State::new(1);
    st.apply(join(4, [1u8; 16])).unwrap();
    st.apply(join(5, [1u8; 16])).unwrap();
    assert_eq!(st.apply(GameEvent::Leave { player_id: 4 }), Ok(None));
    assert_eq!(st.players.len(), 1);
    assert_eq!(st.players[0].id, 5);
    assert_eq!(st.apply(GameEvent::Leave { player_id: 9 }), Ok(None));
    assert_eq!(st.players.len(), 1);
}

#[test]
fn only_the_smallest_id_answers_sync() {
    let mut a = State::new(2);
    let mut b = State::new(7);
    for st in [&mut a, &mut b] {
        st.apply(join(7, [7u8; 16])).unwrap();
        st.apply(join(2, [2u8; 16])).unwrap();
    }
    let answer = a.apply(GameEvent::RequestSync { player_id: 9 });
    assert_eq!(
        answer,
        Ok(Some(GameEvent::SyncResponse { players: vec![(7, [7u8; 16]), (2, [2u8; 16])] }))
    );
    assert_eq!(b.apply(GameEvent::RequestSync { player_id: 9 }), Ok(None));
    let mut empty = State::new(1);
    assert_eq!(empty.apply(GameEvent::RequestSync { player_id: 9 }), Ok(None));
}

#[test]
fn sync_response_seats_missing_players_once() {
    let mut st = State::new(9);
    st.apply(join(9, [9u8; 16])).unwrap();
    let roster = vec![(2, [2u8; 16]), (9, [0u8; 16]), (3, [3u8; 16]), (2, [4u8; 16])];
    assert_eq!(st.apply(GameEvent::SyncResponse { players: roster }), Ok(None));
    let ids: Vec<u8> = st.players.iter().map(|p| p.id).collect();
    assert_eq!(ids, vec![9, 2, 3]);
    assert_eq!(st.players[0].hash, [9u8; 16]);
    assert_eq!(st.players[1].hash, [2u8; 16]);
}

#[test]
fn start_needs_two_players() {
    let mut st = State::new(1);
    st.apply(join(1, [1u8; 16])).unwrap();
    assert_eq!(st.apply(GameEvent::StartGame), Err(ERR_TOO_FEW_PLAYERS));
    assert_eq!(st.phase, GamePhase::Lobby);
    st.apply(join(2, [1u8; 16])).unwrap();
    assert_eq!(st.apply(GameEvent::StartGame), Ok(None));
    assert_eq!(st.phase, GamePhase::Revealing);
}

#[test]
fn wrong_phase_events_are_refused() {
    let mut st = State::new(1);
    assert_eq!(st.apply(GameEvent::TurnReady { player_id: 1 }), Err(ERR_WRONG_PHASE));
    assert_eq!(
        st.apply(GameEvent::RevealSeed { player_id: 1, seed: [0u8; 16] }),
        Err(ERR_WRONG_PHASE)
    );
    st.apply(join(1, [1u8; 16])).unwrap();
    st.apply(join(2, [1u8; 16])).unwrap();
    st.apply(GameEvent::StartGame).unwrap();
    assert_eq!(st.apply(join(3, [1u8; 16])), Err(ERR_WRONG_PHASE));
    assert_eq!(st.apply(GameEvent::Leave { player_id: 1 }), Err(ERR_WRONG_PHASE));
    assert_eq!(st.players.len(), 2);
}

#[test]
fn reveal_checks_the_commitment() {
    let players = two_players();
    let mut st = State::new(1);
    for (id, hash, _) in &players {
        st.apply(join(*id, *hash)).unwrap();
    }
    st.apply(GameEvent::StartGame).unwrap();
    let (s1, s2) = (players[0].2, players[1].2);
    assert_eq!(st.apply(GameEvent::RevealSeed { player_id: 3, seed: s1 }), Err(ERR_UNKNOWN_PLAYER));
    assert_eq!(st.apply(GameEvent::RevealSeed { player_id: 2, seed: s1 }), Err(ERR_SEED_MISMATCH));
    assert_eq!(st.apply(GameEvent::RevealSeed { player_id: 2, seed: s2 }), Ok(None));
    assert_eq!(st.phase, GamePhase::Revealing);
    assert_eq!(st.apply(GameEvent::RevealSeed { player_id: 2, seed: s2 }), Err(ERR_SEED_REVEALED));
    assert_eq!(st.apply(GameEvent::RevealSeed { player_id: 1, seed: s1 }), Ok(None));
    assert_eq!(st.phase, GamePhase::Betting);
    assert_eq!(st.deck.len(), 52);
}

#[test]
fn deck_seed_is_the_xor_of_the_seeds() {
    let players = two_players();
    let st = dealt_table(&players, 1);
    let mut seed = [0u8; 32];
    for i in 0..16 {
        seed[i] = players[0].2[i] ^ players[1].2[i];
        seed[i + 16] = seed[i];
    }
    assert_eq!(st.deck, generate_deck(seed));
}

#[test]
fn every_node_deals_the_same_deck() {
    let players = two_players();
    let reversed: Vec<_> = players.iter().rev().cloned().collect();
    let a = dealt_table(&players, 1);
    let b = dealt_table(&reversed, 2);
    assert_eq!(a.deck, b.deck);
    let ids_a: Vec<u8> = a.players.iter().map(|p| p.id).collect();
    let ids_b: Vec<u8> = b.players.iter().map(|p| p.id).collect();
    assert_eq!(ids_a, vec![1, 2]);
    assert_eq!(ids_a, ids_b);
    assert_eq!(a.revealed_seeds, b.revealed_seeds);
}

#[test]
fn all_ready_deals_two_cards_each_and_one_to_dealer() {
    let players = two_players();
    let mut st = dealt_table(&players, 1);
    let deck = st.deck.clone();
    assert_eq!(st.apply(GameEvent::TurnReady { player_id: 9 }), Err(ERR_UNKNOWN_PLAYER));
    assert_eq!(st.apply(GameEvent::TurnReady { player_id: 2 }), Ok(None));
    assert_eq!(st.phase, GamePhase::Betting);
    assert!(st.players[1].ready);
    assert!(st.players[0].hand.is_empty());
    assert_eq!(st.apply(GameEvent::TurnReady { player_id: 1 }), Ok(None));
    assert_eq!(st.phase, GamePhase::Playing);
    assert_eq!(st.players[0].hand, vec![deck[0], deck[2]]);
    assert_eq!(st.players[1].hand, vec![deck[1], deck[3]]);
    assert_eq!(st.dealer_hand, vec![deck[4]]);
    assert_eq!(st.deck, deck[5..].to_vec());
}

#[test]
fn play_until_everyone_stands_then_dealer_draws() {
    let players = two_players();
    let mut st = dealt_table(&players, 1);
    st.apply(GameEvent::TurnReady { player_id: 1 }).unwrap();
    st.apply(GameEvent::TurnReady { player_id: 2 }).unwrap();
    assert_eq!(
        st.apply(GameEvent::PlayerAction { player_id: 5, action: Action::Stand }),
        Err(ERR_UNKNOWN_PLAYER)
    );
    let top = st.deck[0];
    let before = st.players[0].hand.len();
    st.apply(GameEvent::PlayerAction { player_id: 1, action: Action::Hit { split: false } }).unwrap();
    assert_eq!(st.players[0].hand.len(), before + 1);
    assert_eq!(st.players[0].hand[before], top);
    if calculate_score(&st.players[0].hand) > 21 {
        assert!(st.players[0].stood);
    } else {
        st.apply(GameEvent::PlayerAction { player_id: 1, action: Action::Double }).unwrap();
        st.apply(GameEvent::PlayerAction { player_id: 1, action: Action::Stand }).unwrap();
    }
    assert_eq!(st.phase, GamePhase::Playing);
    assert!(st.players[0].stood);
    let dealer_before = st.dealer_hand.len();
    st.apply(GameEvent::PlayerAction { player_id: 2, action: Action::Stand }).unwrap();
    assert_eq!(st.phase, GamePhase::Done);
    assert!(st.dealer_hand.len() >= dealer_before + 1);
    assert!(calculate_score(&st.dealer_hand) >= 17);
    let mut without_last = st.dealer_hand.clone();
    without_last.pop();
    if without_last.len() > dealer_before {
        assert!(calculate_score(&without_last) < 17);
    }
}

#[test]
fn leave_while_playing() {
    let players = two_players();
    let mut st = dealt_table(&players, 1);
    st.apply(GameEvent::TurnReady { player_id: 1 }).unwrap();
    st.apply(GameEvent::TurnReady { player_id: 2 }).unwrap();
    assert_eq!(st.apply(GameEvent::Leave { player_id: 2 }), Ok(None));
    assert_eq!(st.players.len(), 1);
    assert_eq!(st.players[0].id, 1);
}

#[test]
fn can_apply_refuses_an_empty_deck() {
    let mut st = State::new(1);
    st.apply(join(1, [1u8; 16])).unwrap();
    st.phase = GamePhase::Playing;
    let hit = GameEvent::PlayerAction { player_id: 1, action: Action::Hit { split: false } };
    assert!(!st.can_apply(&hit));
    st.deck = vec![Card::new(Suit::Spades, 2)];
    assert!(st.can_apply(&GameEvent::PlayerAction { player_id: 1, action: Action::Double }));
    assert!(!st.can_apply(&GameEvent::PlayerAction { player_id: 1, action: Action::Stand }));
    st.deck = vec![Card::new(Suit::Spades, 10), Card::new(Suit::Spades, 9)];
    assert!(st.can_apply(&GameEvent::PlayerAction { player_id: 1, action: Action::Stand }));
    st.players[0].stood = true;
    st.deck.clear();
    assert!(st.can_apply(&GameEvent::PlayerAction { player_id: 1, action: Action::Double }));
    assert!(st.can_apply(&GameEvent::PlayerAction { player_id: 7, action: Action::Stand }));
}

#[test]
fn can_apply_refuses_a_deal_without_cards() {
    let mut st = State::new(1);
    st.apply(join(1, [1u8; 16])).unwrap();
    st.apply(join(2, [1u8; 16])).unwrap();
    st.phase = GamePhase::Betting;
    st.players[1].ready = true;
    st.deck = vec![Card::new(Suit::Spades, 2); 4];
    assert!(!st.can_apply(&GameEvent::TurnReady { player_id: 1 }));
    st.deck.push(Card::new(Suit::Spades, 3));
    assert!(st.can_apply(&GameEvent::TurnReady { player_id: 1 }));
    st.players[1].ready = false;
    st.deck.clear();
    assert!(st.can_apply(&GameEvent::TurnReady { player_id: 1 }));
}

fn all_cards(st: &State) -> Vec<Card> {
    let mut cards = st.deck.clone();
    cards.extend(st.dealer_hand.iter().copied());
    for p in &st.players {
        cards.extend(p.hand.iter().copied());
    }
    cards
}

fn assert_full_deck(cards: &[Card]) {
    assert_eq!(cards.len(), 52);
    for value in 1..=13u8 {
        for suit in [Suit::Spades, Suit::Clubs, Suit::Diamonds, Suit::Hearts] {
            assert_eq!(cards.iter().filter(|c| c.value == value && c.suit == suit).count(), 1);
        }
    }
}

#[test]
fn cards_only_move_during_the_round() {
    let players = two_players();
    let mut st = dealt_table(&players, 1);
    assert_full_deck(&all_cards(&st));
    st.apply(GameEvent::TurnReady { player_id: 1 }).unwrap();
    st.apply(GameEvent::TurnReady { player_id: 2 }).unwrap();
    assert_full_deck(&all_cards(&st));
    st.apply(GameEvent::PlayerAction { player_id: 2, action: Action::Hit { split: false } }).unwrap();
    assert_full_deck(&all_cards(&st));
    st.apply(GameEvent::PlayerAction { player_id: 1, action: Action::Stand }).unwrap();
    if st.phase == GamePhase::Playing {
        st.apply(GameEvent::PlayerAction { player_id: 2, action: Action::Stand }).unwrap();
    }
    assert_eq!(st.phase, GamePhase::Done);
    assert_full_deck(&all_cards(&st));
}

#[test]
fn phases_only_move_forward() {
    let players = two_players();
    let mut st = dealt_table(&players, 1);
    assert_eq!(st.phase, GamePhase::Betting);
    assert_eq!(st.apply(GameEvent::StartGame), Err(ERR_WRONG_PHASE));
    assert_eq!(st.phase, GamePhase::Betting);
    st.apply(GameEvent::TurnReady { player_id: 1 }).unwrap();
    st.apply(GameEvent::TurnReady { player_id: 2 }).unwrap();
    assert_eq!(st.phase, GamePhase::Playing);
    assert_eq!(st.apply(GameEvent::TurnReady { player_id: 1 }), Err(ERR_WRONG_PHASE));
    assert_eq!(st.phase, GamePhase::Playing);
}

/// A table in play with player 1 holding `hand`, player 2 still to play,
/// and `deck` to draw from.
fn playing_table(hand: Vec<Card>, deck: Vec<Card>) -> State {
    let mut st = State::new(1);
    st.apply(join(1, [1u8; 16])).unwrap();
    st.apply(join(2, [2u8; 16])).unwrap();
    st.phase = GamePhase::Playing;
    st.players[0].hand = hand;
    st.players[1].hand = vec![Card::new(Suit::Clubs, 2), Card::new(Suit::Clubs, 3)];
    st.deck = deck;
    st
}

#[test]
fn a_player_who_stood_cannot_move() {
    let mut st = playing_table(vec![Card::new(Suit::Hearts, 10)], vec![Card::new(Suit::Spades, 5)]);
    st.apply(GameEvent::PlayerAction { player_id: 1, action: Action::Stand }).unwrap();
    let hit = GameEvent::PlayerAction { player_id: 1, action: Action::Hit { split: false } };
    assert!(st.can_apply(&hit));
    assert_eq!(st.apply(hit), Err(ERR_TURN_OVER));
    assert_eq!(st.players[0].hand, vec![Card::new(Suit::Hearts, 10)]);
    assert_eq!(st.deck.len(), 1);
    assert_eq!(
        st.apply(GameEvent::PlayerAction { player_id: 1, action: Action::Stand }),
        Err(ERR_TURN_OVER)
    );
}

#[test]
fn a_bust_player_cannot_move() {
    let bust = vec![Card::new(Suit::Hearts, 10), Card::new(Suit::Hearts, 9), Card::new(Suit::Hearts, 5)];
    let mut st = playing_table(bust.clone(), vec![Card::new(Suit::Spades, 5)]);
    assert_eq!(
        st.apply(GameEvent::PlayerAction { player_id: 1, action: Action::Hit { split: false } }),
        Err(ERR_TURN_OVER)
    );
    assert_eq!(st.players[0].hand, bust);
    assert_eq!(st.deck.len(), 1);
}

#[test]
fn a_hit_over_21_ends_the_turn() {
    let hand = vec![Card::new(Suit::Hearts, 10), Card::new(Suit::Hearts, 9)];
    let mut st = playing_table(hand, vec![Card::new(Suit::Spades, 5), Card::new(Suit::Spades, 13)]);
    st.apply(GameEvent::PlayerAction { player_id: 1, action: Action::Hit { split: false } }).unwrap();
    assert_eq!(st.players[0].hand.len(), 3);
    assert!(st.players[0].stood);
    assert!(st.players[0].view().is_bust);
    assert_eq!(st.phase, GamePhase::Playing);
    let mut st = playing_table(vec![Card::new(Suit::Hearts, 2)], vec![Card::new(Suit::Spades, 5)]);
    st.apply(GameEvent::PlayerAction { player_id: 1, action: Action::Hit { split: false } }).unwrap();
    assert!(!st.players[0].stood);
}
