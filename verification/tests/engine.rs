use bjle::engine::{Engine, Notice};
use bjle::player::Player;
use bjle::protocol::{Action, GameEvent, GamePhase, UserAction};
use bjle::table::ERR_WRONG_PHASE;

#[test]
fn new_engine_seats_its_player() {
    let e = Engine::new(5);
    assert_eq!(e.state.players.len(), 1);
    assert_eq!(e.state.players[0].id, 5);
    assert!(Player::verify_hash(e.local_seed, e.state.players[0].hash));
    assert!(!e.is_creator);
    assert_eq!(e.current_room, None);
    assert_eq!(e.state.phase, GamePhase::Lobby);
}

#[test]
fn create_room_announces_the_commitment() {
    let mut e = Engine::new(5);
    let hash = e.state.players[0].hash;
    let r = e.on_user_action(UserAction::CreateRoom { room_id: 3 }).unwrap();
    assert_eq!(r.to_mesh, vec![GameEvent::Join { player_id: 5, room_id: 3, hash }]);
    assert_eq!(r.notice, None);
    assert!(e.is_creator);
    assert_eq!(e.current_room, Some(3));
    assert_eq!(e.state.players.len(), 1);
}

#[test]
fn join_room_asks_for_the_roster() {
    let mut e = Engine::new(6);
    let hash = e.state.players[0].hash;
    let r = e.on_user_action(UserAction::JoinRoom { room_id: 2 }).unwrap();
    assert_eq!(
        r.to_mesh,
        vec![
            GameEvent::Join { player_id: 6, room_id: 2, hash },
            GameEvent::RequestSync { player_id: 6 }
        ]
    );
    assert!(!e.is_creator);
    assert_eq!(e.current_room, Some(2));
}

#[test]
fn only_creator_starts() {
    let mut e = Engine::new(6);
    e.on_user_action(UserAction::JoinRoom { room_id: 2 }).unwrap();
    let r = e.on_user_action(UserAction::StartGame).unwrap();
    assert!(r.to_mesh.is_empty());
    assert!(!r.then_reveal);
    assert_eq!(r.notice, Some(Notice::OnlyCreatorStarts));
    assert_eq!(e.state.phase, GamePhase::Lobby);
}

#[test]
fn creator_starts_and_reveals() {
    let mut e = Engine::new(1);
    e.on_user_action(UserAction::CreateRoom { room_id: 2 }).unwrap();
    let (other, _) = Player::new(2);
    e.on_mesh_event(GameEvent::Join { player_id: 2, room_id: 2, hash: other.hash }).unwrap();
    let r = e.on_user_action(UserAction::StartGame).unwrap();
    assert_eq!(r.to_mesh, vec![GameEvent::StartGame]);
    assert!(r.then_reveal);
    assert_eq!(e.state.phase, GamePhase::Revealing);
    assert!(e.state.revealed_seeds.is_empty());
    let reveal = e.reveal_seed();
    assert_eq!(reveal, GameEvent::RevealSeed { player_id: 1, seed: e.local_seed });
    assert_eq!(e.state.revealed_seeds.len(), 1);
}

#[test]
fn start_from_mesh_makes_the_node_reveal() {
    let mut e = Engine::new(2);
    e.on_user_action(UserAction::JoinRoom { room_id: 1 }).unwrap();
    let (other, _) = Player::new(1);
    let r = e.on_mesh_event(GameEvent::Join { player_id: 1, room_id: 1, hash: other.hash }).unwrap();
    assert!(r.to_mesh.is_empty());
    let r = e.on_mesh_event(GameEvent::StartGame).unwrap();
    assert!(r.to_mesh.is_empty());
    assert!(r.then_reveal);
    assert_eq!(r.notice, None);
    assert_eq!(e.reveal_seed(), GameEvent::RevealSeed { player_id: 2, seed: e.local_seed });
    assert_eq!(e.state.revealed_seeds, vec![(2, e.local_seed)]);
    let r = e.on_mesh_event(GameEvent::StartGame).unwrap();
    assert!(r.to_mesh.is_empty());
    assert!(!r.then_reveal);
    assert_eq!(r.notice, Some(Notice::EventIgnored(ERR_WRONG_PHASE)));
}

#[test]
fn mesh_sync_request_is_answered_by_smallest() {
    let mut e = Engine::new(1);
    e.on_user_action(UserAction::CreateRoom { room_id: 1 }).unwrap();
    let hash = e.state.players[0].hash;
    let r = e.on_mesh_event(GameEvent::RequestSync { player_id: 4 }).unwrap();
    assert_eq!(r.to_mesh, vec![GameEvent::SyncResponse { players: vec![(1, hash)] }]);
}

#[test]
fn bets_come_out_of_the_fishes() {
    let mut e = Engine::new(1);
    let r = e.on_user_action(UserAction::PlaceBet { amount: 2000 }).unwrap();
    assert_eq!(r.notice, Some(Notice::NotEnoughFishes));
    assert_eq!(e.state.players[0].fishes, 1000);
    let r = e.on_user_action(UserAction::PlaceBet { amount: 100 }).unwrap();
    assert_eq!(r.notice, None);
    assert!(r.to_mesh.is_empty());
    assert_eq!(e.state.players[0].fishes, 900);
    assert_eq!(e.state.players[0].bet, 100);
}

#[test]
fn invalid_move_is_reported_and_not_sent() {
    let mut e = Engine::new(1);
    let r = e.on_user_action(UserAction::Play(Action::Stand)).unwrap();
    assert!(r.to_mesh.is_empty());
    assert_eq!(r.notice, Some(Notice::InvalidMove(ERR_WRONG_PHASE)));
}

#[test]
fn ready_and_quit_are_broadcast() {
    let mut e = Engine::new(1);
    let r = e.on_user_action(UserAction::ConfirmReady).unwrap();
    assert_eq!(r.to_mesh, vec![GameEvent::TurnReady { player_id: 1 }]);
    let r = e.on_user_action(UserAction::Quit).unwrap();
    assert_eq!(r.to_mesh, vec![GameEvent::Leave { player_id: 1 }]);
    assert!(e.state.players.is_empty());
}

#[test]
fn exhausted_table_is_reported() {
    let mut e = Engine::new(1);
    e.state.phase = GamePhase::Playing;
    let r = e.on_user_action(UserAction::Play(Action::Hit { split: false }));
    assert!(r.is_err());
    let r = e.on_mesh_event(GameEvent::PlayerAction { player_id: 1, action: Action::Hit { split: false } });
    assert!(r.is_err());
}
