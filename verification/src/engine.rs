//! The local engine's decisions: what the node does with an event from the
//! mesh or a choice of its user. The caller carries the events it returns
//! to the mesh and shows the notices and the table to the user.
use vstd::prelude::*;
use crate::player::{Player, PlayerId, PlayerModel, commitment, fresh_player};
use crate::protocol::{EventModel, GameEvent, GamePhase, RoomId, UserAction};
use crate::state::{State, find_player, models};
use crate::table::{TableModel, can_apply, first_with_id, has_id, lemma_first_with_id_unique, next, reply};

verus! {

/// Something the engine tells its user besides the table.
#[derive(Debug, Clone, Copy, PartialEq, Eq)]
pub enum Notice {
    /// A mesh event was refused by the table, for the reason given.
    EventIgnored(&'static str),
    /// Only the creator of the room can start the game.
    OnlyCreatorStarts,
    /// The player has fewer fishes than the bet.
    NotEnoughFishes,
    /// The user's move was refused by the table, for the reason given.
    InvalidMove(&'static str),
}

/// What the engine does in answer to one input.
pub struct Reaction {
    /// The events to broadcast on the mesh, in order.
    pub to_mesh: Vec<GameEvent>,
    pub notice: Option<Notice>,
    /// Once `to_mesh` is broadcast, the node reveals its seed with
    /// `Engine::reveal_seed` and broadcasts that too.
    pub then_reveal: bool,
}

/// The table cannot take the event that the input calls for: it would run
/// out of cards or overflow a score.
#[derive(Debug, Clone, Copy, PartialEq, Eq)]
pub struct TableExhausted;

/// The local node: its copy of the table, its secret seed and its role.
pub struct Engine {
    pub state: State,
    /// The seed that the local player committed to; revealed when the game starts.
    pub local_seed: [u8; 16],
    pub is_creator: bool,
    pub current_room: Option<RoomId>,
}

/// The mathematical value of an `Engine`.
pub struct EngineModel {
    pub table: TableModel,
    pub local_seed: [u8; 16],
    pub is_creator: bool,
    pub current_room: Option<RoomId>,
}

/// The mathematical value of a `Reaction`.
pub struct ReactionModel {
    pub to_mesh: Seq<EventModel>,
    pub notice: Option<Notice>,
    pub then_reveal: bool,
}

pub open spec fn reaction_of(r: Result<Reaction, TableExhausted>) -> Result<ReactionModel, TableExhausted> {
    match r {
        Ok(reaction) => Ok(ReactionModel {
            to_mesh: reaction.to_mesh@.map_values(|e: GameEvent| e@),
            notice: reaction.notice,
            then_reveal: reaction.then_reveal,
        }),
        Err(x) => Err(x),
    }
}

/// The commitment a node announces when it enters a room: its own player's,
/// or zeros if its player has left the table.
pub open spec fn announced_hash(t: TableModel) -> [u8; 16] {
    if has_id(t.players, t.local_player_id) {
        t.players[first_with_id(t.players, t.local_player_id)].hash
    } else {
        vstd::array::spec_array_fill_for_copy_type::<u8, 16>(0u8)
    }
}

pub open spec fn reveal_of(m: EngineModel) -> EventModel {
    EventModel::RevealSeed { player_id: m.table.local_player_id, seed: m.local_seed }
}

pub open spec fn with_table(m: EngineModel, t: TableModel) -> EngineModel {
    EngineModel { table: t, ..m }
}

/// What the engine does with an event from the mesh: applies it, passes on
/// the table's answer, and asks for its own seed to be revealed when the
/// event opened the reveal phase.
pub open spec fn mesh_step(m: EngineModel, e: EventModel) -> (EngineModel, Result<ReactionModel, TableExhausted>) {
    if !can_apply(m.table, e) {
        (m, Err(TableExhausted))
    } else {
        let t1 = next(m.table, e);
        let answer = reply(m.table, e);
        let opened = m.table.phase != GamePhase::Revealing && t1.phase == GamePhase::Revealing;
        let sent = match answer {
            Ok(Some(r)) => seq![r],
            _ => Seq::empty(),
        };
        let notice = match answer {
            Err(reason) => Some(Notice::EventIgnored(reason)),
            _ => None,
        };
        (with_table(m, t1), Ok(ReactionModel { to_mesh: sent, notice, then_reveal: opened }))
    }
}

pub open spec fn quiet(events: Seq<EventModel>) -> Result<ReactionModel, TableExhausted> {
    Ok(ReactionModel { to_mesh: events, notice: None, then_reveal: false })
}

/// What the engine does with a choice of its user.
pub open spec fn user_step(m: EngineModel, a: UserAction) -> (EngineModel, Result<ReactionModel, TableExhausted>) {
    let t = m.table;
    let id = t.local_player_id;
    match a {
        UserAction::CreateRoom { room_id } => {
            let join = EventModel::Join { player_id: id, room_id, hash: announced_hash(t) };
            (
                EngineModel {
                    table: next(t, join),
                    is_creator: true,
                    current_room: Some(room_id),
                    ..m
                },
                quiet(seq![join]),
            )
        },
        UserAction::JoinRoom { room_id } => {
            let join = EventModel::Join { player_id: id, room_id, hash: announced_hash(t) };
            (
                EngineModel {
                    table: next(t, join),
                    is_creator: false,
                    current_room: Some(room_id),
                    ..m
                },
                quiet(seq![join, EventModel::RequestSync { player_id: id }]),
            )
        },
        UserAction::StartGame => {
            if !m.is_creator {
                (m, Ok(ReactionModel { to_mesh: Seq::empty(), notice: Some(Notice::OnlyCreatorStarts), then_reveal: false }))
            } else {
                (
                    with_table(m, next(t, EventModel::StartGame)),
                    Ok(ReactionModel { to_mesh: seq![EventModel::StartGame], notice: None, then_reveal: true }),
                )
            }
        },
        UserAction::PlaceBet { amount } => {
            if !has_id(t.players, id) {
                (m, quiet(Seq::empty()))
            } else {
                let i = first_with_id(t.players, id);
                let p = t.players[i];
                if p.fishes < amount {
                    (m, Ok(ReactionModel { to_mesh: Seq::empty(), notice: Some(Notice::NotEnoughFishes), then_reveal: false }))
                } else {
                    (
                        with_table(m, TableModel {
                            players: t.players.update(i, PlayerModel {
                                fishes: (p.fishes - amount) as u16,
                                bet: amount,
                                ..p
                            }),
                            ..t
                        }),
                        quiet(Seq::empty()),
                    )
                }
            }
        },
        UserAction::ConfirmReady => {
            let ready = EventModel::TurnReady { player_id: id };
            if !can_apply(t, ready) {
                (m, Err(TableExhausted))
            } else {
                (with_table(m, next(t, ready)), quiet(seq![ready]))
            }
        },
        UserAction::Play(action) => {
            let play = EventModel::PlayerAction { player_id: id, action };
            if !can_apply(t, play) {
                (m, Err(TableExhausted))
            } else {
                match reply(t, play) {
                    Err(reason) => (
                        m,
                        Ok(ReactionModel { to_mesh: Seq::empty(), notice: Some(Notice::InvalidMove(reason)), then_reveal: false }),
                    ),
                    _ => (with_table(m, next(t, play)), quiet(seq![play])),
                }
            }
        },
        UserAction::Quit => {
            let leave = EventModel::Leave { player_id: id };
            (with_table(m, next(t, leave)), quiet(seq![leave]))
        },
    }
}

impl Engine {
    pub open spec fn model(&self) -> EngineModel {
        EngineModel {
            table: self.state.model(),
            local_seed: self.local_seed,
            is_creator: self.is_creator,
            current_room: self.current_room,
        }
    }

    /// The engine of a fresh node: its player, committed to a new random
    /// seed, alone at a table in the lobby.
    pub fn new(id: PlayerId) -> (engine: Self)
        ensures
            engine.model().table == (TableModel {
                phase: GamePhase::Lobby,
                deck: Seq::empty(),
                dealer_hand: Seq::empty(),
                players: seq![fresh_player(id, engine.state.players@[0].hash)],
                revealed: Seq::empty(),
                local_player_id: id,
            }),
            engine.state.players@[0].hash@ == commitment(engine.local_seed@),
            !engine.is_creator,
            engine.current_room is None,
    {
        let (player, local_seed) = Player::new(id);
        let mut state = State::new(id);
        state.players.push(player);
        assert(models(state.players@) =~= seq![player.model()]);
        Self { state, local_seed, is_creator: false, current_room: None }
    }

    /// Reveals the local seed: applies it to the table and returns the event
    /// to broadcast.
    pub fn reveal_seed(&mut self) -> (event: GameEvent)
        ensures
            event@ == reveal_of(old(self).model()),
            final(self).model() == with_table(old(self).model(), next(old(self).model().table, reveal_of(old(self).model()))),
    {
        let _ = self.state.apply(GameEvent::RevealSeed {
            player_id: self.state.local_player_id,
            seed: self.local_seed,
        });
        GameEvent::RevealSeed { player_id: self.state.local_player_id, seed: self.local_seed }
    }

    /// Handles an event that arrived from the mesh.
    pub fn on_mesh_event(&mut self, event: GameEvent) -> (r: Result<Reaction, TableExhausted>)
        ensures
            (final(self).model(), reaction_of(r)) == mesh_step(old(self).model(), event@),
    {
        let phase_before = self.state.phase;
        if !self.state.can_apply(&event) {
            return Err(TableExhausted);
        }
        let mut to_mesh: Vec<GameEvent> = Vec::new();
        let mut notice: Option<Notice> = None;
        match self.state.apply(event) {
            Ok(Some(answer)) => to_mesh.push(answer),
            Ok(None) => {},
            Err(reason) => notice = Some(Notice::EventIgnored(reason)),
        }
        let then_reveal = phase_before != GamePhase::Revealing && self.state.phase
            == GamePhase::Revealing;
        proof {
            assert(to_mesh@.map_values(|e: GameEvent| e@) =~= mesh_step(old(self).model(), event@).1->Ok_0.to_mesh);
        }
        Ok(Reaction { to_mesh, notice, then_reveal })
    }

    /// The commitment this node announces when it enters a room.
    fn announced_hash(&self) -> (hash: [u8; 16])
        ensures
            hash == announced_hash(self.state.model()),
    {
        match find_player(&self.state.players, self.state.local_player_id) {
            Some(i) => {
                proof {
                    lemma_first_with_id_unique(self.state.model().players, self.state.local_player_id, i as int);
                }
                self.state.players[i].hash
            },
            None => [0u8; 16],
        }
    }

    /// Handles a choice of the local user.
    pub fn on_user_action(&mut self, action: UserAction) -> (r: Result<Reaction, TableExhausted>)
        ensures
            (final(self).model(), reaction_of(r)) == user_step(old(self).model(), action),
    {
        let id = self.state.local_player_id;
        let ghost m0 = self.model();
        match action {
            UserAction::CreateRoom { room_id } => {
                self.is_creator = true;
                self.current_room = Some(room_id);
                let hash = self.announced_hash();
                let _ = self.state.apply(GameEvent::Join { player_id: id, room_id, hash });
                let mut to_mesh: Vec<GameEvent> = Vec::new();
                to_mesh.push(GameEvent::Join { player_id: id, room_id, hash });
                proof {
                    assert(to_mesh@.map_values(|e: GameEvent| e@) =~= user_step(m0, action).1->Ok_0.to_mesh);
                }
                Ok(Reaction { to_mesh, notice: None, then_reveal: false })
            },
            UserAction::JoinRoom { room_id } => {
                self.is_creator = false;
                self.current_room = Some(room_id);
                let hash = self.announced_hash();
                let _ = self.state.apply(GameEvent::Join { player_id: id, room_id, hash });
                let mut to_mesh: Vec<GameEvent> = Vec::new();
                to_mesh.push(GameEvent::Join { player_id: id, room_id, hash });
                to_mesh.push(GameEvent::RequestSync { player_id: id });
                proof {
                    assert(to_mesh@.map_values(|e: GameEvent| e@) =~= user_step(m0, action).1->Ok_0.to_mesh);
                }
                Ok(Reaction { to_mesh, notice: None, then_reveal: false })
            },
            UserAction::StartGame => {
                if !self.is_creator {
                    let to_mesh: Vec<GameEvent> = Vec::new();
                    proof {
                        assert(to_mesh@.map_values(|e: GameEvent| e@) =~= Seq::<EventModel>::empty());
                    }
                    return Ok(Reaction { to_mesh, notice: Some(Notice::OnlyCreatorStarts), then_reveal: false });
                }
                let _ = self.state.apply(GameEvent::StartGame);
                let mut to_mesh: Vec<GameEvent> = Vec::new();
                to_mesh.push(GameEvent::StartGame);
                proof {
                    assert(to_mesh@.map_values(|e: GameEvent| e@) =~= user_step(m0, action).1->Ok_0.to_mesh);
                }
                Ok(Reaction { to_mesh, notice: None, then_reveal: true })
            },
            UserAction::PlaceBet { amount } => {
                let to_mesh: Vec<GameEvent> = Vec::new();
                proof {
                    assert(to_mesh@.map_values(|e: GameEvent| e@) =~= Seq::<EventModel>::empty());
                }
                match find_player(&self.state.players, id) {
                    Some(i) => {
                        proof {
                            lemma_first_with_id_unique(m0.table.players, id, i as int);
                        }
                        if self.state.players[i].fishes < amount {
                            return Ok(Reaction { to_mesh, notice: Some(Notice::NotEnoughFishes), then_reveal: false });
                        }
                        let ghost before = self.state.players@;
                        let fishes = self.state.players[i].fishes - amount;
                        self.state.players[i].fishes = fishes;
                        self.state.players[i].bet = amount;
                        proof {
                            assert(models(self.state.players@) =~= models(before).update(
                                i as int,
                                self.state.players@[i as int].model(),
                            ));
                        }
                        Ok(Reaction { to_mesh, notice: None, then_reveal: false })
                    },
                    None => Ok(Reaction { to_mesh, notice: None, then_reveal: false }),
                }
            },
            UserAction::ConfirmReady => {
                if !self.state.can_apply(&GameEvent::TurnReady { player_id: id }) {
                    return Err(TableExhausted);
                }
                let _ = self.state.apply(GameEvent::TurnReady { player_id: id });
                let mut to_mesh: Vec<GameEvent> = Vec::new();
                to_mesh.push(GameEvent::TurnReady { player_id: id });
                proof {
                    assert(to_mesh@.map_values(|e: GameEvent| e@) =~= user_step(m0, action).1->Ok_0.to_mesh);
                }
                Ok(Reaction { to_mesh, notice: None, then_reveal: false })
            },
            UserAction::Play(play) => {
                if !self.state.can_apply(&GameEvent::PlayerAction { player_id: id, action: play }) {
                    return Err(TableExhausted);
                }
                let mut to_mesh: Vec<GameEvent> = Vec::new();
                match self.state.apply(GameEvent::PlayerAction { player_id: id, action: play }) {
                    Ok(_) => {
                        to_mesh.push(GameEvent::PlayerAction { player_id: id, action: play });
                        proof {
                            assert(to_mesh@.map_values(|e: GameEvent| e@) =~= user_step(m0, action).1->Ok_0.to_mesh);
                        }
                        Ok(Reaction { to_mesh, notice: None, then_reveal: false })
                    },
                    Err(reason) => {
                        proof {
                            assert(to_mesh@.map_values(|e: GameEvent| e@) =~= Seq::<EventModel>::empty());
                        }
                        Ok(Reaction { to_mesh, notice: Some(Notice::InvalidMove(reason)), then_reveal: false })
                    },
                }
            },
            UserAction::Quit => {
                let _ = self.state.apply(GameEvent::Leave { player_id: id });
                let mut to_mesh: Vec<GameEvent> = Vec::new();
                to_mesh.push(GameEvent::Leave { player_id: id });
                proof {
                    assert(to_mesh@.map_values(|e: GameEvent| e@) =~= user_step(m0, action).1->Ok_0.to_mesh);
                }
                Ok(Reaction { to_mesh, notice: None, then_reveal: false })
            },
        }
    }
}

} // verus!
