//! The model of a table and of the transitions that events make on it.
use vstd::prelude::*;
use crate::cards::{Card, deck_from_seed, hand_score, score_fits};
use crate::player::{PlayerId, PlayerModel, fresh_player, commitment};
use crate::protocol::{Action, EventModel, GamePhase};
use crate::seqs::stable_sort_by_key;

verus! {

pub const ERR_PLAYER_PRESENT: &'static str = "player già presente";

pub const ERR_TOO_FEW_PLAYERS: &'static str = "servono almeno 2 giocatori";

pub const ERR_UNKNOWN_PLAYER: &'static str = "player sconosciuto";

pub const ERR_SEED_MISMATCH: &'static str = "seed non corrisponde all'hash committato";

pub const ERR_SEED_REVEALED: &'static str = "seed già rivelato";

pub const ERR_WRONG_PHASE: &'static str = "evento non valido per la fase corrente";

pub const ERR_TURN_OVER: &'static str = "il turno del player è finito";

/// The mathematical value of a table.
pub struct TableModel {
    pub phase: GamePhase,
    pub deck: Seq<Card>,
    pub dealer_hand: Seq<Card>,
    pub players: Seq<PlayerModel>,
    /// The seeds revealed so far, with the id of the player who revealed each.
    pub revealed: Seq<(PlayerId, [u8; 16])>,
    pub local_player_id: PlayerId,
}

/// What applying an event answers: a roster to broadcast, nothing, or the
/// reason the event was refused.
pub type ReplyModel = Result<Option<EventModel>, &'static str>;

pub open spec fn has_id(ps: Seq<PlayerModel>, id: PlayerId) -> bool {
    exists|i: int| 0 <= i < ps.len() && ps[i].id == id
}

/// `i` is the first position of a player with id `id`.
pub open spec fn is_first_with_id(ps: Seq<PlayerModel>, id: PlayerId, i: int) -> bool {
    &&& 0 <= i < ps.len()
    &&& ps[i].id == id
    &&& forall|j: int| 0 <= j < i ==> ps[j].id != id
}

/// The position of the first player with id `id` (meaningful when there is one).
pub open spec fn first_with_id(ps: Seq<PlayerModel>, id: PlayerId) -> int {
    choose|i: int| is_first_with_id(ps, id, i)
}

pub proof fn lemma_first_with_id_unique(ps: Seq<PlayerModel>, id: PlayerId, i: int)
    requires
        is_first_with_id(ps, id, i),
    ensures
        first_with_id(ps, id) == i,
        has_id(ps, id),
{
    let k = first_with_id(ps, id);
    assert(is_first_with_id(ps, id, k));
    if k < i {
        assert(ps[k].id != id);
    } else if i < k {
        assert(ps[i].id != id);
    }
}

/// When some player has id `id`, there is a first one.
pub proof fn lemma_first_with_id_exists(ps: Seq<PlayerModel>, id: PlayerId)
    requires
        has_id(ps, id),
    ensures
        is_first_with_id(ps, id, first_with_id(ps, id)),
{
    let w = choose|w: int| 0 <= w < ps.len() && ps[w].id == id;
    lemma_first_below(ps, id, w);
}

proof fn lemma_first_below(ps: Seq<PlayerModel>, id: PlayerId, w: int)
    requires
        0 <= w < ps.len(),
        ps[w].id == id,
    ensures
        is_first_with_id(ps, id, first_with_id(ps, id)),
    decreases w,
{
    if forall|j: int| 0 <= j < w ==> ps[j].id != id {
        lemma_first_with_id_unique(ps, id, w);
    } else {
        let v = choose|j: int| 0 <= j < w && ps[j].id == id;
        lemma_first_below(ps, id, v);
    }
}

/// The players other than those with id `id`.
pub open spec fn without_id(ps: Seq<PlayerModel>, id: PlayerId) -> Seq<PlayerModel> {
    ps.filter(|p: PlayerModel| p.id != id)
}

/// `id` belongs to a player and no player has a smaller one.
pub open spec fn is_smallest_id(ps: Seq<PlayerModel>, id: PlayerId) -> bool {
    &&& has_id(ps, id)
    &&& forall|i: int| 0 <= i < ps.len() ==> id <= ps[i].id
}

/// The (id, commitment) of every player, in table order.
pub open spec fn roster(ps: Seq<PlayerModel>) -> Seq<(PlayerId, [u8; 16])> {
    ps.map_values(|p: PlayerModel| (p.id, p.hash))
}

/// The players after a roster is received: each listed player that is not
/// yet at the table joins it, in the order of the list.
pub open spec fn merge_roster(ps: Seq<PlayerModel>, list: Seq<(PlayerId, [u8; 16])>) -> Seq<
    PlayerModel,
>
    decreases list.len(),
{
    if list.len() == 0 {
        ps
    } else {
        let cur = merge_roster(ps, list.drop_last());
        let entry = list.last();
        if has_id(cur, entry.0) {
            cur
        } else {
            cur.push(fresh_player(entry.0, entry.1))
        }
    }
}

pub open spec fn has_revealed(rv: Seq<(PlayerId, [u8; 16])>, id: PlayerId) -> bool {
    exists|i: int| 0 <= i < rv.len() && rv[i].0 == id
}

/// Byte `k` of the exclusive or of all the revealed seeds.
pub open spec fn xor_of_seeds(rv: Seq<(PlayerId, [u8; 16])>, k: int) -> u8
    decreases rv.len(),
{
    if rv.len() == 0 {
        0
    } else {
        xor_of_seeds(rv.drop_last(), k) ^ rv.last().1[k]
    }
}

/// The deck seed that the revealed seeds make together: their exclusive or,
/// written twice.
pub open spec fn combined_seed(rv: Seq<(PlayerId, [u8; 16])>) -> Seq<u8> {
    Seq::new(32, |j: int| xor_of_seeds(rv, j % 16))
}

pub open spec fn player_key(p: PlayerModel) -> u8 {
    p.id
}

pub open spec fn seed_key(e: (PlayerId, [u8; 16])) -> u8 {
    e.0
}

pub open spec fn all_ready(ps: Seq<PlayerModel>) -> bool {
    forall|i: int| 0 <= i < ps.len() ==> #[trigger] ps[i].ready
}

/// A player whose turn is over: it stood or went bust.
pub open spec fn is_done(p: PlayerModel) -> bool {
    p.stood || hand_score(p.hand) > 21
}

pub open spec fn all_done(ps: Seq<PlayerModel>) -> bool {
    forall|i: int| 0 <= i < ps.len() ==> #[trigger] is_done(ps[i])
}

/// Checking the players in order, every hand that has to be scored can be.
pub open spec fn done_check_fits(ps: Seq<PlayerModel>) -> bool {
    forall|i: int|
        0 <= i < ps.len() && !ps[i].stood && (forall|j: int| 0 <= j < i ==> is_done(ps[j]))
            ==> score_fits(#[trigger] ps[i].hand)
}

/// The opening deal: two cards to every player in table order, one round at
/// a time, then one card to the dealer, all from the top of the deck.
pub open spec fn deal(t: TableModel) -> TableModel {
    let n = t.players.len() as int;
    TableModel {
        players: Seq::new(
            t.players.len(),
            |j: int|
                PlayerModel {
                    hand: t.players[j].hand.push(t.deck[j]).push(t.deck[n + j]),
                    ..t.players[j]
                },
        ),
        dealer_hand: t.dealer_hand.push(t.deck[2 * n]),
        deck: t.deck.skip(2 * n + 1),
        ..t
    }
}

/// The dealer's hand and the deck once the dealer has drawn until 17 or more.
pub open spec fn dealer_draws(hand: Seq<Card>, deck: Seq<Card>) -> (Seq<Card>, Seq<Card>)
    decreases deck.len(),
{
    if hand_score(hand) >= 17 || deck.len() == 0 {
        (hand, deck)
    } else {
        dealer_draws(hand.push(deck[0]), deck.drop_first())
    }
}

/// The dealer can draw until 17 without the deck running out, every hand it
/// scores on the way fitting in a byte.
pub open spec fn dealer_can_draw(hand: Seq<Card>, deck: Seq<Card>) -> bool
    decreases deck.len(),
{
    &&& score_fits(hand)
    &&& (hand_score(hand) >= 17 || (deck.len() > 0 && dealer_can_draw(
        hand.push(deck[0]),
        deck.drop_first(),
    )))
}

/// The dealer's turn: the hidden card, then cards until 17 or more.
pub open spec fn dealer_turn(t: TableModel) -> TableModel {
    let (hand, deck) = dealer_draws(t.dealer_hand.push(t.deck[0]), t.deck.drop_first());
    TableModel { dealer_hand: hand, deck, ..t }
}

pub open spec fn dealer_turn_ok(t: TableModel) -> bool {
    t.deck.len() > 0 && dealer_can_draw(t.dealer_hand.push(t.deck[0]), t.deck.drop_first())
}

pub open spec fn with_player(t: TableModel, i: int, p: PlayerModel) -> TableModel {
    TableModel { players: t.players.update(i, p), ..t }
}

/// The table after player `i` makes `action`, before anyone checks whether
/// the round is over. A hit that takes the hand over 21 ends the player's
/// turn: it counts as standing.
pub open spec fn after_action(t: TableModel, i: int, action: Action) -> TableModel {
    let p = t.players[i];
    match action {
        Action::Hit { .. } => {
            let hand = p.hand.push(t.deck[0]);
            TableModel {
                players: t.players.update(
                    i,
                    PlayerModel { hand, stood: p.stood || hand_score(hand) > 21, ..p },
                ),
                deck: t.deck.drop_first(),
                ..t
            }
        },
        Action::Stand => with_player(t, i, PlayerModel { stood: true, ..p }),
        _ => t,
    }
}

/// The seating and the deck once every seed is revealed: players and seeds
/// ordered by id, and the deck dealt from the seeds' exclusive or.
pub open spec fn seat_and_deal(t: TableModel) -> TableModel {
    let sorted = stable_sort_by_key(t.revealed, |e: (PlayerId, [u8; 16])| seed_key(e));
    TableModel {
        players: stable_sort_by_key(t.players, |p: PlayerModel| player_key(p)),
        revealed: sorted,
        deck: deck_from_seed(combined_seed(sorted)),
        ..t
    }
}

/// The table after player `id` reveals `seed`, the seed having been checked.
pub open spec fn after_reveal(t: TableModel, id: PlayerId, seed: [u8; 16]) -> TableModel {
    let rv = t.revealed.push((id, seed));
    if rv.len() == t.players.len() {
        TableModel { phase: GamePhase::Betting, ..seat_and_deal(TableModel { revealed: rv, ..t }) }
    } else {
        TableModel { revealed: rv, ..t }
    }
}

/// The table after player `id` declares itself ready.
pub open spec fn after_ready(t: TableModel, id: PlayerId) -> TableModel {
    let i = first_with_id(t.players, id);
    let t1 = with_player(t, i, PlayerModel { ready: true, ..t.players[i] });
    if all_ready(t1.players) {
        TableModel { phase: GamePhase::Playing, ..deal(t1) }
    } else {
        t1
    }
}

/// The table after player `id` plays `action`.
pub open spec fn after_play(t: TableModel, id: PlayerId, action: Action) -> TableModel {
    let t1 = after_action(t, first_with_id(t.players, id), action);
    if all_done(t1.players) {
        TableModel { phase: GamePhase::Done, ..dealer_turn(t1) }
    } else {
        t1
    }
}

/// The position of a phase in the course of a game.
pub open spec fn phase_rank(p: GamePhase) -> int {
    match p {
        GamePhase::Lobby => 0,
        GamePhase::Revealing => 1,
        GamePhase::Betting => 2,
        GamePhase::Playing => 3,
        GamePhase::Done => 4,
    }
}

/// What applying `e` to `t` answers.
pub open spec fn reply(t: TableModel, e: EventModel) -> ReplyModel {
    match (t.phase, e) {
        (GamePhase::Lobby, EventModel::Join { player_id, .. }) => if has_id(t.players, player_id) {
            Err(ERR_PLAYER_PRESENT)
        } else {
            Ok(None)
        },
        (GamePhase::Lobby, EventModel::Leave { .. }) => Ok(None),
        (GamePhase::Lobby, EventModel::RequestSync { .. }) => if is_smallest_id(
            t.players,
            t.local_player_id,
        ) {
            Ok(Some(EventModel::SyncResponse { players: roster(t.players) }))
        } else {
            Ok(None)
        },
        (GamePhase::Lobby, EventModel::SyncResponse { .. }) => Ok(None),
        (GamePhase::Lobby, EventModel::StartGame) => if t.players.len() < 2 {
            Err(ERR_TOO_FEW_PLAYERS)
        } else {
            Ok(None)
        },
        (GamePhase::Revealing, EventModel::RevealSeed { player_id, seed }) => if !has_id(
            t.players,
            player_id,
        ) {
            Err(ERR_UNKNOWN_PLAYER)
        } else if commitment(seed@) != t.players[first_with_id(
            t.players,
            player_id,
        )].hash@ {
            Err(ERR_SEED_MISMATCH)
        } else if has_revealed(t.revealed, player_id) {
            Err(ERR_SEED_REVEALED)
        } else {
            Ok(None)
        },
        (GamePhase::Betting, EventModel::TurnReady { player_id }) => if has_id(
            t.players,
            player_id,
        ) {
            Ok(None)
        } else {
            Err(ERR_UNKNOWN_PLAYER)
        },
        (GamePhase::Playing, EventModel::PlayerAction { player_id, .. }) => if !has_id(
            t.players,
            player_id,
        ) {
            Err(ERR_UNKNOWN_PLAYER)
        } else if is_done(t.players[first_with_id(t.players, player_id)]) {
            Err(ERR_TURN_OVER)
        } else {
            Ok(None)
        },
        (GamePhase::Playing, EventModel::Leave { .. }) => Ok(None),
        _ => Err(ERR_WRONG_PHASE),
    }
}

/// The table after applying `e` to `t`. A refused event leaves it unchanged.
pub open spec fn next(t: TableModel, e: EventModel) -> TableModel {
    if reply(t, e) is Err {
        t
    } else {
        match (t.phase, e) {
            (GamePhase::Lobby, EventModel::Join { player_id, hash, .. }) => TableModel {
                players: t.players.push(fresh_player(player_id, hash)),
                ..t
            },
            (GamePhase::Lobby, EventModel::Leave { player_id }) => TableModel {
                players: without_id(t.players, player_id),
                ..t
            },
            (GamePhase::Lobby, EventModel::SyncResponse { players }) => TableModel {
                players: merge_roster(t.players, players),
                ..t
            },
            (GamePhase::Lobby, EventModel::StartGame) => TableModel {
                phase: GamePhase::Revealing,
                ..t
            },
            (GamePhase::Revealing, EventModel::RevealSeed { player_id, seed }) => after_reveal(
                t,
                player_id,
                seed,
            ),
            (GamePhase::Betting, EventModel::TurnReady { player_id }) => after_ready(t, player_id),
            (GamePhase::Playing, EventModel::PlayerAction { player_id, action }) => after_play(
                t,
                player_id,
                action,
            ),
            (GamePhase::Playing, EventModel::Leave { player_id }) => TableModel {
                players: without_id(t.players, player_id),
                ..t
            },
            _ => t,
        }
    }
}

/// Applying `e` to `t` runs out of no deck and overflows no score.
pub open spec fn can_apply(t: TableModel, e: EventModel) -> bool {
    match (t.phase, e) {
        (GamePhase::Betting, EventModel::TurnReady { player_id }) => has_id(t.players, player_id)
            ==> {
            let i = first_with_id(t.players, player_id);
            let t1 = with_player(t, i, PlayerModel { ready: true, ..t.players[i] });
            all_ready(t1.players) ==> t.deck.len() >= 2 * t.players.len() + 1
        },
        (GamePhase::Playing, EventModel::PlayerAction { player_id, action }) => has_id(
            t.players,
            player_id,
        ) ==> {
            let i = first_with_id(t.players, player_id);
            let p = t.players[i];
            let t1 = after_action(t, i, action);
            &&& (!p.stood ==> score_fits(p.hand))
            &&& !is_done(p) ==> {
                &&& (action is Hit ==> t.deck.len() > 0 && score_fits(p.hand.push(t.deck[0])))
                &&& done_check_fits(t1.players)
                &&& all_done(t1.players) ==> dealer_turn_ok(t1)
            }
        },
        _ => true,
    }
}

} // verus!
