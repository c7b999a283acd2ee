//! The replicated table: the state machine that every node of a room applies
//! the same events to.
use vstd::prelude::*;
use crate::cards::{Card, calculate_score, deck_from_seed, generate_deck, hand_fits, score_fits, with_card};
use crate::player::{Player, PlayerId, PlayerModel};
use crate::protocol::{Action, EventModel, GameEvent, GamePhase};
use crate::seqs::{keyed_prefix, lemma_filter_congruent, lemma_filter_filter, lemma_filter_keeps_all, lemma_filter_keeps_none, lemma_filter_take_step, stable_sort_by_key};
use crate::laws::law_phase_moves_forward;
use crate::table::{first_with_id, ReplyModel, TableModel, has_id, is_first_with_id, is_smallest_id, merge_roster, player_key, roster, without_id, seed_key, combined_seed, xor_of_seeds, all_ready, all_done, is_done, done_check_fits, has_revealed, deal, dealer_turn, dealer_turn_ok, dealer_draws, dealer_can_draw, can_apply, next, reply, after_action, with_player, seat_and_deal, phase_rank, ERR_TURN_OVER, lemma_first_with_id_unique, ERR_PLAYER_PRESENT, ERR_TOO_FEW_PLAYERS, ERR_UNKNOWN_PLAYER, ERR_SEED_MISMATCH, ERR_SEED_REVEALED, ERR_WRONG_PHASE};

verus! {

/// The table as every node of the room sees it.
pub struct State {
    pub phase: GamePhase,
    pub deck: Vec<Card>,
    pub dealer_hand: Vec<Card>,
    pub players: Vec<Player>,
    /// The seeds revealed so far: (player id, seed).
    pub revealed_seeds: Vec<(PlayerId, [u8; 16])>,
    /// The local player's id: it decides whether this node answers `RequestSync`.
    pub local_player_id: PlayerId,
}

/// What the user interface is shown of the table.
pub struct StateView {}

/// The models of a sequence of players.
pub open spec fn models(ps: Seq<Player>) -> Seq<PlayerModel> {
    ps.map_values(|p: Player| p.model())
}

/// What an answer of `State::apply` stands for.
pub open spec fn reply_of(r: Result<Option<GameEvent>, &'static str>) -> ReplyModel {
    match r {
        Ok(Some(e)) => Ok(Some(e@)),
        Ok(None) => Ok(None),
        Err(m) => Err(m),
    }
}

proof fn lemma_models_push(ps: Seq<Player>, p: Player)
    ensures
        models(ps.push(p)) == models(ps).push(p.model()),
{
    assert(models(ps.push(p)) =~= models(ps).push(p.model()));
}

proof fn lemma_models_update(ps: Seq<Player>, i: int, p: Player)
    requires
        0 <= i < ps.len(),
    ensures
        models(ps.update(i, p)) == models(ps).update(i, p.model()),
{
    assert(models(ps.update(i, p)) =~= models(ps).update(i, p.model()));
}

/// The position of the first player with id `id`, if any.
pub(crate) fn find_player(players: &Vec<Player>, id: PlayerId) -> (found: Option<usize>)
    ensures
        match found {
            Some(i) => is_first_with_id(models(players@), id, i as int),
            None => !has_id(models(players@), id),
        },
{
    let mut i: usize = 0;
    while i < players.len()
        invariant
            i <= players.len(),
            forall|j: int| 0 <= j < i ==> models(players@)[j].id != id,
        decreases players.len() - i,
    {
        if players[i].id == id {
            return Some(i);
        }
        i = i + 1;
    }
    None
}

/// Keeps only the players whose id is not `id`, in their order.
fn remove_players_with_id(players: &mut Vec<Player>, id: PlayerId)
    ensures
        models(final(players)@) == without_id(models(old(players)@), id),
{
    let ghost orig = models(players@);
    let mut rest: Vec<Player> = Vec::new();
    std::mem::swap(players, &mut rest);
    let ghost k: int = 0;
    while rest.len() > 0
        invariant
            0 <= k <= orig.len(),
            models(rest@) == orig.skip(k),
            models(players@) == orig.take(k).filter(|p: PlayerModel| p.id != id),
        decreases rest.len(),
    {
        let ghost before = rest@;
        let p = rest.remove(0);
        proof {
            assert(models(before).len() == before.len());
            assert(k < orig.len());
            assert(models(before)[0] == before[0].model());
            assert(orig.skip(k)[0] == orig[k]);
            assert(orig[k] == p.model());
            lemma_filter_take_step(orig, |p: PlayerModel| p.id != id, k);
            assert(rest@ =~= before.drop_first());
            assert(models(rest@) =~= models(before).drop_first());
            assert(models(rest@) =~= orig.skip(k + 1));
        }
        if p.id != id {
            proof {
                lemma_models_push(players@, p);
            }
            players.push(p);
        }
        proof {
            k = k + 1;
        }
    }
    proof {
        assert(orig.skip(k).len() == 0);
        assert(orig.take(k) =~= orig);
    }
}

/// The smallest player id, if there are players.
fn smallest_id(players: &Vec<Player>) -> (smallest: Option<PlayerId>)
    ensures
        smallest is None <==> players@.len() == 0,
        smallest matches Some(v) ==> is_smallest_id(models(players@), v),
{
    let mut smallest: Option<PlayerId> = None;
    let ghost mut w: int = 0;
    let mut i: usize = 0;
    while i < players.len()
        invariant
            i <= players.len(),
            smallest is None <==> i == 0,
            smallest matches Some(v) ==> {
                &&& 0 <= w < i
                &&& models(players@)[w].id == v
                &&& forall|j: int| 0 <= j < i ==> v <= models(players@)[j].id
            },
        decreases players.len() - i,
    {
        let id = players[i].id;
        match smallest {
            Some(v) => {
                if id < v {
                    smallest = Some(id);
                    proof {
                        w = i as int;
                    }
                }
            },
            None => {
                smallest = Some(id);
                proof {
                    w = i as int;
                }
            },
        }
        i = i + 1;
    }
    smallest
}

/// The (id, commitment) of every player, in table order.
fn roster_of(players: &Vec<Player>) -> (list: Vec<(PlayerId, [u8; 16])>)
    ensures
        list@ == roster(models(players@)),
{
    let mut list: Vec<(PlayerId, [u8; 16])> = Vec::new();
    let mut i: usize = 0;
    while i < players.len()
        invariant
            i <= players.len(),
            list@ =~= roster(models(players@)).take(i as int),
        decreases players.len() - i,
    {
        list.push((players[i].id, players[i].hash));
        i = i + 1;
    }
    assert(roster(models(players@)).take(i as int) =~= roster(models(players@)));
    list
}

/// Seats each listed player that is not yet at the table, in list order.
fn merge_roster_into(players: &mut Vec<Player>, list: &Vec<(PlayerId, [u8; 16])>)
    ensures
        models(final(players)@) == merge_roster(models(old(players)@), list@),
{
    let ghost orig = models(players@);
    let mut i: usize = 0;
    while i < list.len()
        invariant
            i <= list.len(),
            models(players@) == merge_roster(orig, list@.take(i as int)),
        decreases list.len() - i,
    {
        let (id, hash) = list[i];
        proof {
            assert(list@.take(i + 1).drop_last() =~= list@.take(i as int));
        }
        if find_player(players, id).is_none() {
            let p = Player::new_from_hash(id, hash);
            proof {
                lemma_models_push(players@, p);
            }
            players.push(p);
        }
        i = i + 1;
    }
    assert(list@.take(i as int) =~= list@);
}

/// The players ordered by id; players with equal ids keep their order.
fn sort_players_by_id(players: Vec<Player>) -> (sorted: Vec<Player>)
    ensures
        models(sorted@) == stable_sort_by_key(models(players@), |p: PlayerModel| player_key(p)),
{
    let ghost m = models(players@);
    let ghost key = |p: PlayerModel| player_key(p);
    let mut rest = players;
    let mut out: Vec<Player> = Vec::new();
    proof {
        lemma_filter_keeps_all(m, |p: PlayerModel| p.id >= 0u32);
        assert(keyed_prefix(m, key, 0) =~= Seq::<PlayerModel>::empty());
    }
    let mut k: u32 = 0;
    while k < 256
        invariant
            k <= 256,
            m == models(players@),
            key == (|p: PlayerModel| player_key(p)),
            models(out@) == keyed_prefix(m, key, k as nat),
            models(rest@) == m.filter(|p: PlayerModel| p.id >= k),
        decreases 256 - k,
    {
        let ghost r0 = models(rest@);
        let ghost o0 = models(out@);
        let ghost eq_k = |p: PlayerModel| p.id == k;
        let ghost ne_k = |p: PlayerModel| p.id != k;
        let mut i: usize = 0;
        let ghost mut j: int = 0;
        proof {
            assert(models(rest@).take(0) =~= r0.take(0).filter(ne_k)) by {
                reveal(Seq::filter);
            }
            assert(models(rest@).skip(0) =~= r0.skip(0));
            assert(r0.take(0).filter(eq_k) =~= Seq::<PlayerModel>::empty()) by {
                reveal(Seq::filter);
            }
            assert(models(out@) =~= o0 + r0.take(0).filter(eq_k));
        }
        while i < rest.len()
            invariant
                0 <= j <= r0.len(),
                i <= rest.len(),
                rest.len() - i == r0.len() - j,
                eq_k == (|p: PlayerModel| p.id == k),
                ne_k == (|p: PlayerModel| p.id != k),
                models(rest@).take(i as int) == r0.take(j).filter(ne_k),
                models(rest@).skip(i as int) == r0.skip(j),
                models(out@) == o0 + r0.take(j).filter(eq_k),
            decreases rest.len() - i,
        {
            let ghost before = models(rest@);
            proof {
                assert(before.skip(i as int)[0] == before[i as int]);
                assert(r0.skip(j)[0] == r0[j]);
                lemma_filter_take_step(r0, eq_k, j);
                lemma_filter_take_step(r0, ne_k, j);
            }
            if rest[i].id as u32 == k {
                let p = rest.remove(i);
                proof {
                    assert(models(rest@).take(i as int) =~= before.take(i as int));
                    assert(models(rest@).skip(i as int) =~= before.skip(i as int).drop_first());
                    assert(before.skip(i as int).drop_first() =~= r0.skip(j).drop_first());
                    assert(r0.skip(j).drop_first() =~= r0.skip(j + 1));
                    lemma_models_push(out@, p);
                    assert(p.model() == r0[j]);
                }
                out.push(p);
                proof {
                    assert(models(out@) =~= o0 + r0.take(j + 1).filter(eq_k));
                }
            } else {
                i = i + 1;
                proof {
                    assert(models(rest@).take(i as int) =~= before.take(i - 1).push(before[i - 1]));
                    assert(models(rest@).skip(i as int) =~= before.skip(i - 1).drop_first());
                    assert(r0.skip(j).drop_first() =~= r0.skip(j + 1));
                }
            }
            proof {
                j = j + 1;
            }
        }
        proof {
            assert(j == r0.len());
            assert(r0.take(j) =~= r0);
            assert(models(rest@).take(i as int) =~= models(rest@));
            let ge_k = |p: PlayerModel| p.id >= k;
            lemma_filter_filter(m, ge_k, eq_k);
            lemma_filter_filter(m, ge_k, ne_k);
            lemma_filter_congruent(m, |p: PlayerModel| ge_k(p) && eq_k(p), |x: PlayerModel| key(x) == (k + 1) - 1);
            lemma_filter_congruent(m, |p: PlayerModel| ge_k(p) && ne_k(p), |p: PlayerModel| p.id >= (k + 1) as u32);
        }
        k = k + 1;
    }
    proof {
        lemma_filter_keeps_none(m, |p: PlayerModel| p.id >= k);
        assert(models(rest@).len() == 0);
    }
    out
}

/// The revealed seeds ordered by player id; equal ids keep their order.
fn sort_seeds_by_id(seeds: &Vec<(PlayerId, [u8; 16])>) -> (sorted: Vec<(PlayerId, [u8; 16])>)
    ensures
        sorted@ == stable_sort_by_key(seeds@, |e: (PlayerId, [u8; 16])| seed_key(e)),
{
    let ghost key = |e: (PlayerId, [u8; 16])| seed_key(e);
    let mut out: Vec<(PlayerId, [u8; 16])> = Vec::new();
    proof {
        assert(keyed_prefix(seeds@, key, 0) =~= Seq::<(PlayerId, [u8; 16])>::empty());
    }
    let mut k: u32 = 0;
    while k < 256
        invariant
            k <= 256,
            key == (|e: (PlayerId, [u8; 16])| seed_key(e)),
            out@ == keyed_prefix(seeds@, key, k as nat),
        decreases 256 - k,
    {
        let ghost o0 = out@;
        let ghost eq_k = |e: (PlayerId, [u8; 16])| key(e) == (k + 1) - 1;
        proof {
            assert(seeds@.take(0).filter(eq_k) =~= Seq::<(PlayerId, [u8; 16])>::empty()) by {
                reveal(Seq::filter);
            }
            assert(out@ =~= o0 + seeds@.take(0).filter(eq_k));
        }
        let mut i: usize = 0;
        while i < seeds.len()
            invariant
                i <= seeds.len(),
                eq_k == (|e: (PlayerId, [u8; 16])| key(e) == (k + 1) - 1),
                key == (|e: (PlayerId, [u8; 16])| seed_key(e)),
                out@ == o0 + seeds@.take(i as int).filter(eq_k),
            decreases seeds.len() - i,
        {
            proof {
                lemma_filter_take_step(seeds@, eq_k, i as int);
            }
            let e = seeds[i];
            if e.0 as u32 == k {
                out.push(e);
            }
            i = i + 1;
            proof {
                assert(out@ =~= o0 + seeds@.take(i as int).filter(eq_k));
            }
        }
        proof {
            assert(seeds@.take(i as int) =~= seeds@);
        }
        k = k + 1;
    }
    out
}

/// The exclusive or of the revealed seeds, written twice: the deck's seed.
fn combine_seeds(seeds: &Vec<(PlayerId, [u8; 16])>) -> (seed: [u8; 32])
    ensures
        seed@ == combined_seed(seeds@),
{
    let mut seed = [0u8; 32];
    let mut t: usize = 0;
    assert forall|j: int| 0 <= j < 32 implies seed@[j] == xor_of_seeds(seeds@.take(0), j % 16) by {
        assert(seeds@.take(0).len() == 0);
    }
    while t < seeds.len()
        invariant
            t <= seeds.len(),
            forall|j: int| 0 <= j < 32 ==> seed@[j] == xor_of_seeds(seeds@.take(t as int), j % 16),
        decreases seeds.len() - t,
    {
        let s = seeds[t].1;
        proof {
            assert(seeds@.take(t + 1).drop_last() =~= seeds@.take(t as int));
        }
        let mut i: usize = 0;
        while i < 16
            invariant
                t < seeds.len(),
                i <= 16,
                s == seeds@[t as int].1,
                seeds@.take(t + 1).drop_last() == seeds@.take(t as int),
                forall|j: int|
                    0 <= j < 32 ==> seed@[j] == if j % 16 < i {
                        xor_of_seeds(seeds@.take(t + 1), j % 16)
                    } else {
                        xor_of_seeds(seeds@.take(t as int), j % 16)
                    },
            decreases 16 - i,
        {
            seed[i] = seed[i] ^ s[i];
            seed[i + 16] = seed[i + 16] ^ s[i];
            i = i + 1;
        }
        t = t + 1;
    }
    assert(seeds@.take(t as int) =~= seeds@);
    assert(seed@ =~= combined_seed(seeds@));
    seed
}

/// Whether every player is ready.
fn all_players_ready(players: &Vec<Player>) -> (ready: bool)
    ensures
        ready == all_ready(models(players@)),
{
    let mut i: usize = 0;
    while i < players.len()
        invariant
            i <= players.len(),
            forall|j: int| 0 <= j < i ==> #[trigger] models(players@)[j].ready,
        decreases players.len() - i,
    {
        if !players[i].ready {
            assert(!models(players@)[i as int].ready);
            return false;
        }
        i = i + 1;
    }
    true
}

/// Whether every player has stood or gone bust.
fn all_players_done(players: &Vec<Player>) -> (done: bool)
    requires
        done_check_fits(models(players@)),
    ensures
        done == all_done(models(players@)),
{
    let mut i: usize = 0;
    while i < players.len()
        invariant
            i <= players.len(),
            done_check_fits(models(players@)),
            forall|j: int| 0 <= j < i ==> #[trigger] is_done(models(players@)[j]),
        decreases players.len() - i,
    {
        if !players[i].stood {
            assert(score_fits(models(players@)[i as int].hand));
            let score = calculate_score(&players[i].hand);
            if score <= 21 {
                assert(!is_done(models(players@)[i as int]));
                return false;
            }
        }
        assert(is_done(models(players@)[i as int]));
        i = i + 1;
    }
    true
}

/// Whether `id` has already revealed a seed.
fn seed_revealed(seeds: &Vec<(PlayerId, [u8; 16])>, id: PlayerId) -> (found: bool)
    ensures
        found == has_revealed(seeds@, id),
{
    let mut i: usize = 0;
    while i < seeds.len()
        invariant
            i <= seeds.len(),
            forall|j: int| 0 <= j < i ==> seeds@[j].0 != id,
        decreases seeds.len() - i,
    {
        if seeds[i].0 == id {
            return true;
        }
        i = i + 1;
    }
    false
}

/// Whether the dealer, given `deck[start]` as the hidden card, can draw
/// until 17 without the deck running out.
fn dealer_can_draw_from(hand: &Vec<Card>, deck: &Vec<Card>, start: usize) -> (ok: bool)
    ensures
        ok == (start < deck@.len() && dealer_can_draw(
            hand@.push(deck@[start as int]),
            deck@.skip(start + 1),
        )),
{
    if start >= deck.len() {
        return false;
    }
    let mut h = with_card(hand, deck[start]);
    let mut k: usize = start + 1;
    let ghost target = dealer_can_draw(h@, deck@.skip(k as int));
    loop
        invariant
            start < k <= deck@.len(),
            dealer_can_draw(h@, deck@.skip(k as int)) == target,
            target == dealer_can_draw(hand@.push(deck@[start as int]), deck@.skip(start + 1)),
        decreases deck@.len() - k,
    {
        if !hand_fits(&h) {
            return false;
        }
        let score = calculate_score(&h);
        if score >= 17 {
            return true;
        }
        if k == deck.len() {
            return false;
        }
        proof {
            assert(deck@.skip(k as int)[0] == deck@[k as int]);
            assert(deck@.skip(k as int).drop_first() =~= deck@.skip(k + 1));
        }
        h.push(deck[k]);
        k = k + 1;
    }
}

impl State {
    /// The seeds revealed so far, with the id of the player who revealed each.
    pub open spec fn revealed(&self) -> Seq<(PlayerId, [u8; 16])> {
        self.revealed_seeds@
    }

    pub open spec fn model(&self) -> TableModel {
        TableModel {
            phase: self.phase,
            deck: self.deck@,
            dealer_hand: self.dealer_hand@,
            players: models(self.players@),
            revealed: self.revealed(),
            local_player_id: self.local_player_id,
        }
    }

    /// An empty table in the lobby, seen by the node of `local_player_id`.
    pub fn new(local_player_id: PlayerId) -> (state: Self)
        ensures
            state.model() == (TableModel {
                phase: GamePhase::Lobby,
                deck: Seq::empty(),
                dealer_hand: Seq::empty(),
                players: Seq::empty(),
                revealed: Seq::empty(),
                local_player_id,
            }),
    {
        let state = Self {
            phase: GamePhase::Lobby,
            deck: Vec::new(),
            dealer_hand: Vec::new(),
            players: Vec::new(),
            revealed_seeds: Vec::new(),
            local_player_id,
        };
        assert(models(state.players@) =~= Seq::<PlayerModel>::empty());
        state
    }

    /// Orders the players and the revealed seeds by id, so that every node
    /// holds them in the same order whatever order the joins arrived in, and
    /// deals the deck seeded by the exclusive or of the seeds.
    fn init_deck(&mut self)
        ensures
            final(self).model() == seat_and_deal(old(self).model()),
    {
        let mut players: Vec<Player> = Vec::new();
        std::mem::swap(&mut players, &mut self.players);
        self.players = sort_players_by_id(players);
        let sorted = sort_seeds_by_id(&self.revealed_seeds);
        self.revealed_seeds = sorted;
        let final_seed = combine_seeds(&self.revealed_seeds);
        self.deck = generate_deck(final_seed);
    }

    /// The opening deal: two cards to each player, one round at a time, then
    /// the dealer's first card.
    fn start(&mut self)
        requires
            old(self).deck@.len() >= 2 * old(self).players@.len() + 1,
        ensures
            final(self).model() == deal(old(self).model()),
    {
        let ghost t0 = self.model();
        let n = self.players.len();
        let mut i: usize = 0;
        while i < n
            invariant
                n == self.players.len(),
                n == t0.players.len(),
                i <= n,
                t0.deck.len() >= 2 * n + 1,
                self.deck@ == t0.deck.skip(i as int),
                self.phase == t0.phase,
                self.dealer_hand@ == t0.dealer_hand,
                self.revealed() == t0.revealed,
                self.local_player_id == t0.local_player_id,
                forall|j: int|
                    0 <= j < n ==> #[trigger] models(self.players@)[j] == if j < i {
                        PlayerModel { hand: t0.players[j].hand.push(t0.deck[j]), ..t0.players[j] }
                    } else {
                        t0.players[j]
                    },
            decreases n - i,
        {
            let ghost d = self.deck@;
            let card = self.deck.remove(0);
            proof {
                assert(self.deck@ =~= t0.deck.skip(i + 1));
                assert(card == d[0] && d[0] == t0.deck[i as int]);
            }
            let ghost before = self.players@;
            self.players[i].hand.push(card);
            proof {
                assert forall|j: int| 0 <= j < n implies #[trigger] models(self.players@)[j] == if j < i + 1 {
                    PlayerModel { hand: t0.players[j].hand.push(t0.deck[j]), ..t0.players[j] }
                } else {
                    t0.players[j]
                } by {
                    assert(models(before)[j] == before[j].model());
                    assert(models(self.players@)[j] == self.players@[j].model());
                    if j != i {
                        assert(self.players@[j] == before[j]);
                    } else {
                        assert(self.players@[j].hand@ == before[j].hand@.push(card));
                        assert(self.players@[j].model() == PlayerModel {
                            hand: before[j].model().hand.push(card),
                            ..before[j].model()
                        });
                    }
                }
            }
            i = i + 1;
        }
        let mut i: usize = 0;
        while i < n
            invariant
                n == self.players.len(),
                n == t0.players.len(),
                i <= n,
                t0.deck.len() >= 2 * n + 1,
                self.deck@ == t0.deck.skip(n + i),
                self.phase == t0.phase,
                self.dealer_hand@ == t0.dealer_hand,
                self.revealed() == t0.revealed,
                self.local_player_id == t0.local_player_id,
                forall|j: int|
                    0 <= j < n ==> #[trigger] models(self.players@)[j] == if j < i {
                        PlayerModel {
                            hand: t0.players[j].hand.push(t0.deck[j]).push(t0.deck[n + j]),
                            ..t0.players[j]
                        }
                    } else {
                        PlayerModel { hand: t0.players[j].hand.push(t0.deck[j]), ..t0.players[j] }
                    },
            decreases n - i,
        {
            let ghost d = self.deck@;
            let card = self.deck.remove(0);
            proof {
                assert(self.deck@ =~= t0.deck.skip(n + i + 1));
                assert(card == d[0] && d[0] == t0.deck[n + i]);
            }
            let ghost before = self.players@;
            self.players[i].hand.push(card);
            proof {
                assert forall|j: int| 0 <= j < n implies #[trigger] models(self.players@)[j] == if j < i + 1 {
                    PlayerModel {
                        hand: t0.players[j].hand.push(t0.deck[j]).push(t0.deck[n + j]),
                        ..t0.players[j]
                    }
                } else {
                    PlayerModel { hand: t0.players[j].hand.push(t0.deck[j]), ..t0.players[j] }
                } by {
                    assert(models(before)[j] == before[j].model());
                    assert(models(self.players@)[j] == self.players@[j].model());
                    if j != i {
                        assert(self.players@[j] == before[j]);
                    } else {
                        assert(self.players@[j].hand@ == before[j].hand@.push(card));
                        assert(self.players@[j].model() == PlayerModel {
                            hand: before[j].model().hand.push(card),
                            ..before[j].model()
                        });
                    }
                }
            }
            i = i + 1;
        }
        let card = self.deck.remove(0);
        self.dealer_hand.push(card);
        proof {
            assert(self.deck@ =~= t0.deck.skip(2 * n + 1));
            assert(models(self.players@) =~= deal(t0).players);
        }
    }

    /// The dealer's turn: the hidden card, then cards until 17 or more.
    fn play_dealer_turn(&mut self)
        requires
            dealer_turn_ok(old(self).model()),
        ensures
            final(self).model() == dealer_turn(old(self).model()),
    {
        let ghost t0 = self.model();
        let card = self.deck.remove(0);
        self.dealer_hand.push(card);
        proof {
            assert(self.deck@ =~= t0.deck.drop_first());
        }
        let ghost target = dealer_draws(self.dealer_hand@, self.deck@);
        loop
            invariant
                dealer_can_draw(self.dealer_hand@, self.deck@),
                dealer_draws(self.dealer_hand@, self.deck@) == target,
                t0.deck.len() > 0,
                target == dealer_draws(t0.dealer_hand.push(t0.deck[0]), t0.deck.drop_first()),
                self.phase == t0.phase,
                models(self.players@) == t0.players,
                self.revealed() == t0.revealed,
                self.local_player_id == t0.local_player_id,
            ensures
                self.dealer_hand@ == target.0,
                self.deck@ == target.1,
                self.phase == t0.phase,
                models(self.players@) == t0.players,
                self.revealed() == t0.revealed,
                self.local_player_id == t0.local_player_id,
            decreases self.deck@.len(),
        {
            let score = calculate_score(&self.dealer_hand);
            if score >= 17 {
                break;
            }
            let ghost d = self.deck@;
            let card = self.deck.remove(0);
            proof {
                assert(self.deck@ =~= d.drop_first());
            }
            self.dealer_hand.push(card);
        }
    }


    /// Whether `apply` can apply `event` here without running out of cards
    /// or overflowing a score.
    pub fn can_apply(&self, event: &GameEvent) -> (ok: bool)
        ensures
            ok == can_apply(self.model(), event@),
    {
        let ghost t = self.model();
        match (self.phase, event) {
            (GamePhase::Betting, GameEvent::TurnReady { player_id }) => {
                match find_player(&self.players, *player_id) {
                    None => true,
                    Some(i) => {
                        proof {
                            lemma_first_with_id_unique(t.players, *player_id, i as int);
                        }
                        let ghost t1 = with_player(t, i as int, PlayerModel { ready: true, ..t.players[i as int] });
                        let mut all = true;
                        let mut j: usize = 0;
                        while j < self.players.len()
                            invariant
                                j <= self.players.len(),
                                t1.players.len() == self.players.len(),
                                t1 == with_player(t, i as int, PlayerModel { ready: true, ..t.players[i as int] }),
                                t.players == models(self.players@),
                                i < self.players.len(),
                                all == (forall|m: int| 0 <= m < j ==> #[trigger] t1.players[m].ready),
                                t == self.model(),
                                self.phase == GamePhase::Betting,
                                event@ == (EventModel::TurnReady { player_id: *player_id }),
                                has_id(t.players, *player_id),
                                i as int == first_with_id(t.players, *player_id),
                            decreases self.players.len() - j,
                        {
                            if j != i && !self.players[j].ready {
                                assert(!t1.players[j as int].ready);
                                all = false;
                            }
                            j = j + 1;
                        }
                        let n = self.players.len();
                        let len = self.deck.len();
                        assert(len >= 1 ==> ((len - 1) / 2 >= n <==> len >= 2 * n + 1)) by (nonlinear_arith);
                        !all || (len >= 1 && (len - 1) / 2 >= n)
                    },
                }
            },
            (GamePhase::Playing, GameEvent::PlayerAction { player_id, action }) => {
                match find_player(&self.players, *player_id) {
                    None => true,
                    Some(i) => {
                        proof {
                            lemma_first_with_id_unique(t.players, *player_id, i as int);
                            assert(t.players[i as int] == self.players@[i as int].model());
                        }
                        if !self.players[i].stood {
                            if !hand_fits(&self.players[i].hand) {
                                return false;
                            }
                            if calculate_score(&self.players[i].hand) > 21 {
                                return true;
                            }
                        } else {
                            return true;
                        }
                        let hit = match action {
                            Action::Hit { .. } => true,
                            _ => false,
                        };
                        let stand = match action {
                            Action::Stand => true,
                            _ => false,
                        };
                        if hit && self.deck.len() == 0 {
                            return false;
                        }
                        let ghost t1 = after_action(t, i as int, *action);
                        // The mover's hand and whether it stands once the action is made.
                        let mut own_hand: Vec<Card> = Vec::new();
                        let mut own_stood = stand;
                        if hit {
                            own_hand = with_card(&self.players[i].hand, self.deck[0]);
                            if !hand_fits(&own_hand) {
                                return false;
                            }
                            own_stood = calculate_score(&own_hand) > 21;
                        }
                        proof {
                            assert(own_stood == t1.players[i as int].stood);
                            if hit {
                                assert(own_hand@ == t1.players[i as int].hand);
                            } else {
                                assert(self.players@[i as int].hand@ == t1.players[i as int].hand);
                            }
                        }
                        let mut j: usize = 0;
                        while j < self.players.len()
                            invariant
                                j <= self.players.len(),
                                i < self.players.len(),
                                t == self.model(),
                                self.phase == GamePhase::Playing,
                                event@ == (EventModel::PlayerAction { player_id: *player_id, action: *action }),
                                has_id(t.players, *player_id),
                                i as int == first_with_id(t.players, *player_id),
                                !is_done(t.players[i as int]),
                                score_fits(t.players[i as int].hand),
                                t1 == after_action(t, i as int, *action),
                                t.players == models(self.players@),
                                t.deck == self.deck@,
                                hit == (*action is Hit),
                                hit ==> self.deck@.len() > 0 && score_fits(own_hand@),
                                own_stood == t1.players[i as int].stood,
                                hit ==> own_hand@ == t1.players[i as int].hand,
                                !hit ==> self.players@[i as int].hand@ == t1.players[i as int].hand,
                                t1.players.len() == self.players.len(),
                                forall|m: int| 0 <= m < j ==> #[trigger] is_done(t1.players[m]),
                                forall|m: int|
                                    0 <= m < j && !t1.players[m].stood ==> score_fits(
                                        #[trigger] t1.players[m].hand,
                                    ),
                            decreases self.players.len() - j,
                        {
                            proof {
                                assert(t.players[j as int] == self.players@[j as int].model());
                            }
                            let stood = if j == i { own_stood } else { self.players[j].stood };
                            if !stood {
                                let score: u8;
                                if j == i && hit {
                                    score = calculate_score(&own_hand);
                                } else {
                                    proof {
                                        assert(t1.players[j as int].hand == self.players@[j as int].hand@);
                                    }
                                    if !hand_fits(&self.players[j].hand) {
                                        return false;
                                    }
                                    score = calculate_score(&self.players[j].hand);
                                }
                                if score <= 21 {
                                    assert(!is_done(t1.players[j as int]));
                                    return true;
                                }
                            }
                            j = j + 1;
                        }
                        let start: usize = if hit { 1 } else { 0 };
                        proof {
                            if hit {
                                assert(t1.deck =~= self.deck@.drop_first());
                                if self.deck@.len() >= 2 {
                                    assert(t1.deck.drop_first() =~= self.deck@.skip(2));
                                }
                            } else {
                                assert(t1.deck == self.deck@);
                                if self.deck@.len() >= 1 {
                                    assert(t1.deck.drop_first() =~= self.deck@.skip(1));
                                }
                            }
                        }
                        dealer_can_draw_from(&self.dealer_hand, &self.deck, start)
                    },
                }
            },
            _ => true,
        }
    }

    /// Applies an event to the table.
    /// `Ok(Some(event))`: broadcast `event` on the mesh; `Ok(None)`: nothing
    /// to broadcast; `Err(reason)`: the event is not valid here and is ignored.
    pub fn apply(&mut self, event: GameEvent) -> (answer: Result<Option<GameEvent>, &'static str>)
        requires
            can_apply(old(self).model(), event@),
        ensures
            final(self).model() == next(old(self).model(), event@),
            reply_of(answer) == reply(old(self).model(), event@),
            answer is Err ==> final(self).model() == old(self).model(),
            final(self).local_player_id == old(self).local_player_id,
            phase_rank(final(self).phase) == phase_rank(old(self).phase) || phase_rank(
                final(self).phase,
            ) == phase_rank(old(self).phase) + 1,
    {
        let ghost t0 = self.model();
        let ghost e0 = event@;
        proof {
            law_phase_moves_forward(t0, e0);
        }
        match (self.phase, event) {
            (GamePhase::Lobby, GameEvent::Join { player_id, hash, .. }) => {
                if find_player(&self.players, player_id).is_some() {
                    return Err(ERR_PLAYER_PRESENT);
                }
                let p = Player::new_from_hash(player_id, hash);
                proof {
                    lemma_models_push(self.players@, p);
                }
                self.players.push(p);
                Ok(None)
            },
            (GamePhase::Lobby, GameEvent::Leave { player_id }) => {
                remove_players_with_id(&mut self.players, player_id);
                Ok(None)
            },
            (GamePhase::Lobby, GameEvent::RequestSync { .. }) => {
                let smallest = smallest_id(&self.players);
                let answers = match smallest {
                    Some(v) => v == self.local_player_id,
                    None => false,
                };
                proof {
                    if is_smallest_id(t0.players, t0.local_player_id) {
                        let v = smallest->0;
                        assert(v <= t0.local_player_id);
                        let w = choose|w: int| 0 <= w < t0.players.len() && t0.players[w].id == v;
                        assert(t0.local_player_id <= t0.players[w].id);
                    }
                }
                if answers {
                    let players = roster_of(&self.players);
                    Ok(Some(GameEvent::SyncResponse { players }))
                } else {
                    Ok(None)
                }
            },
            (GamePhase::Lobby, GameEvent::SyncResponse { players }) => {
                merge_roster_into(&mut self.players, &players);
                Ok(None)
            },
            (GamePhase::Lobby, GameEvent::StartGame) => {
                if self.players.len() < 2 {
                    return Err(ERR_TOO_FEW_PLAYERS);
                }
                self.phase = GamePhase::Revealing;
                Ok(None)
            },
            (GamePhase::Revealing, GameEvent::RevealSeed { player_id, seed }) => {
                let i = match find_player(&self.players, player_id) {
                    Some(i) => i,
                    None => {
                        return Err(ERR_UNKNOWN_PLAYER);
                    },
                };
                proof {
                    lemma_first_with_id_unique(t0.players, player_id, i as int);
                    assert(t0.players[i as int] == self.players@[i as int].model());
                }
                if !Player::verify_hash(seed, self.players[i].hash) {
                    return Err(ERR_SEED_MISMATCH);
                }
                if seed_revealed(&self.revealed_seeds, player_id) {
                    return Err(ERR_SEED_REVEALED);
                }
                self.revealed_seeds.push((player_id, seed));
                if self.revealed_seeds.len() == self.players.len() {
                    self.init_deck();
                    self.phase = GamePhase::Betting;
                }
                Ok(None)
            },
            (GamePhase::Betting, GameEvent::TurnReady { player_id }) => {
                let i = match find_player(&self.players, player_id) {
                    Some(i) => i,
                    None => {
                        return Err(ERR_UNKNOWN_PLAYER);
                    },
                };
                proof {
                    lemma_first_with_id_unique(t0.players, player_id, i as int);
                }
                let ghost before = self.players@;
                self.players[i].ready = true;
                proof {
                    lemma_models_update(before, i as int, self.players@[i as int]);
                    assert(self.players@ =~= before.update(i as int, self.players@[i as int]));
                }
                if all_players_ready(&self.players) {
                    self.start();
                    self.phase = GamePhase::Playing;
                }
                Ok(None)
            },
            (GamePhase::Playing, GameEvent::PlayerAction { player_id, action }) => {
                let i = match find_player(&self.players, player_id) {
                    Some(i) => i,
                    None => {
                        return Err(ERR_UNKNOWN_PLAYER);
                    },
                };
                proof {
                    lemma_first_with_id_unique(t0.players, player_id, i as int);
                    assert(t0.players[i as int] == self.players@[i as int].model());
                }
                if self.players[i].stood || calculate_score(&self.players[i].hand) > 21 {
                    return Err(ERR_TURN_OVER);
                }
                let ghost before = self.players@;
                match action {
                    Action::Hit { .. } => {
                        let card = self.deck.remove(0);
                        self.players[i].add_card(card, false);
                        if calculate_score(&self.players[i].hand) > 21 {
                            self.players[i].stood = true;
                        }
                        proof {
                            lemma_models_update(before, i as int, self.players@[i as int]);
                            assert(self.players@ =~= before.update(i as int, self.players@[i as int]));
                            assert(self.deck@ =~= t0.deck.drop_first());
                        }
                    },
                    Action::Stand => {
                        self.players[i].stood = true;
                        proof {
                            lemma_models_update(before, i as int, self.players@[i as int]);
                            assert(self.players@ =~= before.update(i as int, self.players@[i as int]));
                        }
                    },
                    _ => {},
                }
                assert(self.model() == after_action(t0, i as int, action));
                if all_players_done(&self.players) {
                    self.play_dealer_turn();
                    self.phase = GamePhase::Done;
                }
                Ok(None)
            },
            (GamePhase::Playing, GameEvent::Leave { player_id }) => {
                remove_players_with_id(&mut self.players, player_id);
                Ok(None)
            },
            _ => Err(ERR_WRONG_PHASE),
        }
    }
}

} // verus!
