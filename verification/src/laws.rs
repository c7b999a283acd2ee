//! Properties of the table that hold across events and across nodes.
use vstd::prelude::*;
use vstd::multiset::Multiset;
use crate::cards::{Card, hand_score};
use crate::engine::{EngineModel, Notice, announced_hash, user_step};
use crate::player::{PlayerId, PlayerModel};
use crate::protocol::{Action, EventModel, GamePhase, UserAction};
use crate::seqs::{keyed_prefix, keys_unique, law_sort_forgets_arrival_order, lemma_sort_keeps_elements, stable_sort_by_key, lemma_filter_congruent, lemma_filter_unique_key};
use crate::table::{phase_rank, seat_and_deal, TableModel, after_action, all_ready, combined_seed, deal, first_with_id, is_smallest_id, lemma_first_with_id_exists, lemma_first_with_id_unique, is_done, merge_roster, next, player_key, seed_key, has_revealed, can_apply, dealer_can_draw, dealer_draws, dealer_turn, dealer_turn_ok, all_done, reply, with_player, xor_of_seeds};

verus! {

/// An event never takes the table back to an earlier phase, and moves it
/// on by at most one phase.
pub proof fn law_phase_moves_forward(t: TableModel, e: EventModel)
    ensures
        phase_rank(next(t, e).phase) == phase_rank(t.phase) || phase_rank(next(t, e).phase)
            == phase_rank(t.phase) + 1,
{
}

/// A refused event leaves the table as it was.
pub proof fn law_refused_event_changes_nothing(t: TableModel, e: EventModel)
    requires
        reply(t, e) is Err,
    ensures
        next(t, e) == t,
{
}

/// Of the nodes of a room, which hold the same lobby, only the one whose
/// player has the smallest id answers a `RequestSync`: two nodes with
/// different ids never both answer.
pub proof fn law_one_sync_answer(t1: TableModel, t2: TableModel, e: EventModel)
    requires
        t1.phase == GamePhase::Lobby,
        t1.phase == t2.phase,
        t1.players == t2.players,
        t1.local_player_id != t2.local_player_id,
        e is RequestSync,
    ensures
        !(reply(t1, e) matches Ok(Some(_)) && reply(t2, e) matches Ok(Some(_))),
{
    if is_smallest_id(t1.players, t1.local_player_id) && is_smallest_id(t2.players, t2.local_player_id) {
        let i = choose|i: int| 0 <= i < t1.players.len() && t1.players[i].id == t1.local_player_id;
        let j = choose|j: int| 0 <= j < t2.players.len() && t2.players[j].id == t2.local_player_id;
        assert(t1.local_player_id <= t1.players[j].id);
        assert(t2.local_player_id <= t2.players[i].id);
    }
}

proof fn lemma_xor_swap(a: u8, b: u8, c: u8)
    ensures
        (a ^ b) ^ c == (a ^ c) ^ b,
{
    assert((a ^ b) ^ c == (a ^ c) ^ b) by (bit_vector);
}

/// Taking one seed out of the exclusive or, wherever it stands.
proof fn lemma_xor_without(rv: Seq<(PlayerId, [u8; 16])>, j: int, k: int)
    requires
        0 <= j < rv.len(),
    ensures
        xor_of_seeds(rv, k) == xor_of_seeds(rv.remove(j), k) ^ rv[j].1[k],
    decreases rv.len(),
{
    if j == rv.len() - 1 {
        assert(rv.remove(j) =~= rv.drop_last());
    } else {
        lemma_xor_without(rv.drop_last(), j, k);
        assert(rv.drop_last().remove(j) =~= rv.remove(j).drop_last());
        assert(rv.remove(j).last() == rv.last());
        lemma_xor_swap(xor_of_seeds(rv.drop_last().remove(j), k), rv[j].1[k], rv.last().1[k]);
    }
}

/// The deck seed does not depend on the order in which the seeds were
/// revealed: the exclusive or of the same seeds, in any order, is the same.
pub proof fn law_seed_forgets_reveal_order(r1: Seq<(PlayerId, [u8; 16])>, r2: Seq<(PlayerId, [u8; 16])>)
    requires
        r1.to_multiset() == r2.to_multiset(),
    ensures
        combined_seed(r1) == combined_seed(r2),
    decreases r1.len(),
{
    broadcast use vstd::seq_lib::group_to_multiset_ensures;

    if r1.len() == 0 {
        assert(r2.to_multiset().len() == 0);
        assert(r2.len() == 0);
        assert(r1 =~= r2);
    } else {
        let x = r1.last();
        let rest = r1.drop_last();
        assert(rest.push(x) =~= r1);
        assert(r2.to_multiset().count(x) > 0);
        assert(r2.contains(x));
        let j = choose|j: int| 0 <= j < r2.len() && r2[j] == x;
        assert(r2.remove(j).to_multiset() =~= r2.to_multiset().remove(x));
        assert(rest.to_multiset() =~= r2.remove(j).to_multiset());
        law_seed_forgets_reveal_order(rest, r2.remove(j));
        assert forall|k: int| 0 <= k < 32 implies combined_seed(r1)[k] == combined_seed(r2)[k] by {
            lemma_xor_without(r2, j, k % 16);
            assert(combined_seed(rest)[k] == combined_seed(r2.remove(j))[k]);
        }
        assert(combined_seed(r1) =~= combined_seed(r2));
    }
}

/// No two players at the table share an id.
pub open spec fn ids_unique(ps: Seq<PlayerModel>) -> bool {
    keys_unique(ps, |p: PlayerModel| player_key(p))
}

proof fn lemma_unique_filter<A>(s: Seq<A>, key: spec_fn(A) -> u8, p: spec_fn(A) -> bool)
    requires
        keys_unique(s, key),
    ensures
        keys_unique(s.filter(p), key),
    decreases s.len(),
{
    reveal(Seq::filter);
    if s.len() > 0 {
        let r = s.drop_last();
        assert(keys_unique(r, key));
        lemma_unique_filter(r, key, p);
        if p(s.last()) {
            let f = r.filter(p);
            assert forall|i: int| 0 <= i < f.len() implies key(f[i]) != key(s.last()) by {
                assert(f.contains(f[i]));
                r.lemma_filter_contains_rev(p, f[i]);
                let m = choose|m: int| 0 <= m < r.len() && r[m] == f[i];
                assert(key(s[m]) != key(s[s.len() - 1]));
            }
            assert(s.filter(p) == f.push(s.last()));
        }
    }
}

proof fn lemma_unique_keyed_prefix<A>(s: Seq<A>, key: spec_fn(A) -> u8, k: nat)
    requires
        keys_unique(s, key),
    ensures
        keys_unique(keyed_prefix(s, key, k), key),
        forall|i: int|
            0 <= i < keyed_prefix(s, key, k).len() ==> key(#[trigger] keyed_prefix(s, key, k)[i])
                < k,
    decreases k,
{
    broadcast use vstd::seq_lib::group_filter_ensures;

    if k > 0 {
        let kk = (k - 1) as nat;
        lemma_unique_keyed_prefix(s, key, kk);
        let a = keyed_prefix(s, key, kk);
        let q = |x: A| key(x) == k - 1;
        let v: int = k - 1;
        let p = |x: A| key(x) == v;
        lemma_filter_unique_key(s, key, v);
        lemma_filter_congruent(s, p, q);
        let f = s.filter(q);
        assert(f.len() <= 1);
        assert forall|i: int| 0 <= i < f.len() implies key(f[i]) == k - 1 by {
            s.lemma_filter_pred(q, i);
        }
        let c = keyed_prefix(s, key, k);
        assert(c == a + f);
        assert forall|i: int, j: int| 0 <= i < j < c.len() implies key(c[i]) != key(c[j]) by {
            if j < a.len() {
                assert(c[i] == a[i] && c[j] == a[j]);
            } else {
                assert(i < a.len());
                assert(key(a[i]) < kk);
                assert(c[j] == f[j - a.len()]);
            }
        }
        assert forall|i: int| 0 <= i < c.len() implies key(#[trigger] c[i]) < k by {
            if i < a.len() {
                assert(c[i] == a[i]);
            } else {
                assert(c[i] == f[i - a.len()]);
            }
        }
    }
}

proof fn lemma_unique_merge(ps: Seq<PlayerModel>, list: Seq<(PlayerId, [u8; 16])>)
    requires
        ids_unique(ps),
    ensures
        ids_unique(merge_roster(ps, list)),
    decreases list.len(),
{
    if list.len() > 0 {
        lemma_unique_merge(ps, list.drop_last());
    }
}

proof fn lemma_unique_same_ids(s1: Seq<PlayerModel>, s2: Seq<PlayerModel>)
    requires
        ids_unique(s1),
        s1.len() == s2.len(),
        forall|i: int| 0 <= i < s1.len() ==> s1[i].id == s2[i].id,
    ensures
        ids_unique(s2),
{
    assert forall|i: int, j: int| 0 <= i < j < s2.len() implies player_key(s2[i]) != player_key(s2[j]) by {
        assert(player_key(s1[i]) != player_key(s1[j]));
    }
}

/// Every event keeps the players' ids distinct: a player cannot join twice,
/// and a roster adds only players not yet seated.
pub proof fn law_ids_stay_unique(t: TableModel, e: EventModel)
    requires
        ids_unique(t.players),
    ensures
        ids_unique(next(t, e).players),
{
    let key = |p: PlayerModel| player_key(p);
    if reply(t, e) is Ok {
        match (t.phase, e) {
            (GamePhase::Lobby, EventModel::Leave { player_id }) => {
                lemma_unique_filter(t.players, key, |p: PlayerModel| p.id != player_id);
            },
            (GamePhase::Playing, EventModel::Leave { player_id }) => {
                lemma_unique_filter(t.players, key, |p: PlayerModel| p.id != player_id);
            },
            (GamePhase::Lobby, EventModel::SyncResponse { players }) => {
                lemma_unique_merge(t.players, players);
            },
            (GamePhase::Revealing, EventModel::RevealSeed { player_id, seed }) => {
                lemma_unique_keyed_prefix(t.players, key, 256);
            },
            (GamePhase::Betting, EventModel::TurnReady { player_id }) => {
                lemma_first_with_id_exists(t.players, player_id);
                let i = first_with_id(t.players, player_id);
                let t1 = with_player(t, i, PlayerModel { ready: true, ..t.players[i] });
                lemma_unique_same_ids(t.players, t1.players);
                if all_ready(t1.players) {
                    lemma_unique_same_ids(t1.players, deal(t1).players);
                }
            },
            (GamePhase::Playing, EventModel::PlayerAction { player_id, action }) => {
                lemma_first_with_id_exists(t.players, player_id);
                let t1 = after_action(t, first_with_id(t.players, player_id), action);
                lemma_unique_same_ids(t.players, t1.players);
            },
            _ => {},
        }
    }
}

/// Once the last seed is revealed, every node of the room holds the same
/// seating and the same deck, whatever order the joins and the reveals
/// reached it in.
pub proof fn law_same_deal_on_every_node(t1: TableModel, t2: TableModel, e: EventModel)
    requires
        t1.phase == GamePhase::Revealing,
        t2.phase == GamePhase::Revealing,
        e is RevealSeed,
        ids_unique(t1.players),
        ids_unique(t2.players),
        t1.players.to_multiset() == t2.players.to_multiset(),
        keys_unique(t1.revealed, |r: (PlayerId, [u8; 16])| seed_key(r)),
        keys_unique(t2.revealed, |r: (PlayerId, [u8; 16])| seed_key(r)),
        t1.revealed.to_multiset() == t2.revealed.to_multiset(),
        t1.revealed.len() + 1 == t1.players.len(),
        reply(t1, e) is Ok,
        reply(t2, e) is Ok,
    ensures
        next(t1, e).phase == GamePhase::Betting,
        next(t1, e).players == next(t2, e).players,
        next(t1, e).deck == next(t2, e).deck,
        next(t1, e).revealed == next(t2, e).revealed,
{
    broadcast use vstd::seq_lib::group_to_multiset_ensures;

    let (id, seed) = match e {
        EventModel::RevealSeed { player_id, seed } => (player_id, seed),
        _ => arbitrary(),
    };
    let x = (id, seed);
    let key = |r: (PlayerId, [u8; 16])| seed_key(r);
    let r1 = t1.revealed.push(x);
    let r2 = t2.revealed.push(x);
    assert(t1.players.to_multiset().len() == t1.players.len());
    assert(t2.players.to_multiset().len() == t2.players.len());
    assert(t2.revealed.to_multiset().len() == t2.revealed.len());
    assert(r1.to_multiset() =~= t1.revealed.to_multiset().insert(x));
    assert(r2.to_multiset() =~= t2.revealed.to_multiset().insert(x));
    assert(keys_unique(r1, key)) by {
        assert forall|i: int| 0 <= i < t1.revealed.len() implies key(r1[i]) != key(x) by {
            assert(!has_revealed(t1.revealed, id));
        }
    }
    assert(keys_unique(r2, key)) by {
        assert forall|i: int| 0 <= i < t2.revealed.len() implies key(r2[i]) != key(x) by {
            assert(!has_revealed(t2.revealed, id));
        }
    }
    law_sort_forgets_arrival_order(r1, r2, key);
    law_sort_forgets_arrival_order(t1.players, t2.players, |p: PlayerModel| player_key(p));
}

/// The dealer draws from the top of the deck, in order, and stops with 17 or
/// more.
pub proof fn law_dealer_stands_on_17(hand: Seq<Card>, deck: Seq<Card>)
    requires
        dealer_can_draw(hand, deck),
    ensures
        hand_score(dealer_draws(hand, deck).0) >= 17,
        dealer_draws(hand, deck).1.len() <= deck.len(),
        dealer_draws(hand, deck).0 == hand + deck.take(deck.len() - dealer_draws(hand, deck).1.len()),
        dealer_draws(hand, deck).1 == deck.skip(deck.len() - dealer_draws(hand, deck).1.len()),
    decreases deck.len(),
{
    if hand_score(hand) >= 17 {
        assert(hand + deck.take(0) =~= hand);
        assert(deck.skip(0) =~= deck);
    } else {
        let h1 = hand.push(deck[0]);
        let d1 = deck.drop_first();
        law_dealer_stands_on_17(h1, d1);
        let k = d1.len() - dealer_draws(h1, d1).1.len();
        assert(h1 + d1.take(k) =~= hand + deck.take(k + 1));
        assert(d1.skip(k) =~= deck.skip(k + 1));
    }
}

/// When a round ends, the dealer's hand is worth 17 or more.
pub proof fn law_round_ends_with_dealer_on_17(t: TableModel, e: EventModel)
    requires
        t.phase != GamePhase::Done,
        next(t, e).phase == GamePhase::Done,
        can_apply(t, e),
    ensures
        hand_score(next(t, e).dealer_hand) >= 17,
{
    match (t.phase, e) {
        (GamePhase::Playing, EventModel::PlayerAction { player_id, action }) => {
            let t1 = after_action(t, first_with_id(t.players, player_id), action);
            law_dealer_stands_on_17(t1.dealer_hand.push(t1.deck[0]), t1.deck.drop_first());
        },
        _ => {},
    }
}

/// The cards in the players' main hands.
pub open spec fn hands_cards(ps: Seq<PlayerModel>) -> Multiset<Card>
    decreases ps.len(),
{
    if ps.len() == 0 {
        Multiset::empty()
    } else {
        hands_cards(ps.drop_last()).add(ps.last().hand.to_multiset())
    }
}

/// Every card on the table: the deck, the dealer's hand and the players' hands.
pub open spec fn table_cards(t: TableModel) -> Multiset<Card> {
    t.deck.to_multiset().add(t.dealer_hand.to_multiset()).add(hands_cards(t.players))
}

proof fn lemma_hands_update(ps: Seq<PlayerModel>, i: int, p: PlayerModel)
    requires
        0 <= i < ps.len(),
    ensures
        forall|c: Card|
            #[trigger] hands_cards(ps.update(i, p)).count(c) + ps[i].hand.to_multiset().count(c)
                == hands_cards(ps).count(c) + p.hand.to_multiset().count(c),
    decreases ps.len(),
{
    let q = ps.update(i, p);
    assert(hands_cards(q) == hands_cards(q.drop_last()).add(q.last().hand.to_multiset()));
    assert(hands_cards(ps) == hands_cards(ps.drop_last()).add(ps.last().hand.to_multiset()));
    if i == ps.len() - 1 {
        assert(q.drop_last() =~= ps.drop_last());
        assert(q.last() == p);
    } else {
        lemma_hands_update(ps.drop_last(), i, p);
        assert(q.drop_last() =~= ps.drop_last().update(i, p));
        assert(q.last() == ps.last());
        assert forall|c: Card| #[trigger] hands_cards(q).count(c) + ps[i].hand.to_multiset().count(c)
            == hands_cards(ps).count(c) + p.hand.to_multiset().count(c) by {
            assert(hands_cards(ps.drop_last().update(i, p)).count(c) + ps.drop_last()[i].hand.to_multiset().count(c)
                == hands_cards(ps.drop_last()).count(c) + p.hand.to_multiset().count(c));
        }
    }
}

proof fn lemma_hands_deal(old_ps: Seq<PlayerModel>, new_ps: Seq<PlayerModel>, d: Seq<Card>, m: int)
    requires
        old_ps.len() == new_ps.len(),
        0 <= m <= old_ps.len(),
        d.len() >= 2 * old_ps.len() + 1,
        forall|j: int|
            0 <= j < old_ps.len() ==> (#[trigger] new_ps[j]).hand == old_ps[j].hand.push(d[j]).push(
                d[old_ps.len() + j],
            ),
    ensures
        hands_cards(new_ps.take(m)) == hands_cards(old_ps.take(m)).add(d.take(m).to_multiset()).add(
            d.subrange(old_ps.len() as int, old_ps.len() + m).to_multiset(),
        ),
    decreases m,
{
    broadcast use vstd::seq_lib::group_to_multiset_ensures;

    let n = old_ps.len() as int;
    if m == 0 {
        assert(hands_cards(new_ps.take(0)) =~= Multiset::empty());
        assert(hands_cards(old_ps.take(0)) =~= Multiset::empty());
        assert(d.take(0).to_multiset() =~= Multiset::empty());
        assert(d.subrange(n, n).to_multiset() =~= Multiset::empty());
    } else {
        lemma_hands_deal(old_ps, new_ps, d, m - 1);
        assert(new_ps.take(m).drop_last() =~= new_ps.take(m - 1));
        assert(old_ps.take(m).drop_last() =~= old_ps.take(m - 1));
        assert(d.take(m) =~= d.take(m - 1).push(d[m - 1]));
        assert(d.subrange(n, n + m) =~= d.subrange(n, n + m - 1).push(d[n + m - 1]));
        let h = old_ps[m - 1].hand;
        assert(h.push(d[m - 1]).push(d[n + m - 1]).to_multiset() =~= h.to_multiset().insert(
            d[m - 1],
        ).insert(d[n + m - 1]));
        assert(hands_cards(new_ps.take(m)) =~= hands_cards(old_ps.take(m)).add(
            d.take(m).to_multiset(),
        ).add(d.subrange(n, n + m).to_multiset()));
    }
}

proof fn lemma_deal_keeps_cards(t: TableModel)
    requires
        t.deck.len() >= 2 * t.players.len() + 1,
    ensures
        table_cards(deal(t)) == table_cards(t),
{
    broadcast use vstd::seq_lib::group_to_multiset_ensures;

    let n = t.players.len() as int;
    let d = t.deck;
    let u = deal(t);
    lemma_hands_deal(t.players, u.players, d, n);
    assert(u.players.take(n) =~= u.players);
    assert(t.players.take(n) =~= t.players);
    assert(d =~= d.take(n) + d.subrange(n, 2 * n) + seq![d[2 * n]] + d.skip(2 * n + 1));
    vstd::seq_lib::lemma_multiset_commutative(d.take(n) + d.subrange(n, 2 * n) + seq![d[2 * n]], d.skip(2 * n + 1));
    vstd::seq_lib::lemma_multiset_commutative(d.take(n) + d.subrange(n, 2 * n), seq![d[2 * n]]);
    vstd::seq_lib::lemma_multiset_commutative(d.take(n), d.subrange(n, 2 * n));
    assert(seq![d[2 * n]].to_multiset() =~= Multiset::empty().insert(d[2 * n])) by {
        assert(seq![d[2 * n]] =~= Seq::<Card>::empty().push(d[2 * n]));
        assert(Seq::<Card>::empty().to_multiset() =~= Multiset::empty());
    }
    assert(u.dealer_hand.to_multiset() =~= t.dealer_hand.to_multiset().insert(d[2 * n]));
    assert(table_cards(u) =~= table_cards(t));
}

proof fn lemma_dealer_turn_keeps_cards(t: TableModel)
    requires
        dealer_turn_ok(t),
    ensures
        table_cards(dealer_turn(t)) == table_cards(t),
{
    broadcast use vstd::seq_lib::group_to_multiset_ensures;

    let h = t.dealer_hand.push(t.deck[0]);
    let d = t.deck.drop_first();
    law_dealer_stands_on_17(h, d);
    let k = d.len() - dealer_draws(h, d).1.len();
    vstd::seq_lib::lemma_multiset_commutative(h, d.take(k));
    vstd::seq_lib::lemma_multiset_commutative(d.take(k), d.skip(k));
    assert(d =~= d.take(k) + d.skip(k));
    assert(t.deck =~= seq![t.deck[0]] + d);
    vstd::seq_lib::lemma_multiset_commutative(seq![t.deck[0]], d);
    assert(seq![t.deck[0]].to_multiset() =~= Multiset::empty().insert(t.deck[0])) by {
        assert(seq![t.deck[0]] =~= Seq::<Card>::empty().push(t.deck[0]));
        assert(Seq::<Card>::empty().to_multiset() =~= Multiset::empty());
    }
    assert(table_cards(dealer_turn(t)) =~= table_cards(t));
}

/// Once the deck is dealt, cards only move: getting ready, playing and the
/// dealer's turn neither create nor lose a card.
pub proof fn law_cards_only_move(t: TableModel, e: EventModel)
    requires
        can_apply(t, e),
        e is TurnReady || e is PlayerAction,
    ensures
        table_cards(next(t, e)) == table_cards(t),
{
    broadcast use vstd::seq_lib::group_to_multiset_ensures;

    if reply(t, e) is Ok {
        match (t.phase, e) {
            (GamePhase::Betting, EventModel::TurnReady { player_id }) => {
                lemma_first_with_id_exists(t.players, player_id);
                let i = first_with_id(t.players, player_id);
                let p = PlayerModel { ready: true, ..t.players[i] };
                let t1 = with_player(t, i, p);
                lemma_hands_update(t.players, i, p);
                assert(hands_cards(t1.players) =~= hands_cards(t.players)) by {
                    assert forall|c: Card| hands_cards(t1.players).count(c) == hands_cards(t.players).count(c) by {
                        assert(hands_cards(t.players.update(i, p)).count(c) + t.players[i].hand.to_multiset().count(c)
                            == hands_cards(t.players).count(c) + p.hand.to_multiset().count(c));
                    }
                }
                assert(table_cards(t1) =~= table_cards(t));
                if all_ready(t1.players) {
                    lemma_deal_keeps_cards(t1);
                }
            },
            (GamePhase::Playing, EventModel::PlayerAction { player_id, action }) => {
                lemma_first_with_id_exists(t.players, player_id);
                let i = first_with_id(t.players, player_id);
                let t1 = after_action(t, i, action);
                let p0 = t.players[i];
                match action {
                    Action::Hit { .. } => {
                        let hand = p0.hand.push(t.deck[0]);
                        let p = PlayerModel { hand, stood: p0.stood || hand_score(hand) > 21, ..p0 };
                        lemma_hands_update(t.players, i, p);
                        let c0 = t.deck[0];
                        assert(t.deck.drop_first() =~= t.deck.remove(0));
                        assert(t.deck.drop_first().to_multiset() =~= t.deck.to_multiset().remove(c0));
                        assert(p.hand.to_multiset() =~= p0.hand.to_multiset().insert(c0));
                        assert forall|c: Card| table_cards(t1).count(c) == table_cards(t).count(c) by {
                            assert(hands_cards(t.players.update(i, p)).count(c) + t.players[i].hand.to_multiset().count(c)
                                == hands_cards(t.players).count(c) + p.hand.to_multiset().count(c));
                            assert(t.deck.to_multiset().count(c0) > 0);
                        }
                        assert(table_cards(t1) =~= table_cards(t));
                    },
                    Action::Stand => {
                        let p = PlayerModel { stood: true, ..p0 };
                        lemma_hands_update(t.players, i, p);
                        assert forall|c: Card| table_cards(t1).count(c) == table_cards(t).count(c) by {
                            assert(hands_cards(t.players.update(i, p)).count(c) + t.players[i].hand.to_multiset().count(c)
                                == hands_cards(t.players).count(c) + p.hand.to_multiset().count(c));
                        }
                        assert(table_cards(t1) =~= table_cards(t));
                    },
                    _ => {},
                }
                if all_done(t1.players) {
                    lemma_dealer_turn_keeps_cards(t1);
                }
            },
            _ => {},
        }
    }
}

/// Seating the players and dealing the deck once every seed is revealed
/// gives every node the same seating and the same deck, whatever order the
/// joins and the reveals reached it in.
pub proof fn law_seating_and_deck_forget_arrival_order(t1: TableModel, t2: TableModel)
    requires
        ids_unique(t1.players),
        ids_unique(t2.players),
        t1.players.to_multiset() == t2.players.to_multiset(),
        t1.revealed.to_multiset() == t2.revealed.to_multiset(),
    ensures
        seat_and_deal(t1).players == seat_and_deal(t2).players,
        seat_and_deal(t1).deck == seat_and_deal(t2).deck,
{
    let key = |e: (PlayerId, [u8; 16])| seed_key(e);
    law_sort_forgets_arrival_order(t1.players, t2.players, |p: PlayerModel| player_key(p));
    lemma_sort_keeps_elements(t1.revealed, key);
    lemma_sort_keeps_elements(t2.revealed, key);
    law_seed_forgets_reveal_order(stable_sort_by_key(t1.revealed, key), stable_sort_by_key(t2.revealed, key));
}

/// After an accepted move, if every player has stood or is over 21, the
/// round is over: the dealer has played to 17 or more and the phase is Done.
/// Whatever the move was, a bust included.
pub proof fn law_round_ends_when_everyone_is_done(t: TableModel, e: EventModel)
    requires
        t.phase == GamePhase::Playing,
        e is PlayerAction,
        can_apply(t, e),
        reply(t, e) is Ok,
        forall|i: int|
            0 <= i < next(t, e).players.len() ==> #[trigger] next(t, e).players[i].stood
                || hand_score(next(t, e).players[i].hand) > 21,
    ensures
        next(t, e).phase == GamePhase::Done,
        hand_score(next(t, e).dealer_hand) >= 17,
{
    let (id, action) = match e {
        EventModel::PlayerAction { player_id, action } => (player_id, action),
        _ => arbitrary(),
    };
    lemma_first_with_id_exists(t.players, id);
    let t1 = after_action(t, first_with_id(t.players, id), action);
    if !all_done(t1.players) {
        let i = choose|i: int| 0 <= i < t1.players.len() && !is_done(t1.players[i]);
        assert(next(t, e).players[i].stood || hand_score(next(t, e).players[i].hand) > 21);
    }
    law_dealer_stands_on_17(t1.dealer_hand.push(t1.deck[0]), t1.deck.drop_first());
}

/// The round ends only when every player has stood or is over 21.
pub proof fn law_round_ends_only_when_everyone_is_done(t: TableModel, e: EventModel)
    requires
        t.phase == GamePhase::Playing,
        next(t, e).phase == GamePhase::Done,
    ensures
        forall|i: int|
            0 <= i < next(t, e).players.len() ==> #[trigger] next(t, e).players[i].stood
                || hand_score(next(t, e).players[i].hand) > 21,
{
    let (id, action) = match e {
        EventModel::PlayerAction { player_id, action } => (player_id, action),
        _ => arbitrary(),
    };
    let t1 = after_action(t, first_with_id(t.players, id), action);
    assert forall|i: int| 0 <= i < next(t, e).players.len() implies #[trigger] next(
        t,
        e,
    ).players[i].stood || hand_score(next(t, e).players[i].hand) > 21 by {
        assert(is_done(t1.players[i]));
    }
}

/// A hit deals the top card of the deck to the player who asked for it and
/// to no one else; if it takes the hand over 21 the player's turn is over.
pub proof fn law_hit_deals_the_top_card(t: TableModel, id: PlayerId, split: bool, i: int)
    requires
        t.phase == GamePhase::Playing,
        0 <= i < t.players.len(),
        t.players[i].id == id,
        forall|j: int| 0 <= j < i ==> t.players[j].id != id,
        can_apply(t, EventModel::PlayerAction { player_id: id, action: Action::Hit { split } }),
        reply(t, EventModel::PlayerAction { player_id: id, action: Action::Hit { split } }) is Ok,
    ensures
        ({
            let n = next(t, EventModel::PlayerAction { player_id: id, action: Action::Hit { split } });
            &&& n.players.len() == t.players.len()
            &&& n.players[i].hand == t.players[i].hand.push(t.deck[0])
            &&& (hand_score(n.players[i].hand) > 21 ==> n.players[i].stood)
            &&& forall|j: int| 0 <= j < t.players.len() && j != i ==> #[trigger] n.players[j] == t.players[j]
        }),
{
    lemma_first_with_id_unique(t.players, id, i);
}

/// The table after applying `events` one after the other.
pub open spec fn apply_all(t: TableModel, events: Seq<EventModel>) -> TableModel
    decreases events.len(),
{
    if events.len() == 0 {
        t
    } else {
        next(apply_all(t, events.drop_last()), events.last())
    }
}

/// Whatever the user does, bets aside, the node's own table ends up as the
/// events it broadcasts make it: the other nodes, applying the same events,
/// stay in step with it.
pub proof fn law_own_table_follows_broadcast(m: EngineModel, a: UserAction)
    requires
        !(a is PlaceBet),
        user_step(m, a).1 is Ok,
    ensures
        user_step(m, a).0.table == apply_all(m.table, user_step(m, a).1->Ok_0.to_mesh),
{
    reveal_with_fuel(apply_all, 3);
    let t = m.table;
    let id = t.local_player_id;
    match a {
        UserAction::JoinRoom { room_id } => {
            let join = EventModel::Join { player_id: id, room_id, hash: announced_hash(t) };
            let events = user_step(m, a).1->Ok_0.to_mesh;
            assert(events.drop_last() =~= seq![join]);
            assert(seq![join].drop_last() =~= Seq::<EventModel>::empty());
        },
        UserAction::CreateRoom { room_id } => {
            let join = EventModel::Join { player_id: id, room_id, hash: announced_hash(t) };
            assert(seq![join].drop_last() =~= Seq::<EventModel>::empty());
        },
        UserAction::StartGame => {
            if m.is_creator {
                assert(seq![EventModel::StartGame].drop_last() =~= Seq::<EventModel>::empty());
            }
        },
        UserAction::ConfirmReady => {
            let ready = EventModel::TurnReady { player_id: id };
            assert(seq![ready].drop_last() =~= Seq::<EventModel>::empty());
        },
        UserAction::Play(action) => {
            let play = EventModel::PlayerAction { player_id: id, action };
            assert(seq![play].drop_last() =~= Seq::<EventModel>::empty());
        },
        UserAction::Quit => {
            let leave = EventModel::Leave { player_id: id };
            assert(seq![leave].drop_last() =~= Seq::<EventModel>::empty());
        },
        _ => {},
    }
}

/// A move that the table accepts is applied to the node's own table and
/// broadcast, as exactly that one event.
pub proof fn law_accepted_move_is_broadcast(m: EngineModel, action: Action)
    requires
        can_apply(m.table, EventModel::PlayerAction { player_id: m.table.local_player_id, action }),
        reply(m.table, EventModel::PlayerAction { player_id: m.table.local_player_id, action }) is Ok,
    ensures
        ({
            let play = EventModel::PlayerAction { player_id: m.table.local_player_id, action };
            &&& user_step(m, UserAction::Play(action)).1 is Ok
            &&& user_step(m, UserAction::Play(action)).1->Ok_0.to_mesh == seq![play]
            &&& user_step(m, UserAction::Play(action)).1->Ok_0.notice is None
            &&& user_step(m, UserAction::Play(action)).0.table == next(m.table, play)
        }),
{
}

/// A bet comes out of the local player's fishes and nothing else changes:
/// the first player with the local id, if it has at least `amount` fishes,
/// loses `amount` of them and bets `amount`; every other player, the rest
/// of the table and the mesh are untouched.
pub proof fn law_bet_is_the_local_players(m: EngineModel, amount: u16, i: int)
    requires
        0 <= i < m.table.players.len(),
        m.table.players[i].id == m.table.local_player_id,
        forall|k: int| 0 <= k < i ==> m.table.players[k].id != m.table.local_player_id,
    ensures
        ({
            let (m2, r) = user_step(m, UserAction::PlaceBet { amount });
            let p = m.table.players[i];
            &&& r is Ok
            &&& r->Ok_0.to_mesh.len() == 0
            &&& m2.table.players.len() == m.table.players.len()
            &&& m2.table.phase == m.table.phase
            &&& m2.table.deck == m.table.deck
            &&& m2.table.dealer_hand == m.table.dealer_hand
            &&& m2.table.revealed == m.table.revealed
            &&& m2.table.local_player_id == m.table.local_player_id
            &&& forall|j: int| 0 <= j < m.table.players.len() && j != i ==> #[trigger] m2.table.players[j] == m.table.players[j]
            &&& p.fishes >= amount ==> m2.table.players[i] == (PlayerModel {
                fishes: (p.fishes - amount) as u16,
                bet: amount,
                ..p
            }) && r->Ok_0.notice is None
            &&& p.fishes < amount ==> m2.table.players[i] == p && r->Ok_0.notice == Some(
                Notice::NotEnoughFishes,
            )
        }),
{
    lemma_first_with_id_unique(m.table.players, m.table.local_player_id, i);
}

/// When no player has the local id, a bet changes nothing.
pub proof fn law_bet_without_local_player(m: EngineModel, amount: u16)
    requires
        forall|k: int| 0 <= k < m.table.players.len() ==> m.table.players[k].id != m.table.local_player_id,
    ensures
        user_step(m, UserAction::PlaceBet { amount }).0 == m,
        user_step(m, UserAction::PlaceBet { amount }).1 is Ok,
        user_step(m, UserAction::PlaceBet { amount }).1->Ok_0.to_mesh.len() == 0,
{
}

} // verus!
