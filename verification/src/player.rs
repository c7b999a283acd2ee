//! Players at the table and their seed commitments.
use vstd::prelude::*;
use crate::cards::{Card, calculate_score, hand_score, score_fits};
use crate::crypto::{sha256, sha256_digest, random_seed};

verus! {

pub type PlayerId = u8;

/// Fishes (chips) every player sits down with.
pub const STARTING_FISHES: u16 = 1000;

/// A player at the table.
pub struct Player {
    pub id: PlayerId,
    pub hand: Vec<Card>,
    pub split_hand: Option<Vec<Card>>,
    pub fishes: u16,
    /// The player's current bet.
    pub bet: u16,
    /// Commitment to the player's secret seed: the first 16 bytes of its SHA-256.
    pub hash: [u8; 16],
    /// The player has placed a bet and is ready.
    pub ready: bool,
    /// The player has stood (or gone bust).
    pub stood: bool,
}

/// What a player's view shows of a player.
pub struct PlayerView {
    pub id: PlayerId,
    pub hand: Vec<Card>,
    pub score: u8,
    pub fishes: u16,
    pub stood: bool,
    pub is_bust: bool,
}

/// The mathematical value of a `Player`.
pub struct PlayerModel {
    pub id: PlayerId,
    pub hand: Seq<Card>,
    pub split_hand: Option<Seq<Card>>,
    pub fishes: u16,
    pub bet: u16,
    pub hash: [u8; 16],
    pub ready: bool,
    pub stood: bool,
}

/// The commitment to a seed: the first 16 bytes of its SHA-256 digest.
pub open spec fn commitment(seed: Seq<u8>) -> Seq<u8> {
    sha256(seed).take(16)
}

/// A player who has just joined: no cards, the starting fishes, no bet,
/// neither ready nor stood, committed to `hash`.
pub open spec fn fresh_player(id: PlayerId, hash: [u8; 16]) -> PlayerModel {
    PlayerModel {
        id,
        hand: Seq::empty(),
        split_hand: None,
        fishes: STARTING_FISHES,
        bet: 0,
        hash,
        ready: false,
        stood: false,
    }
}

impl Player {
    pub open spec fn model(&self) -> PlayerModel {
        PlayerModel {
            id: self.id,
            hand: self.hand@,
            split_hand: match self.split_hand {
                Some(h) => Some(h@),
                None => None,
            },
            fishes: self.fishes,
            bet: self.bet,
            hash: self.hash,
            ready: self.ready,
            stood: self.stood,
        }
    }

    /// Creates the local player: draws a random seed and commits to it.
    /// Returns the player and the seed, which the caller keeps to itself.
    pub fn new(id: PlayerId) -> (created: (Self, [u8; 16]))
        ensures
            created.0.model() == fresh_player(id, created.0.hash),
            created.0.hash@ == commitment(created.1@),
    {
        let seed = random_seed();
        let full_hash = sha256_digest(&seed);
        let mut hash = [0u8; 16];
        let mut i: usize = 0;
        while i < 16
            invariant
                i <= 16,
                full_hash@.len() == 32,
                forall|j: int| 0 <= j < i ==> hash@[j] == full_hash@[j],
            decreases 16 - i,
        {
            hash[i] = full_hash[i];
            i = i + 1;
        }
        assert(hash@ =~= full_hash@.take(16));
        (
            Self {
                id,
                hand: Vec::new(),
                split_hand: None,
                fishes: STARTING_FISHES,
                bet: 0,
                hash,
                ready: false,
                stood: false,
            },
            seed,
        )
    }

    /// Builds a player from what the mesh announced of it (someone else's Join).
    pub fn new_from_hash(id: PlayerId, hash: [u8; 16]) -> (player: Self)
        ensures
            player.model() == fresh_player(id, hash),
    {
        Self {
            id,
            hand: Vec::new(),
            split_hand: None,
            fishes: STARTING_FISHES,
            bet: 0,
            hash,
            ready: false,
            stood: false,
        }
    }

    /// Whether `seed` is the seed that `hash` commits to.
    pub fn verify_hash(seed: [u8; 16], hash: [u8; 16]) -> (ok: bool)
        ensures
            ok == (commitment(seed@) == hash@),
    {
        let full_hash = sha256_digest(&seed);
        let mut i: usize = 0;
        while i < 16
            invariant
                i <= 16,
                full_hash@.len() == 32,
                full_hash@ == sha256(seed@),
                forall|j: int| 0 <= j < i ==> full_hash@[j] == hash@[j],
            decreases 16 - i,
        {
            if full_hash[i] != hash[i] {
                assert(commitment(seed@)[i as int] != hash@[i as int]);
                return false;
            }
            i = i + 1;
        }
        assert(commitment(seed@) =~= hash@);
        true
    }

    /// Deals `card` to the player's main hand, or to the split hand when
    /// `split_hand` is set (the player must then have one).
    pub fn add_card(&mut self, card: Card, split_hand: bool)
        requires
            split_hand ==> old(self).split_hand is Some,
        ensures
            final(self).model() == (if split_hand {
                PlayerModel {
                    split_hand: Some(old(self).model().split_hand.unwrap().push(card)),
                    ..old(self).model()
                }
            } else {
                PlayerModel { hand: old(self).model().hand.push(card), ..old(self).model() }
            }),
    {
        if split_hand {
            match &mut self.split_hand {
                Some(h) => h.push(card),
                None => {},
            }
        } else {
            self.hand.push(card);
        }
    }

    /// What the table shows of the player: its main hand, the hand's score and
    /// whether it is bust.
    pub fn view(&self) -> (shown: PlayerView)
        requires
            score_fits(self.hand@),
        ensures
            shown.id == self.id,
            shown.hand@ == self.hand@,
            shown.score == hand_score(self.hand@),
            shown.fishes == self.fishes,
            shown.stood == self.stood,
            shown.is_bust == (hand_score(self.hand@) > 21),
    {
        let score = calculate_score(&self.hand);
        let mut hand: Vec<Card> = Vec::with_capacity(self.hand.len());
        let mut i: usize = 0;
        while i < self.hand.len()
            invariant
                i <= self.hand.len(),
                hand@ =~= self.hand@.take(i as int),
            decreases self.hand.len() - i,
        {
            hand.push(self.hand[i]);
            i = i + 1;
        }
        assert(hand@ =~= self.hand@);
        PlayerView {
            id: self.id,
            hand,
            score,
            fishes: self.fishes,
            stood: self.stood,
            is_bust: score > 21,
        }
    }
}

} // verus!
