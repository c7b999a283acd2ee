//! Game logic of a peer-to-peer blackjack table played over a mesh network.
//!
//! The library holds the cards and their scoring, the players and their seed
//! commitments, the replicated table state machine that every node applies
//! the same events to, and the decisions of the local engine that turns user
//! choices and mesh events into events to broadcast.

pub mod cards;
pub mod crypto;
pub mod player;
pub mod protocol;
pub mod seqs;
pub mod table;
pub mod state;
pub mod engine;
pub mod laws;
