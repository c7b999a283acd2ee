# bjle

Blackjack over a mesh network: every node of a room keeps its own copy of
the table and applies the same events to it.

- `src/` is the verified library:
  - `cards`: cards, blackjack scoring and the seeded deck;
  - `player`: players and their seed commitments (SHA-256);
  - `protocol`: the events nodes exchange and the user's choices;
  - `table`: the mathematical model of a table and of what each event does;
  - `state`: the table itself, whose `apply` is proved to follow the model;
  - `engine`: what a node decides on each mesh event or user choice;
  - `laws`: properties across events and nodes (phases move forward, ids stay
    unique, every node deals the same deck, cards are only moved, the dealer
    stands on 17, ...);
  - `crypto`: the calls into sha2, rand and rand_chacha;
  - `seqs`: facts about filtering and stable ordering of sequences.
- `app/` runs the engine with tokio channels and holds serde forms of the
  messages.
- `tests/` exercises the library on concrete games.
