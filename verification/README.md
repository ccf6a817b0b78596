# ninjo

The decision core of a settlement simulation, written in Verus: a camp of
ten people who pay upkeep, weigh what to do next, and answer the player's
postings — with every function's behaviour stated as a contract and proved.

## Layout

- `src/sim.rs` — the world: people, parties, the quest board, the feed, the
  purses, and the one dispatch every errand goes out through.
- `src/people.rs`, `src/traits.rs`, `src/stores.rs`, `src/constants.rs` — the
  roster, the trait vocabulary and its arithmetic, regard between people, and
  the tuning drawer.
- `src/autonomy.rs` — the scorer: candidates, terms, the one decision
  function, and carrying a decision out.
- `src/asks.rs`, `src/answers.rs`, `src/ledger.rs` — postings, the standing
  rates, hearing, answering, and the wage.
- `src/needs.rs` — upkeep, shortfalls and the camp line.
- `src/meters.rs`, `src/lens.rs`, `src/attention.rs`, `src/camp.rs`,
  `src/clock.rs` — what a screen reads: chips and their faces, the read-path
  onto the world, the feed, and the words for the camp and the clock.
- `src/economy.rs`, `src/compliance.rs` — the median, the attentive player's
  rules, and how the cast answers a ladder of offers.
- `tests/` — scenarios on hand-built worlds with the shipped constants.

The laws the library keeps are public proof functions named `lemma_…`
beside the functions they speak of.
