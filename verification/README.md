# Five houses puzzle solver

A verified constraint-propagation solver for the five-houses logic puzzle.
Each house keeps, per category (color, nationality, brand, drink, pet,
number), the list of values still possible for it; clues strike values that
cannot be part of an answer until every clue is settled.

- `src/types.rs` – traits, houses and constraints.
- `src/model.rs` – the lists of a house as sequences, striking and narrowing.
- `src/house_ops.rs` – `contains`, `delete_trait`, `delete_all_except`.
- `src/direct.rs`, `src/location.rs` – checking one constraint.
- `src/cleanup.rs` – spreading values a house is settled on.
- `src/puzzle.rs` – the starting houses and the clues.
- `src/solver.rs` – one round, and rounds until settled or nothing changes.
- `src/narrowing.rs`, `src/solutions.rs`, `src/repeat.rs`, `src/laws.rs` –
  proofs that every step only strikes values, never rules out an answer
  that meets the clues, and that checking a constraint again changes
  nothing.
- `app/main.rs` – the program that solves the puzzle and prints it.
