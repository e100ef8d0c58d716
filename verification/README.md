# career_sim

A simulator of a trainee's career, driven by Monte Carlo tree search, with
its rules verified by Verus.

- `src/career.rs`: stats, moods, actions and the career state; how each
  action changes the state, how support cards are placed each turn, and the
  starting state for a deck.
- `src/support_cards.rs`: the integer and text attributes of a support card,
  its label, pool eligibility and the distinct-character rule for decks.
- `src/mcts.rs`: the candidate actions, the search's choice rules, random
  playouts, one turn of the search and the run of a whole career.
- `src/chance.rs`: the random number generator and the calls into `rand`.
- `app/`: the program: reading `cards.json`, worker threads, the
  floating-point parts (training gains, ratings, confidence bounds) and the
  tier list.
