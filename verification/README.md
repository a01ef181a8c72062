# experiments

Tools that train NEAT networks to trade on candle data and keep their
results on a Parse server.

- `src/` is the library, verified with Verus: the day keys of an evaluation
  period (`keys`), the period of a new applicant and the replay window and
  order grid of the simulations (`windows`), applicant kinds and their text
  (`applicant_type`), decimal text of numbers (`decimal`), object ids and
  cache keys (`hashing`), the Parse server's addresses, query defaults and
  result pages (`parse`), paging through the network list (`paging`), the
  slots of the rolling buffer (`ring`), the choice of a mating partner
  (`selection`), the training loop's decisions (`training`), the rewrite of
  a network's output nodes (`migration`), with the clock reading (`clock`).
- `app/` holds what runs around it: the REST calls, the JSON records, the
  floating-point simulations and the training and bookkeeping workflows.
- `tests/` runs the library on concrete values.
