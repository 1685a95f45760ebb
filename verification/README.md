# pallet_balance_game

A verified model of the balance game pallet. Accounts receive temporary balances,
accumulate onto them, settle them into their balances and into a running total, and win
when a balance, or the total, equals the configured magic number. Each kind of call may
run a limited number of times per block.

- `src/types.rs`: origins, errors, events, configuration.
- `src/keyed_map.rs`: the finite map that holds each storage item, with its walking order.
- `src/model.rs`: the state as mathematical values and what every call does to it.
- `src/pallet.rs`: the executable game, each call proved to do what the model says.
- `src/laws.rs`: properties across calls, proved over the model.
- `app/lib.rs`: the FRAME pallet that keeps the state in chain storage and runs the
  library's calls.
