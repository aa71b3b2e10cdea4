# village_model

A simulation of village economies. Each day every village assigns its
worker-days to food, wood and construction, feeds and shelters its workers,
builds and repairs houses, and places orders on a shared market, which clears
them in a double auction with budget pruning.

- `src/` is the library, written in Verus: the village day, the auction, the
  strategies, the event log and the analyses of a run, each with its contract
  and proofs. `src/laws.rs` and `src/money.rs` hold the properties that span
  several operations.
- `tests/` runs the library on concrete cases.
- `app/` is the command-line program around the library: argument parsing,
  files, the terminal viewer, and the statistics computed in floating point.
