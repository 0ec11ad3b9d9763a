# chain_bench

The core of a load bench for Ethereum chains, written in Rust and verified with
[Verus](https://github.com/verus-lang/verus).

- `src/` is the library. Every function in it has a contract, which Verus
  proves, but for the thin wrappers around calls into outside crates.
  - `primitives`: 256-bit integers, addresses and hashes.
  - `balance_tracker`: what is left of each account's ETH.
  - `gas`: the gas pricing that every transaction is built with.
  - `txn_builder`: transaction requests, and how they are built and signed.
  - `bench_config`: the configuration of a run.
  - `eth_amount`: amounts of ETH in text, and the wei that they come to.
  - `messages`: what actors tell each other.
  - `monitor`: what the monitor decides on each message.
  - `pending`: the transactions that wait for their receipts.
  - `block_monitor`: which blocks and receipts to fetch, and when to hold the producer back, as a
    state machine.
- `tests/` runs the library, with the outside crates linked.
- `app/` is ordinary Rust around the library: the configuration file, actors, channels and nodes.

Actors, nodes and channels appear in the library as handles, points in time as nanoseconds of a
monotonic clock. The library says what is to be done; `app/` does it.
