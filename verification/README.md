# openbook_simulation

Simulates Openbook v2 on a Solana cluster: market makers quote on every
configured market, a keeper cranks the markets' event heaps, and the
confirmations of the sent transactions are counted and reported.

The library under `src/` is verified with Verus:

- `chain_data`: slots and account writes as they arrive from an RPC node, and
  the most recent live write of an account.
- `feed`, `filter`: which RPC updates become account writes and slot updates,
  which writes are stored, and when a stored write is handed on to a sink.
- `event_heap`, `crank_sink`, `instructions`: reading an event heap and
  planning the consume-events instruction that cranks it; encoding of the
  Openbook v2 and compute-budget instructions.
- `market_maker`: the orders of each quote and the quoting schedule.
- `openbook_config`, `cli`: the configuration file and command line.
- `stats`, `tpu`, `helpers`, `states`: counting and reporting, the sender's
  batching, blockhash polling and client rebuild decisions.

`app/` holds the program around it: argument parsing, file and network I/O,
and the async tasks that feed the library's state machines.
