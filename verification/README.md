# microbenchmarks

The decision-making core of a suite of BFT state-machine-replication
microbenchmarks, written in Verus and proved against its contracts.

`src/` is the verified library:

- `tolerance` — the `3f + 1` fault model and its quorums.
- `cluster`, `placeholders` — the deployment planner: round-robin placement
  of replicas and clients on named machines under per-machine caps, and the
  `${name}` substitution that fills each machine's compose template.
- `config_entry`, `test_config`, `settings` — the address book, the test and
  benchmark settings read from TOML, and the strict numeric settings.
- `wire`, `bytes` — the compact big-endian message encoding.
- `preemptive`, `ycsb`, `table` — the replicated key-value services.
- `ordered_map`, `mempool`, `digests` — the data structures and workloads of
  the collection benchmarks.
- `transport`, `pacing`, `logs` — step functions for the transport loops and
  the client's request schedule, and the log rollover rule.

`app/` holds what the verifier does not see: the deployment generator's
`main`, file and environment reading, the serde and clap copies of the
library's configuration types, and the drivers that perform the I/O the
step functions ask for.
