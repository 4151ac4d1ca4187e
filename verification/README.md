# ForgeKV

A persistent key-value database, written in Verus: the logic is in the library under `src/`, and
every function of it is verified against its contract. The programs around it, which read and write
sockets and files, are in `app/`.

| Module | What it holds |
|---|---|
| `protocol`, `command` | The frames of the wire protocol, requests and responses |
| `store` | Sharded storage of entries that may expire |
| `persistence` | The write-ahead log, snapshots, compaction, recovery and the database over them |
| `replication` | The messages and the decisions of leaders and followers |
| `cluster` | Static membership and consistent hashing |
| `server`, `client`, `cli` | What is answered to each request, and what is done with each response |
| `config`, `error`, `metrics` | Settings, errors with their texts, counters |
| `time`, `text`, `wire`, `hash`, `order`, `checksum`, `buffer` | The parts that the others rest on |

Laws that relate several functions are public proof functions whose names start with `law_`. They
stand beside the functions they are about, or in a `laws.rs` of their module. What a restart finds
again is in `persistence/restart.rs`.

The library trusts a few functions that it does not verify: those of the `bytes` crate that it holds
byte buffers with, `crc32fast::hash`, and a handful of the standard library. Each has a doc comment
that says what is taken for granted.
