# raftstore_proxy

The part of a raft store that keeps an engine store in step: it forwards what raft applies
(commands, snapshots, new peers) to the engine store, and decides from the answers what is made
durable. An engine store in memory, its page storage and a raft log engine on top of it come
along.

- `src/` is the library. Every function has a contract that Verus checks; the modules whose names
  end in `_laws` hold what is true of several functions together.
- `tests/` runs the library: a small cluster in memory, and each part on its own.
- `app/` is the program around the library: engines, threads, allocation profiles and the C side.

The library hands out what has to be done (`DbWrite`, `QueryPlan`, `PostApply`, ...) and takes the
answers back; the program does it. Entries of the raft log are encoded by the `protobuf` and `raft`
crates, whose results the contracts name without describing them.
