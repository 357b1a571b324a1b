# glm-evoke

The verified core of a local-first pipeline for GLM checkpoints: it ingests safetensors shards,
seals the weights in a write-once arena, plans an observable forward pass, compares mirrored
executions, and decides which tool calls may go out over the message bus.

The library is written in Verus. Every function states in its contract what it returns or
changes; the laws that relate several functions are proof functions of their own.

## Layout

- `src/config.rs`: dimensions of a model and the rules that a configuration must meet
- `src/worm.rs`: the write-once, read-many arena
- `src/keys.rs`, `src/shard.rs`, `src/transform.rs`: tensor names, shards, shape checks and the
  splits of the fused matrices
- `src/ingest.rs`: from mapped shards to sealed layers; `src/checkpoint_laws.rs`,
  `src/grouping_laws.rs` and `src/capacity_laws.rs` hold what is proved of a checkpoint from end to
  end
- `src/graph.rs`, `src/evoke.rs`: the execution graph and the plan of a forward pass
- `src/telemetry.rs`: execution records and their numbers
- `src/dual_mirror.rs`: traces, their hashes, the convergence of two executions and what follows
  from it; `src/hash_laws.rs` proves that a hash covers every field
- `src/json.rs`, `src/nats_node.rs`: JSON values and the adapter for tool calls
- `src/digest.rs`, `src/text.rs`, `src/error.rs`: digests, texts and errors
- `app/`: files, tasks, floating point and the message bus around the library

## What is trusted

Outside code is called through small functions whose contracts are believed: reading a safetensors
file and its header, SHA-256, hexadecimal text, the text of a JSON string and `String::push`. Each
says in its documentation what it claims.
