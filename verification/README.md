# hel

Bounded channels for threads and tasks, sharded channels, and pools of workers that read
them. The logic is verified with Verus; locks, threads, tasks and clocks are ordinary Rust
around it.

## Layout

- `src/` is the verified library.
  - `ring` is the bounded ring of cells addressed by sequence number.
  - `print` prints errors without the items that they carry.
  - `waiters`, `shim` and `stack` hold the wait list, the waker cell, and turned vectors.
  - `internal_channel` is the channel: its state, blocking and awaited sends and receives,
    batches, handles, and its laws.
  - `hybrid` is the channel whose threads and tasks wait in one line.
  - `shard` holds sharded channels: in turn, by key, by group, and one sender and one
    receiver per shard.
  - `pool` holds the rules of a worker pool: who owns which shard, how many workers run,
    where shards are placed, and what becomes of items whose handler panics.
  - `helper` drains channels.
- `app/` drives the library with threads and tasks.
- `tests/` runs it.

## How the library is used

Whoever operates on a channel has its state for itself for the time of one call, behind a
lock. An operation that has to wait is a value with a `step` or `poll` function: it says what
it asks for (spin, yield, park, look at the clock), and is told what came of it. Whom an
operation has decided to wake is collected in the state and handed out by `take_woken`, so
that the caller wakes after it has let go of the lock.

## What is trusted

- `shard::mpmc::hash::xxh3_64` calls `xxhash_rust::xxh3::xxh3_64`, whose result is taken to
  be a function of the bytes.
- `shard::mpmc::hash::cpu_count` calls `num_cpus::get`, which is taken to be at least one.
- `print` calls what `std::fmt` offers to print a value: `Formatter::write_str`, `write!`,
  `Formatter::debug_struct`, `DebugStruct::field` and `DebugStruct::finish`. Nothing is claimed
  of them.
