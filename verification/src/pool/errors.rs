use crate::text::{decimal, push_decimal};
use vstd::prelude::*;
use vstd::string::StringExecFns;

verus! {

/// A pool configuration that cannot work.
#[derive(Debug, Clone, PartialEq, Eq, Structural)]
pub enum ConfigError {
    StallTakeoverNeedsSpareWorker {
        /// The most workers that the pool could have, given its shards.
        effective_max: usize,
    },
}

impl ConfigError {
    /// What is wrong, in words.
    pub open spec fn words(self) -> Seq<char> {
        match self {
            ConfigError::StallTakeoverNeedsSpareWorker { effective_max } => {
                "stall_takeover needs at least two effective workers, but max_consumers is "@
                    + decimal(effective_max as int)
                    + " after the shard-count cap: with one worker nobody can take over a stalled owner's shards"@
            },
        }
    }

    pub fn text(&self) -> (r: String)
        ensures
            r@ == self.words(),
    {
        match self {
            ConfigError::StallTakeoverNeedsSpareWorker { effective_max } => {
                let mut s = String::from_str(
                    "stall_takeover needs at least two effective workers, but max_consumers is ",
                );
                push_decimal(&mut s, *effective_max);
                s.append(
                    " after the shard-count cap: with one worker nobody can take over a stalled owner's shards",
                );
                s
            },
        }
    }
}

/// Why the system refused a thread.
#[derive(Debug, Clone, PartialEq, Eq)]
pub enum SpawnKind {
    WouldBlock,
    OutOfMemory,
    /// Another reason, by its name.
    Other(String),
}

impl SpawnKind {
    pub open spec fn name_view(self) -> Seq<char> {
        match self {
            SpawnKind::WouldBlock => "WouldBlock"@,
            SpawnKind::OutOfMemory => "OutOfMemory"@,
            SpawnKind::Other(s) => s@,
        }
    }

    pub fn name(&self) -> (r: &str)
        ensures
            r@ == self.name_view(),
    {
        match self {
            SpawnKind::WouldBlock => "WouldBlock",
            SpawnKind::OutOfMemory => "OutOfMemory",
            SpawnKind::Other(s) => s.as_str(),
        }
    }
}

/// Why a pool was not set up.
#[derive(Debug, Clone, PartialEq, Eq)]
pub enum PoolError {
    Config(ConfigError),
    ReceiverEmpty,
    Spawn(SpawnKind),
}

impl PoolError {
    /// What went wrong, in words.
    pub open spec fn words(self) -> Seq<char> {
        match self {
            PoolError::Config(err) => err.words(),
            PoolError::ReceiverEmpty => {
                "pool needs at least one shard receiver: with zero shards autodrain never fires and wait_stopping() hangs forever"@
            },
            PoolError::Spawn(kind) => {
                "the OS refused to create a pool thread ("@ + kind.name_view()
                    + "): thread limit (RLIMIT_NPROC / cgroup pids.max) or out of memory"@
            },
        }
    }

    pub fn text(&self) -> (r: String)
        ensures
            r@ == self.words(),
    {
        match self {
            PoolError::Config(err) => err.text(),
            PoolError::ReceiverEmpty => {
                String::from_str(
                    "pool needs at least one shard receiver: with zero shards autodrain never fires and wait_stopping() hangs forever",
                )
            },
            PoolError::Spawn(kind) => {
                let mut s = String::from_str("the OS refused to create a pool thread (");
                s.append(kind.name());
                s.append("): thread limit (RLIMIT_NPROC / cgroup pids.max) or out of memory");
                s
            },
        }
    }
}

} // verus!
