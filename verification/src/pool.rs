use self::errors::{ConfigError, PoolError};
use self::instance::{larger, smaller, Config, PoolModel, State};
use self::sync::{AsyncPool, SyncPool};
use vstd::prelude::*;

pub mod errors;
pub mod guard;
pub mod handler;
pub mod instance;
pub mod laws;
pub mod placement;
pub mod run;
pub mod signal;
pub mod stall;
pub mod stats;
pub mod sync;
pub mod traits;
pub mod util;
pub mod worker;

verus! {

/// How a pool over `shards` shards starts: with this configuration and this state, or not
/// at all.
pub open spec fn started(
    cfg: Config,
    shards: usize,
    r: Result<(Config, PoolModel), PoolError>,
) -> bool {
    let most = smaller(
        larger(larger(cfg.max_consumers as int, cfg.min_consumers as int), 1),
        shards as int,
    );
    let least = smaller(larger(cfg.min_consumers as int, 1), most);
    match r {
        Ok((c, m)) => {
            &&& shards > 0
            &&& cfg.stall_takeover is Some ==> most >= 2
            &&& c == (Config {
                min_consumers: least as usize,
                max_consumers: most as usize,
                batch_size: larger(cfg.batch_size as int, 1) as usize,
                ..cfg
            })
            &&& m == PoolModel::initial(shards as int, least as usize)
        },
        Err(PoolError::ReceiverEmpty) => shards == 0,
        Err(PoolError::Config(e)) => {
            &&& shards > 0
            &&& cfg.stall_takeover is Some
            &&& most < 2
            &&& e == ConfigError::StallTakeoverNeedsSpareWorker { effective_max: most as usize }
        },
        Err(PoolError::Spawn(_)) => false,
    }
}

/// A pool of threads over `shards` shards that has no workers yet, and the configuration
/// that it goes by. `H` is the handle of a worker.
pub fn sync_pool_slot<H>(cfg: Config, shards: usize) -> (r: Result<
    (Config, SyncPool<H>),
    PoolError,
>)
    ensures
        match r {
            Ok((c, p)) => {
                &&& p.wf()
                &&& p.workers() == Seq::<H>::empty()
                &&& c.wf()
                &&& started(cfg, shards, Ok((c, p@)))
            },
            Err(e) => started(cfg, shards, Err(e)),
        },
{
    match cfg.plan(shards) {
        Ok(c) => {
            let state = State::new(shards, c.min_consumers);
            Ok((c, SyncPool::new(state)))
        },
        Err(e) => Err(e),
    }
}

/// A pool of tasks over `shards` shards that has no workers yet, and the configuration
/// that it goes by. `H` is the handle of a worker.
pub fn async_pool_slot<H>(cfg: Config, shards: usize) -> (r: Result<
    (Config, AsyncPool<H>),
    PoolError,
>)
    ensures
        match r {
            Ok((c, p)) => {
                &&& p.wf()
                &&& p.workers() == Seq::<H>::empty()
                &&& c.wf()
                &&& started(cfg, shards, Ok((c, p@)))
            },
            Err(e) => started(cfg, shards, Err(e)),
        },
{
    match cfg.plan(shards) {
        Ok(c) => {
            let state = State::new(shards, c.min_consumers);
            Ok((c, AsyncPool::new(state)))
        },
        Err(e) => Err(e),
    }
}

} // verus!
