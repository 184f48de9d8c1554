use super::instance::{larger, PoolModel, State, NONE};
use vstd::prelude::*;

verus! {

/// What a snapshot says of a shard.
#[derive(Debug, Clone, Copy, PartialEq, Eq, Structural)]
pub struct Shard {
    /// How many items wait in its queue.
    pub queued: usize,
    /// The worker that owns it, if any.
    pub owner: Option<usize>,
    /// The worker that should own it.
    pub desired: usize,
}

/// What a snapshot says of a worker.
#[derive(Debug, Clone, Copy, PartialEq, Eq, Structural)]
pub struct Worker {
    pub busy: bool,
    pub stalled: bool,
    pub beats: u64,
    /// The shard whose items it holds, if any.
    pub current_shard: Option<usize>,
}

/// A snapshot of a pool.
#[derive(Debug)]
pub struct Pool {
    pub processed: u64,
    pub handler_panics: u64,
    pub takeovers: u64,
    pub active: usize,
    pub max_active: usize,
    pub stopped: bool,
    pub channels_closed: bool,
    pub spawn_failures: u64,
    /// One row for each worker that a shard may point to, and for each that there ever was.
    pub workers: Vec<Worker>,
    pub shards: Vec<Shard>,
}

/// A worker number, or none.
pub open spec fn id_of(raw: usize) -> Option<usize> {
    if raw == NONE {
        None
    } else {
        Some(raw)
    }
}

pub fn worker_id(raw: usize) -> (r: Option<usize>)
    ensures
        r == id_of(raw),
{
    if raw == NONE {
        None
    } else {
        Some(raw)
    }
}

/// What a snapshot says of shard `s`.
pub open spec fn shard_row(m: PoolModel, s: int) -> Shard {
    Shard { queued: m.depths[s], owner: id_of(m.owner[s]), desired: m.desired[s] }
}

/// What a snapshot says of worker `w`.
pub open spec fn worker_row(m: PoolModel, w: int) -> Worker {
    let r = m.row(w);
    Worker {
        busy: r.busy,
        stalled: r.stalled,
        beats: r.beats,
        current_shard: id_of(r.current),
    }
}

/// How many workers a snapshot lists, as far as the first `k` shards call for: the peak,
/// and every worker that owns a shard or should.
pub open spec fn rows(m: PoolModel, k: int) -> int
    decreases k,
{
    if k <= 0 {
        m.max_active as int
    } else {
        let r = larger(rows(m, k - 1), m.desired[k - 1] + 1);
        if m.owner[k - 1] == NONE {
            r
        } else {
            larger(r, m.owner[k - 1] + 1)
        }
    }
}

proof fn lemma_rows(m: PoolModel, k: int)
    requires
        m.sound(),
        0 <= k <= m.owner.len(),
    ensures
        m.max_active <= rows(m, k),
        forall|s: int|
            0 <= s < k ==> {
                &&& #[trigger] m.desired[s] < rows(m, k)
                &&& m.owner[s] == NONE || m.owner[s] < rows(m, k)
            },
    decreases k,
{
    if k > 0 {
        lemma_rows(m, k - 1);
    }
}

/// A snapshot has a row for every worker that owns a shard or should own one, and for every
/// worker that there ever was.
pub proof fn law_snapshot_covers_workers(m: PoolModel)
    requires
        m.sound(),
    ensures
        m.max_active <= rows(m, m.owner.len() as int),
        forall|s: int|
            0 <= s < m.owner.len() ==> {
                &&& #[trigger] m.desired[s] < rows(m, m.owner.len() as int)
                &&& m.owner[s] == NONE || m.owner[s] < rows(m, m.owner.len() as int)
            },
{
    lemma_rows(m, m.owner.len() as int);
}

/// A snapshot of the pool.
pub fn snapshot(state: &State) -> (p: Pool)
    requires
        state.wf(),
        forall|s: int| 0 <= s < state@.desired.len() ==> #[trigger] state@.desired[s] < NONE,
    ensures
        p.processed == state@.processed,
        p.handler_panics == state@.handler_panics,
        p.takeovers == state@.takeovers,
        p.active == state@.active,
        p.max_active == state@.max_active,
        p.stopped == state@.stopped,
        p.channels_closed == state@.channels_closed,
        p.spawn_failures == state@.spawn_failures,
        p.shards@ == Seq::new(state@.owner.len(), |s: int| shard_row(state@, s)),
        p.workers@ == Seq::new(
            rows(state@, state@.owner.len() as int) as nat,
            |w: int| worker_row(state@, w),
        ),
{
    let ghost m = state@;
    proof {
        state.lemma_wf();
        lemma_rows(m, m.owner.len() as int);
    }
    let n: usize = state.shards();
    let mut shards: Vec<Shard> = Vec::with_capacity(n);
    let mut count: usize = state.max_active();
    let mut s: usize = 0;
    while s < n
        invariant
            s <= n,
            state.wf(),
            m == state@,
            m.sound(),
            n == m.owner.len(),
            forall|k: int| 0 <= k < n ==> #[trigger] m.desired[k] < NONE,
            count == rows(m, s as int),
            shards@.len() == s,
            forall|k: int| 0 <= k < s ==> #[trigger] shards@[k] == shard_row(m, k),
        decreases n - s,
    {
        let owner: usize = state.owner(s);
        let desired: usize = state.desired(s);
        assert(m.desired[s as int] < NONE);
        if count < desired + 1 {
            count = desired + 1;
        }
        if owner != NONE && count < owner + 1 {
            count = owner + 1;
        }
        shards.push(Shard { queued: state.depth(s), owner: worker_id(owner), desired });
        s = s + 1;
    }
    let mut workers: Vec<Worker> = Vec::new();
    let mut w: usize = 0;
    while w < count
        invariant
            w <= count,
            m == state@,
            workers@.len() == w,
            forall|k: int| 0 <= k < w ==> #[trigger] workers@[k] == worker_row(m, k),
        decreases count - w,
    {
        workers.push(
            Worker {
                busy: state.worker_busy(w),
                stalled: state.worker_stalled(w),
                beats: state.beat_of(w),
                current_shard: worker_id(state.current_shard_of(w)),
            },
        );
        w = w + 1;
    }
    proof {
        assert(shards@ =~= Seq::new(m.owner.len(), |s: int| shard_row(m, s)));
        assert(workers@ =~= Seq::new(
            rows(m, m.owner.len() as int) as nat,
            |w: int| worker_row(m, w),
        ));
    }
    Pool {
        processed: state.processed(),
        handler_panics: state.handler_panics(),
        takeovers: state.takeovers(),
        active: state.active(),
        max_active: state.max_active(),
        stopped: state.is_stopped(),
        channels_closed: state.channels_closed(),
        spawn_failures: state.spawn_failures(),
        workers,
        shards,
    }
}

} // verus!
