use super::errors::{ConfigError, PoolError};
use vstd::prelude::*;

verus! {

/// How many passes without work a worker spins before it gives way.
pub const IDLE_SPIN: u32 = 128;

/// How many passes without work before it sleeps.
pub const IDLE_YIELD: u32 = 256;

/// How long one such sleep is, in microseconds.
pub const IDLE_SLEEP_MICROS: u64 = 50;

/// How often the monitor looks whether it has to stop, in milliseconds; also how long a
/// worker that is not wanted sleeps.
pub const MONITOR_TICK_MILLIS: u64 = 10;

/// No worker, or no shard.
pub const NONE: usize = usize::MAX;

/// The limits of a pool. What depends on how full the queues are comes in as a
/// [`FillSignal`].
#[derive(Clone, Copy, Debug, PartialEq, Eq, Structural)]
pub struct Config {
    /// Never fewer workers than this.
    pub min_consumers: usize,
    /// Never more than this.
    pub max_consumers: usize,
    /// How many items a worker takes from one shard per pass.
    pub batch_size: usize,
    /// Shards are placed by load; if not, shard `s` goes to worker `s` modulo the number of
    /// workers.
    pub hotspot_isolation: bool,
    /// Shards are taken away from a worker that has been inside user code for one item for
    /// so many milliseconds; never, if there is no such limit.
    pub stall_takeover: Option<u64>,
}

/// What the average fill of the queues calls for.
#[derive(Clone, Copy, Debug, PartialEq, Eq, Structural)]
pub enum FillSignal {
    /// Above the upper threshold: this many workers would fit the load.
    High {
        target: usize,
    },
    /// Below the lower threshold.
    Low,
    /// In between.
    Steady,
}

/// The larger of two numbers.
pub open spec fn larger(a: int, b: int) -> int {
    if a >= b {
        a
    } else {
        b
    }
}

/// The smaller of two numbers.
pub open spec fn smaller(a: int, b: int) -> int {
    if a <= b {
        a
    } else {
        b
    }
}

/// How many workers to run, after `signal`, when `current` run now: up at once, down one
/// at a time.
pub open spec fn decided(cfg: Config, current: int, signal: FillSignal) -> int {
    match signal {
        FillSignal::High { target } => larger(current, smaller(target as int, cfg.max_consumers as int)),
        FillSignal::Low => larger(larger(current - 1, 0), cfg.min_consumers as int),
        FillSignal::Steady => current,
    }
}

fn max(a: usize, b: usize) -> (r: usize)
    ensures
        r == larger(a as int, b as int),
{
    if a >= b {
        a
    } else {
        b
    }
}

fn min(a: usize, b: usize) -> (r: usize)
    ensures
        r == smaller(a as int, b as int),
{
    if a <= b {
        a
    } else {
        b
    }
}

impl Config {
    /// There is at least one worker, and the limits are in order.
    pub open spec fn wf(self) -> bool {
        1 <= self.min_consumers <= self.max_consumers && 1 <= self.batch_size
    }

    /// Between `min` and `max` workers, with the usual settings.
    pub fn new(min: usize, max: usize) -> (c: Self)
        ensures
            c.wf(),
            c.min_consumers == larger(min as int, 1),
            c.max_consumers == larger(larger(max as int, min as int), 1),
            min >= 1 ==> c.min_consumers == min,
            max >= min && max >= 1 ==> c.max_consumers == max,
            max < min ==> c.max_consumers == min,
            min == 0 ==> c.min_consumers == 1,
            c.batch_size == 64,
            c.hotspot_isolation,
            c.stall_takeover is None,
    {
        Config {
            min_consumers: self::max(min, 1),
            max_consumers: self::max(self::max(max, min), 1),
            batch_size: 64,
            hotspot_isolation: true,
            stall_takeover: None,
        }
    }

    pub fn batch_size(self, value: usize) -> (c: Self)
        ensures
            c == (Config { batch_size: value, ..self }),
    {
        Config { batch_size: value, ..self }
    }

    pub fn hotspot_isolation(self, value: bool) -> (c: Self)
        ensures
            c == (Config { hotspot_isolation: value, ..self }),
    {
        Config { hotspot_isolation: value, ..self }
    }

    pub fn stall_takeover(self, millis: u64) -> (c: Self)
        ensures
            c == (Config { stall_takeover: Some(millis), ..self }),
    {
        Config { stall_takeover: Some(millis), ..self }
    }

    /// The configuration with its fields put in order: there is at least one worker, the
    /// upper limit is not below the lower, and a batch has at least one item.
    pub fn init(self) -> (c: Self)
        ensures
            c.wf(),
            c.min_consumers == larger(self.min_consumers as int, 1),
            c.max_consumers == larger(
                larger(self.max_consumers as int, self.min_consumers as int),
                1,
            ),
            c.batch_size == larger(self.batch_size as int, 1),
            c.hotspot_isolation == self.hotspot_isolation,
            c.stall_takeover == self.stall_takeover,
            self.wf() ==> c == self,
            self.min_consumers >= 1 ==> c.min_consumers == self.min_consumers,
            self.min_consumers == 0 ==> c.min_consumers == 1,
            self.max_consumers >= c.min_consumers ==> c.max_consumers == self.max_consumers,
            self.max_consumers < c.min_consumers ==> c.max_consumers == c.min_consumers,
            self.batch_size >= 1 ==> c.batch_size == self.batch_size,
            self.batch_size == 0 ==> c.batch_size == 1,
    {
        Config {
            min_consumers: max(self.min_consumers, 1),
            max_consumers: max(max(self.max_consumers, self.min_consumers), 1),
            batch_size: max(self.batch_size, 1),
            hotspot_isolation: self.hotspot_isolation,
            stall_takeover: self.stall_takeover,
        }
    }

    /// The configuration of a pool over `shards` shards: no more workers than shards, and
    /// a spare one if stuck workers are to be relieved.
    pub fn plan(self, shards: usize) -> (r: Result<Self, PoolError>)
        ensures
            ({
                let most = smaller(
                    larger(larger(self.max_consumers as int, self.min_consumers as int), 1),
                    shards as int,
                );
                match r {
                    Ok(c) => {
                        &&& shards > 0
                        &&& self.stall_takeover is Some ==> most >= 2
                        &&& c.wf()
                        &&& c.max_consumers == most
                        &&& c.min_consumers == smaller(larger(self.min_consumers as int, 1), most)
                        &&& c.batch_size == larger(self.batch_size as int, 1)
                        &&& c.hotspot_isolation == self.hotspot_isolation
                        &&& c.stall_takeover == self.stall_takeover
                    },
                    Err(PoolError::ReceiverEmpty) => shards == 0,
                    Err(PoolError::Config(e)) => {
                        &&& shards > 0
                        &&& self.stall_takeover is Some
                        &&& most < 2
                        &&& e == ConfigError::StallTakeoverNeedsSpareWorker {
                            effective_max: most as usize,
                        }
                    },
                    Err(PoolError::Spawn(_)) => false,
                }
            }),
            self.stall_takeover is None ==> (r is Ok <==> shards > 0),
            self.stall_takeover is Some ==> (r is Ok <==> shards >= 2 && (self.max_consumers >= 2
                || self.min_consumers >= 2)),
            r matches Ok(c) ==> c.max_consumers <= shards,
            self.wf() && self.max_consumers <= shards && r is Ok ==> r->Ok_0 == self,
    {
        let cfg = self.init();
        if shards == 0 {
            return Err(PoolError::ReceiverEmpty);
        }
        let max_consumers: usize = min(cfg.max_consumers, shards);
        let min_consumers: usize = min(cfg.min_consumers, max_consumers);
        if cfg.stall_takeover.is_some() && max_consumers < 2 {
            return Err(
                PoolError::Config(
                    ConfigError::StallTakeoverNeedsSpareWorker { effective_max: max_consumers },
                ),
            );
        }
        Ok(Config { min_consumers, max_consumers, ..cfg })
    }

    /// How many workers to run after `signal`, when `current` run now.
    pub fn decide(&self, current: usize, signal: FillSignal) -> (n: usize)
        requires
            signal is High ==> current <= self.max_consumers,
        ensures
            n == decided(*self, current as int, signal),
            signal is Low && current > self.min_consumers ==> n == current - 1,
            signal is Low && current <= self.min_consumers ==> n == self.min_consumers,
            signal is Steady ==> n == current,
            signal matches FillSignal::High { target } ==> {
                &&& n >= current
                &&& target <= current ==> n == current
                &&& current <= target <= self.max_consumers ==> n == target
                &&& target >= self.max_consumers ==> n == self.max_consumers
            },
    {
        match signal {
            FillSignal::High { target } => max(current, min(target, self.max_consumers)),
            FillSignal::Low => {
                let less: usize = if current > 0 { current - 1 } else { 0 };
                max(less, self.min_consumers)
            },
            FillSignal::Steady => current,
        }
    }
}

/// What is known of one worker.
#[derive(Clone, Copy, Debug, PartialEq, Eq, Structural)]
pub struct WorkerRow {
    /// It is inside user code for one item.
    pub busy: bool,
    /// It is busy and has not completed an item for too long.
    pub stalled: bool,
    /// How many items it has completed.
    pub beats: u64,
    /// The shard whose items it holds, or [`NONE`].
    pub current: usize,
}

/// What is known of a worker that has done nothing yet.
pub open spec fn idle_row() -> WorkerRow {
    WorkerRow { busy: false, stalled: false, beats: 0, current: NONE }
}

/// What a pool's [`State`] holds.
pub struct PoolModel {
    /// The worker that owns each shard, or [`NONE`].
    pub owner: Seq<usize>,
    /// The worker that should own each shard.
    pub desired: Seq<usize>,
    /// Which shards are closed and read to the end.
    pub closed: Seq<bool>,
    /// How deep each queue was when last looked at.
    pub depths: Seq<usize>,
    /// What is known of the workers so far.
    pub workers: Seq<WorkerRow>,
    pub active: usize,
    pub max_active: usize,
    pub stopped: bool,
    pub processed: u64,
    pub handler_panics: u64,
    pub takeovers: u64,
    pub spawn_failures: u64,
    pub channels_closed: bool,
}

/// Every shard is closed.
pub open spec fn all_closed(closed: Seq<bool>) -> bool {
    forall|s: int| 0 <= s < closed.len() ==> #[trigger] closed[s]
}

impl PoolModel {
    /// A new pool: `min` workers, at least one, with the shards spread over them by the
    /// plain rule.
    pub open spec fn initial(shards: int, min: usize) -> Self {
        let active = larger(min as int, 1);
        PoolModel {
            owner: Seq::new(shards as nat, |i: int| NONE),
            desired: Seq::new(shards as nat, |i: int| (i % active) as usize),
            closed: Seq::new(shards as nat, |i: int| false),
            depths: Seq::new(shards as nat, |i: int| 0usize),
            workers: Seq::empty(),
            active: active as usize,
            max_active: active as usize,
            stopped: false,
            processed: 0,
            handler_panics: 0,
            takeovers: 0,
            spawn_failures: 0,
            channels_closed: false,
        }
    }

    /// What is known of worker `w`.
    pub open spec fn row(self, w: int) -> WorkerRow {
        if 0 <= w < self.workers.len() {
            self.workers[w]
        } else {
            idle_row()
        }
    }

    /// The model with `row` for worker `w`.
    pub open spec fn with_row(self, w: int, row: WorkerRow) -> Self {
        let len = if w < self.workers.len() {
            self.workers.len() as int
        } else {
            w + 1
        };
        PoolModel {
            workers: Seq::new(
                len as nat,
                |i: int|
                    if i == w {
                        row
                    } else {
                        self.row(i)
                    },
            ),
            ..self
        }
    }

    /// The model after shard `s` was found closed and read to the end. With the last shard
    /// the pool stops.
    pub open spec fn shard_closed(self, s: int) -> Self {
        let closed = self.closed.update(s, true);
        if self.closed[s] {
            self
        } else {
            PoolModel { closed, stopped: self.stopped || all_closed(closed), ..self }
        }
    }

    pub open spec fn sound(self) -> bool {
        &&& self.desired.len() == self.owner.len()
        &&& self.closed.len() == self.owner.len()
        &&& self.depths.len() == self.owner.len()
        &&& self.active <= self.max_active
    }

    /// One step of worker `id` towards owning shard `s`, which `target` should own.
    pub open spec fn claimed(self, id: usize, s: int, target: usize) -> (Self, bool) {
        let cur = self.owner[s];
        if target == id {
            if cur == id {
                (self, true)
            } else if cur == NONE {
                (PoolModel { owner: self.owner.update(s, id), ..self }, true)
            } else {
                (self, false)
            }
        } else if cur == id {
            (PoolModel { owner: self.owner.update(s, NONE), ..self }, false)
        } else {
            (self, false)
        }
    }
}

/// How many flags are set.
pub open spec fn count_set(flags: Seq<bool>) -> nat
    decreases flags.len(),
{
    if flags.len() == 0 {
        0
    } else {
        count_set(flags.drop_last()) + if flags.last() { 1nat } else { 0nat }
    }
}

proof fn lemma_count_bound(flags: Seq<bool>)
    ensures
        count_set(flags) <= flags.len(),
        count_set(flags) == flags.len() <==> all_closed(flags),
    decreases flags.len(),
{
    if flags.len() > 0 {
        let t = flags.drop_last();
        lemma_count_bound(t);
        if all_closed(flags) {
            assert forall|s: int| 0 <= s < t.len() implies #[trigger] t[s] by {
                assert(flags[s]);
            }
            assert(flags[flags.len() - 1]);
        }
        if count_set(flags) == flags.len() {
            assert forall|s: int| 0 <= s < flags.len() implies #[trigger] flags[s] by {
                if s < t.len() {
                    assert(t[s]);
                }
            }
        }
    }
}

proof fn lemma_count_update(flags: Seq<bool>, s: int)
    requires
        0 <= s < flags.len(),
        !flags[s],
    ensures
        count_set(flags.update(s, true)) == count_set(flags) + 1,
    decreases flags.len(),
{
    let u = flags.update(s, true);
    if s == flags.len() - 1 {
        assert(u.drop_last() =~= flags.drop_last());
    } else {
        lemma_count_update(flags.drop_last(), s);
        assert(u.drop_last() =~= flags.drop_last().update(s, true));
    }
}

/// The shared state of a pool: who owns which shard, how many workers are wanted, whether
/// it has stopped, and what has been counted.
pub struct State {
    owner: Vec<usize>,
    desired: Vec<usize>,
    closed: Vec<bool>,
    closed_count: usize,
    depths: Vec<usize>,
    workers: Vec<WorkerRow>,
    active: usize,
    max_active: usize,
    stopped: bool,
    processed: u64,
    handler_panics: u64,
    takeovers: u64,
    spawn_failures: u64,
    channels_closed: bool,
}

/// The worker that owns shard `shard` by the plain rule.
pub fn desired_owner(shard: usize, active: usize) -> (w: usize)
    ensures
        w == shard as int % larger(active as int, 1),
        active > 0 ==> w == shard as int % active as int,
        active == 0 ==> w == 0,
{
    shard % max(active, 1)
}

impl State {
    pub closed spec fn view(&self) -> PoolModel {
        PoolModel {
            owner: self.owner@,
            desired: self.desired@,
            closed: self.closed@,
            depths: self.depths@,
            workers: self.workers@,
            active: self.active,
            max_active: self.max_active,
            stopped: self.stopped,
            processed: self.processed,
            handler_panics: self.handler_panics,
            takeovers: self.takeovers,
            spawn_failures: self.spawn_failures,
            channels_closed: self.channels_closed,
        }
    }

    pub closed spec fn wf(&self) -> bool {
        &&& self@.sound()
        &&& self.closed_count == count_set(self.closed@)
    }

    pub proof fn lemma_wf(&self)
        requires
            self.wf(),
        ensures
            self@.sound(),
            self@.owner.len() <= usize::MAX,
    {
        assert(self.owner.len() <= usize::MAX);
    }

    /// The state of a new pool: `min` workers, at least one, with the shards spread over
    /// them by the plain rule.
    pub fn new(shards: usize, min: usize) -> (s: Self)
        ensures
            s.wf(),
            s@ == PoolModel::initial(shards as int, min),
    {
        let active: usize = max(min, 1);
        let mut owner: Vec<usize> = Vec::with_capacity(shards);
        let mut desired: Vec<usize> = Vec::with_capacity(shards);
        let mut closed: Vec<bool> = Vec::with_capacity(shards);
        let mut depths: Vec<usize> = Vec::with_capacity(shards);
        let mut i: usize = 0;
        while i < shards
            invariant
                i <= shards,
                active >= 1,
                owner@ == Seq::new(i as nat, |k: int| NONE),
                desired@ == Seq::new(i as nat, |k: int| (k % (active as int)) as usize),
                closed@ == Seq::new(i as nat, |k: int| false),
                depths@ == Seq::new(i as nat, |k: int| 0usize),
                count_set(closed@) == 0,
            decreases shards - i,
        {
            owner.push(NONE);
            desired.push(desired_owner(i, active));
            closed.push(false);
            depths.push(0);
            proof {
                let n = (i + 1) as nat;
                assert(owner@ =~= Seq::new(n, |k: int| NONE));
                assert(desired@ =~= Seq::new(n, |k: int| (k % (active as int)) as usize));
                assert(closed@.drop_last() =~= Seq::new(i as nat, |k: int| false));
                assert(closed@ =~= Seq::new(n, |k: int| false));
                assert(depths@ =~= Seq::new(n, |k: int| 0usize));
            }
            i = i + 1;
        }
        let s = State {
            owner,
            desired,
            closed,
            closed_count: 0,
            depths,
            workers: Vec::new(),
            active,
            max_active: active,
            stopped: false,
            processed: 0,
            handler_panics: 0,
            takeovers: 0,
            spawn_failures: 0,
            channels_closed: false,
        };
        proof {
            let m = PoolModel::initial(shards as int, min);
            assert(s@.owner =~= m.owner);
            assert(s@.desired =~= m.desired);
            assert(s@.closed =~= m.closed);
            assert(s@.depths =~= m.depths);
            assert(s@.workers =~= m.workers);
        }
        s
    }

    pub fn processed(&self) -> (n: u64)
        ensures
            n == self@.processed,
    {
        self.processed
    }

    /// Counts `n` more items; returns the count before, which wraps with its type.
    pub fn processed_add(&mut self, n: u64) -> (r: u64)
        requires
            old(self).wf(),
        ensures
            final(self).wf(),
            r == old(self)@.processed,
            final(self)@ == (PoolModel { processed: r.wrapping_add(n), ..old(self)@ }),
    {
        let r: u64 = self.processed;
        self.processed = r.wrapping_add(n);
        r
    }

    pub fn active(&self) -> (n: usize)
        ensures
            n == self@.active,
    {
        self.active
    }

    /// Sets how many workers are wanted, and notes the peak.
    pub fn set_active(&mut self, n: usize)
        requires
            old(self).wf(),
        ensures
            final(self).wf(),
            final(self)@ == (PoolModel {
                active: n,
                max_active: larger(old(self)@.max_active as int, n as int) as usize,
                ..old(self)@
            }),
            final(self)@.max_active >= n,
            final(self)@.max_active >= old(self)@.max_active,
            final(self)@.max_active == n || final(self)@.max_active == old(self)@.max_active,
    {
        self.active = n;
        self.max_active = max(self.max_active, n);
    }

    /// The most workers that were wanted at any time.
    pub fn max_active(&self) -> (n: usize)
        ensures
            n == self@.max_active,
    {
        self.max_active
    }

    pub fn shards(&self) -> (n: usize)
        ensures
            n == self@.owner.len(),
    {
        self.owner.len()
    }

    pub fn handler_panics(&self) -> (n: u64)
        ensures
            n == self@.handler_panics,
    {
        self.handler_panics
    }

    /// Counts a panic; returns the count before, which wraps with its type.
    pub fn note_handler_panic(&mut self) -> (r: u64)
        requires
            old(self).wf(),
        ensures
            final(self).wf(),
            r == old(self)@.handler_panics,
            final(self)@ == (PoolModel { handler_panics: r.wrapping_add(1), ..old(self)@ }),
    {
        let r: u64 = self.handler_panics;
        self.handler_panics = r.wrapping_add(1);
        r
    }

    pub fn takeovers(&self) -> (n: u64)
        ensures
            n == self@.takeovers,
    {
        self.takeovers
    }

    /// Counts one more shard that was taken away from a stuck worker.
    pub fn note_takeover(&mut self)
        requires
            old(self).wf(),
        ensures
            final(self).wf(),
            final(self)@ == (PoolModel {
                takeovers: old(self)@.takeovers.wrapping_add(1),
                ..old(self)@
            }),
    {
        self.takeovers = self.takeovers.wrapping_add(1);
    }

    pub fn spawn_failures(&self) -> (n: u64)
        ensures
            n == self@.spawn_failures,
    {
        self.spawn_failures
    }

    /// Counts a worker that the system refused.
    pub fn note_spawn_failure(&mut self)
        requires
            old(self).wf(),
        ensures
            final(self).wf(),
            final(self)@ == (PoolModel {
                spawn_failures: old(self)@.spawn_failures.wrapping_add(1),
                ..old(self)@
            }),
    {
        self.spawn_failures = self.spawn_failures.wrapping_add(1);
    }

    pub fn is_stopped(&self) -> (b: bool)
        ensures
            b == self@.stopped,
    {
        self.stopped
    }

    /// Has the workers finish what they hold and exit.
    pub fn stop(&mut self)
        requires
            old(self).wf(),
        ensures
            final(self).wf(),
            final(self)@ == (PoolModel { stopped: true, ..old(self)@ }),
    {
        self.stopped = true;
    }

    pub fn channels_closed(&self) -> (b: bool)
        ensures
            b == self@.channels_closed,
    {
        self.channels_closed
    }

    /// Notes that no receiver is left: the depths stay as they are.
    pub fn close_channels(&mut self)
        requires
            old(self).wf(),
        ensures
            final(self).wf(),
            final(self)@ == (PoolModel { channels_closed: true, ..old(self)@ }),
    {
        self.channels_closed = true;
    }

    /// Notes that shard `shard` is closed and read to the end; with the last shard the pool
    /// stops. A shard counts once.
    pub fn mark_closed(&mut self, shard: usize)
        requires
            old(self).wf(),
            shard < old(self)@.owner.len(),
        ensures
            final(self).wf(),
            final(self)@ == old(self)@.shard_closed(shard as int),
    {
        if !self.closed[shard] {
            proof {
                lemma_count_update(self.closed@, shard as int);
                lemma_count_bound(self.closed@.update(shard as int, true));
                assert(self.owner.len() <= usize::MAX);
            }
            self.closed.set(shard, true);
            self.closed_count = self.closed_count + 1;
            if self.closed_count == self.owner.len() {
                self.stopped = true;
            }
        }
    }

    /// The worker that owns a shard, or [`NONE`].
    pub fn owner(&self, shard: usize) -> (w: usize)
        requires
            shard < self@.owner.len(),
        ensures
            w == self@.owner[shard as int],
    {
        self.owner[shard]
    }

    /// Gives a shard to a worker, or to none.
    pub fn set_owner(&mut self, shard: usize, id: usize)
        requires
            old(self).wf(),
            shard < old(self)@.owner.len(),
        ensures
            final(self).wf(),
            final(self)@ == (PoolModel {
                owner: old(self)@.owner.update(shard as int, id),
                ..old(self)@
            }),
    {
        self.owner.set(shard, id);
    }

    /// The worker that should own a shard.
    pub fn desired(&self, shard: usize) -> (w: usize)
        requires
            self.wf(),
            shard < self@.owner.len(),
        ensures
            w == self@.desired[shard as int],
    {
        self.desired[shard]
    }

    pub fn set_desired(&mut self, shard: usize, id: usize)
        requires
            old(self).wf(),
            shard < old(self)@.owner.len(),
        ensures
            final(self).wf(),
            final(self)@ == (PoolModel {
                desired: old(self)@.desired.update(shard as int, id),
                ..old(self)@
            }),
    {
        self.desired.set(shard, id);
    }

    /// How deep the queue of a shard was when last looked at.
    pub fn depth(&self, shard: usize) -> (n: usize)
        requires
            self.wf(),
            shard < self@.owner.len(),
        ensures
            n == self@.depths[shard as int],
    {
        self.depths[shard]
    }

    /// Notes how deep the queue of a shard is.
    pub fn set_depth(&mut self, shard: usize, n: usize)
        requires
            old(self).wf(),
            shard < old(self)@.owner.len(),
        ensures
            final(self).wf(),
            final(self)@ == (PoolModel {
                depths: old(self)@.depths.update(shard as int, n),
                ..old(self)@
            }),
    {
        self.depths.set(shard, n);
    }

    /// What is known of worker `w`.
    pub fn row(&self, w: usize) -> (r: WorkerRow)
        ensures
            r == self@.row(w as int),
    {
        if w < self.workers.len() {
            self.workers[w]
        } else {
            WorkerRow { busy: false, stalled: false, beats: 0, current: NONE }
        }
    }

    fn set_row(&mut self, w: usize, row: WorkerRow)
        requires
            old(self).wf(),
            w < usize::MAX,
        ensures
            final(self).wf(),
            final(self)@ == old(self)@.with_row(w as int, row),
    {
        let ghost pre = self@;
        while self.workers.len() <= w
            invariant
                self.wf(),
                w < usize::MAX,
                self.workers@.len() <= w + 1 || self.workers@.len() == pre.workers.len(),
                self.workers@.len() >= pre.workers.len(),
                forall|i: int| 0 <= i < self.workers@.len() ==> #[trigger] self.workers@[i] == pre.row(i),
                self@ == (PoolModel { workers: self.workers@, ..pre }),
            decreases w + 1 - self.workers@.len(),
        {
            self.workers.push(WorkerRow { busy: false, stalled: false, beats: 0, current: NONE });
        }
        self.workers.set(w, row);
        assert(self@.workers =~= pre.with_row(w as int, row).workers);
    }

    pub fn worker_busy(&self, w: usize) -> (b: bool)
        ensures
            b == self@.row(w as int).busy,
    {
        self.row(w).busy
    }

    pub fn worker_stalled(&self, w: usize) -> (b: bool)
        ensures
            b == self@.row(w as int).stalled,
    {
        self.row(w).stalled
    }

    pub fn beat_of(&self, w: usize) -> (n: u64)
        ensures
            n == self@.row(w as int).beats,
    {
        self.row(w).beats
    }

    pub fn current_shard_of(&self, w: usize) -> (s: usize)
        ensures
            s == self@.row(w as int).current,
    {
        self.row(w).current
    }

    pub fn set_worker_busy(&mut self, id: usize, busy: bool)
        requires
            old(self).wf(),
            id < NONE,
        ensures
            final(self).wf(),
            final(self)@ == old(self)@.with_row(
                id as int,
                (WorkerRow { busy, ..old(self)@.row(id as int) }),
            ),
    {
        let row = self.row(id);
        self.set_row(id, WorkerRow { busy, ..row });
    }

    pub fn set_worker_stalled(&mut self, id: usize, stalled: bool)
        requires
            old(self).wf(),
            id < NONE,
        ensures
            final(self).wf(),
            final(self)@ == old(self)@.with_row(
                id as int,
                (WorkerRow { stalled, ..old(self)@.row(id as int) }),
            ),
    {
        let row = self.row(id);
        self.set_row(id, WorkerRow { stalled, ..row });
    }

    pub fn set_current_shard(&mut self, id: usize, shard: usize)
        requires
            old(self).wf(),
            id < NONE,
        ensures
            final(self).wf(),
            final(self)@ == old(self)@.with_row(
                id as int,
                (WorkerRow { current: shard, ..old(self)@.row(id as int) }),
            ),
    {
        let row = self.row(id);
        self.set_row(id, WorkerRow { current: shard, ..row });
    }

    /// Notes that worker `id` has completed an item.
    pub fn beat(&mut self, id: usize)
        requires
            old(self).wf(),
            id < NONE,
        ensures
            final(self).wf(),
            final(self)@ == old(self)@.with_row(
                id as int,
                (WorkerRow {
                    beats: old(self)@.row(id as int).beats.wrapping_add(1),
                    ..old(self)@.row(id as int)
                }),
            ),
    {
        let row = self.row(id);
        self.set_row(id, WorkerRow { beats: row.beats.wrapping_add(1), ..row });
    }
}

/// One step of worker `id` towards owning shard `shard`, which `target` should own: takes
/// it if it is free and wanted, gives it up if it is not wanted. `true` if the worker owns
/// the shard now and should read it.
pub fn claim_or_release_to(state: &mut State, id: usize, shard: usize, target: usize) -> (b: bool)
    requires
        old(state).wf(),
        shard < old(state)@.owner.len(),
        id < NONE,
    ensures
        final(state).wf(),
        (final(state)@, b) == old(state)@.claimed(id, shard as int, target),
{
    let cur: usize = state.owner(shard);
    if target == id {
        if cur == id {
            return true;
        } else if cur == NONE {
            state.set_owner(shard, id);
            return true;
        }
    } else if cur == id {
        state.set_owner(shard, NONE);
    }
    false
}

/// The same, with the worker that the last placement wants.
pub fn claim_or_release(state: &mut State, id: usize, shard: usize) -> (b: bool)
    requires
        old(state).wf(),
        shard < old(state)@.owner.len(),
        id < NONE,
    ensures
        final(state).wf(),
        (final(state)@, b) == old(state)@.claimed(
            id,
            shard as int,
            old(state)@.desired[shard as int],
        ),
{
    let target: usize = state.desired(shard);
    claim_or_release_to(state, id, shard, target)
}

/// A shard has one owner at a time: a worker that is told to read a shard owns it, and a
/// shard that another worker owns stays with that worker.
pub proof fn law_one_owner(m: PoolModel, id: usize, s: int, target: usize)
    requires
        m.sound(),
        0 <= s < m.owner.len(),
        id < NONE,
    ensures
        m.claimed(id, s, target).1 ==> m.claimed(id, s, target).0.owner[s] == id && (m.owner[s] == id
            || m.owner[s] == NONE),
        m.owner[s] != NONE && m.owner[s] != id ==> m.claimed(id, s, target) == (m, false),
        target != id ==> m.claimed(id, s, target).0.owner[s] != id,
        forall|t: int|
            0 <= t < m.owner.len() && t != s ==> #[trigger] m.claimed(id, s, target).0.owner[t]
                == m.owner[t],
{
}

/// Autodrain: a pool whose shards are all found closed stops, and closing a shard that is
/// not the last stops nothing.
pub proof fn law_stops_with_the_last_shard(m: PoolModel, s: int)
    requires
        m.sound(),
        0 <= s < m.closed.len(),
        !m.closed[s],
    ensures
        (forall|t: int| 0 <= t < m.closed.len() && t != s ==> #[trigger] m.closed[t])
            ==> m.shard_closed(s).stopped,
        !m.stopped && (exists|t: int| 0 <= t < m.closed.len() && t != s && !#[trigger] m.closed[t])
            ==> !m.shard_closed(s).stopped,
        m.shard_closed(s).shard_closed(s) == m.shard_closed(s),
{
    let c = m.closed.update(s, true);
    if forall|t: int| 0 <= t < m.closed.len() && t != s ==> #[trigger] m.closed[t] {
        assert forall|t: int| 0 <= t < c.len() implies #[trigger] c[t] by {
            if t != s {
                assert(m.closed[t]);
            }
        }
    }
    if exists|t: int| 0 <= t < m.closed.len() && t != s && !#[trigger] m.closed[t] {
        let t = choose|t: int| 0 <= t < m.closed.len() && t != s && !#[trigger] m.closed[t];
        assert(!c[t]);
    }
}

} // verus!
