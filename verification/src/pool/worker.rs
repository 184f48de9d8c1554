use super::instance::{
    claim_or_release, smaller, PoolModel, State, WorkerRow, IDLE_SPIN, IDLE_YIELD, NONE,
};
use vstd::prelude::*;

verus! {

/// How a worker without work waits.
#[derive(Clone, Copy, Debug, PartialEq, Eq, Structural)]
pub enum IdlePhase {
    Spin,
    Yield,
    Sleep,
}

/// How a worker waits after `streak` passes without work.
pub open spec fn idle_phase_of(streak: u32) -> IdlePhase {
    if streak < IDLE_SPIN {
        IdlePhase::Spin
    } else if streak < IDLE_YIELD {
        IdlePhase::Yield
    } else {
        IdlePhase::Sleep
    }
}

pub fn idle_phase(streak: u32) -> (p: IdlePhase)
    ensures
        p == idle_phase_of(streak),
{
    if streak < IDLE_SPIN {
        IdlePhase::Spin
    } else if streak < IDLE_YIELD {
        IdlePhase::Yield
    } else {
        IdlePhase::Sleep
    }
}

/// What a worker does next.
#[derive(Clone, Copy, Debug, PartialEq, Eq, Structural)]
pub enum WorkerStep {
    /// Exit.
    Stop,
    /// Read this shard, which the worker owns.
    Read(usize),
    /// Start the next pass at once.
    Again,
    /// Wait; there was no work.
    Idle(IdlePhase),
    /// Wait for a monitor tick; the worker is not wanted.
    Tick,
}

/// Worker `id` reads shard `s` if asked.
pub open spec fn reads(m: PoolModel, id: usize, s: int) -> bool {
    m.desired[s] == id && (m.owner[s] == id || m.owner[s] == NONE)
}

/// The owner of shard `s` after worker `id` has looked at it.
pub open spec fn owner_after(m: PoolModel, id: usize, s: int) -> usize {
    if reads(m, id, s) {
        id
    } else if m.owner[s] == id {
        NONE
    } else {
        m.owner[s]
    }
}

/// The pool after worker `id` has looked at the shards from `from` up to `to`.
pub open spec fn looked(m: PoolModel, id: usize, from: int, to: int) -> PoolModel {
    PoolModel {
        owner: Seq::new(
            m.owner.len(),
            |s: int|
                if from <= s < to {
                    owner_after(m, id, s)
                } else {
                    m.owner[s]
                },
        ),
        ..m
    }
}

/// A worker as it goes round the shards, pass by pass.
pub struct WorkerLoop {
    id: usize,
    shard: usize,
    done: bool,
    idle_streak: u32,
}

impl WorkerLoop {
    pub closed spec fn id(&self) -> usize {
        self.id
    }

    /// The shard to look at next.
    pub closed spec fn shard(&self) -> int {
        self.shard as int
    }

    /// There was work in this pass.
    pub closed spec fn done(&self) -> bool {
        self.done
    }

    /// How many passes in a row were without work.
    pub closed spec fn idle_streak(&self) -> u32 {
        self.idle_streak
    }

    /// The worker at the start of its first pass.
    pub fn new(id: usize) -> (w: Self)
        ensures
            w.id() == id,
            w.shard() == 0,
            !w.done(),
            w.idle_streak() == 0,
    {
        WorkerLoop { id, shard: 0, done: false, idle_streak: 0 }
    }

    /// Goes on to the next shard that the worker owns and should read, giving up those
    /// that it should not own on the way. At the end of a pass, says how to wait. The stop
    /// flag is looked at when a pass starts.
    pub fn next(&mut self, state: &mut State) -> (r: WorkerStep)
        requires
            old(state).wf(),
            old(self).id() < NONE,
            old(self).shard() <= old(state)@.owner.len(),
        ensures
            final(state).wf(),
            final(self).id() == old(self).id(),
            final(self).shard() <= old(state)@.owner.len(),
            ({
                let m = old(state)@;
                let id = old(self).id();
                let from = old(self).shard();
                let n = m.owner.len() as int;
                match r {
                    WorkerStep::Stop => {
                        &&& from == 0 && m.stopped
                        &&& final(state)@ == m
                        &&& *final(self) == *old(self)
                    },
                    WorkerStep::Read(s) => {
                        &&& !(from == 0 && m.stopped)
                        &&& from <= s < n
                        &&& reads(m, id, s as int)
                        &&& forall|j: int| from <= j < s ==> !#[trigger] reads(m, id, j)
                        &&& final(state)@ == looked(m, id, from, s + 1)
                        &&& final(self).shard() == s + 1
                        &&& final(self).done() == old(self).done()
                        &&& final(self).idle_streak() == old(self).idle_streak()
                    },
                    _ => {
                        &&& !(from == 0 && m.stopped)
                        &&& forall|j: int| from <= j < n ==> !#[trigger] reads(m, id, j)
                        &&& final(state)@ == looked(m, id, from, n)
                        &&& final(self).shard() == 0
                        &&& !final(self).done()
                        &&& if old(self).done() {
                            r is Again && final(self).idle_streak() == 0
                        } else {
                            let streak = smaller(old(self).idle_streak() + 1, u32::MAX as int);
                            &&& final(self).idle_streak() == streak
                            &&& r == if id >= m.active {
                                WorkerStep::Tick
                            } else {
                                WorkerStep::Idle(idle_phase_of(streak as u32))
                            }
                        }
                    },
                }
            }),
            r matches WorkerStep::Idle(p) ==> {
                &&& p is Spin <==> final(self).idle_streak() < 128
                &&& p is Sleep <==> final(self).idle_streak() >= 256
            },
            r is Idle || r is Tick ==> final(self).idle_streak() == old(self).idle_streak() + 1
                || final(self).idle_streak() == u32::MAX,
    {
        let ghost m = state@;
        let ghost from = self.shard as int;
        proof {
            state.lemma_wf();
        }
        if self.shard == 0 && state.is_stopped() {
            return WorkerStep::Stop;
        }
        let n: usize = state.shards();
        proof {
            assert(looked(m, self.id, from, from).owner =~= m.owner);
        }
        while self.shard < n
            invariant
                state.wf(),
                m.sound(),
                n == m.owner.len(),
                m == old(state)@,
                from == old(self).shard,
                !(from == 0 && m.stopped),
                self.id == old(self).id,
                self.id < NONE,
                self.done == old(self).done,
                self.idle_streak == old(self).idle_streak,
                from <= self.shard <= n,
                state@ == looked(m, self.id, from, self.shard as int),
                forall|j: int| from <= j < self.shard ==> !#[trigger] reads(m, self.id, j),
            decreases n - self.shard,
        {
            let s: usize = self.shard;
            self.shard = s + 1;
            let mine = claim_or_release(state, self.id, s);
            proof {
                assert(state@.owner =~= looked(m, self.id, from, s + 1).owner);
            }
            if mine {
                return WorkerStep::Read(s);
            }
        }
        let done = self.done;
        self.shard = 0;
        self.done = false;
        if done {
            self.idle_streak = 0;
            WorkerStep::Again
        } else {
            self.idle_streak = self.idle_streak.saturating_add(1);
            if self.id >= state.active() {
                WorkerStep::Tick
            } else {
                WorkerStep::Idle(idle_phase(self.idle_streak))
            }
        }
    }

    /// Notes that `n` items of shard `shard` have been read.
    pub fn begin_batch(&mut self, state: &mut State, shard: usize, n: usize)
        requires
            old(state).wf(),
            old(self).id() < NONE,
        ensures
            final(state).wf(),
            final(self).id() == old(self).id(),
            final(self).shard() == old(self).shard(),
            final(self).idle_streak() == old(self).idle_streak(),
            final(self).done() == (old(self).done() || n > 0),
            final(state)@ == if n > 0 {
                old(state)@.with_row(
                    old(self).id() as int,
                    (WorkerRow { current: shard, ..old(state)@.row(old(self).id() as int) }),
                )
            } else {
                old(state)@
            },
            n > 0 ==> final(state)@.row(old(self).id() as int).current == shard,
            final(state)@.owner == old(state)@.owner,
    {
        if n > 0 {
            self.done = true;
            state.set_current_shard(self.id, shard);
        }
    }

    /// Notes that the `n` items have been dealt with, and, if the shard was found closed,
    /// that it is read to the end.
    pub fn end_batch(&self, state: &mut State, shard: usize, n: usize, disconnected: bool)
        requires
            old(state).wf(),
            self.id() < NONE,
            shard < old(state)@.owner.len(),
        ensures
            final(state).wf(),
            ({
                let m = if n > 0 {
                    old(state)@.with_row(
                        self.id() as int,
                        (WorkerRow { current: NONE, ..old(state)@.row(self.id() as int) }),
                    )
                } else {
                    old(state)@
                };
                final(state)@ == if disconnected {
                    m.shard_closed(shard as int)
                } else {
                    m
                }
            }),
            final(state)@.closed[shard as int] == (old(state)@.closed[shard as int]
                || disconnected),
            n > 0 ==> final(state)@.row(self.id() as int).current == NONE,
            final(state)@.owner == old(state)@.owner,
            !disconnected ==> final(state)@.stopped == old(state)@.stopped,
    {
        proof {
            state.lemma_wf();
        }
        if n > 0 {
            state.set_current_shard(self.id, NONE);
        }
        if disconnected {
            state.mark_closed(shard);
        }
    }

    /// Notes that the worker is inside user code.
    pub fn begin_item(&self, state: &mut State)
        requires
            old(state).wf(),
            self.id() < NONE,
        ensures
            final(state).wf(),
            final(state)@ == old(state)@.with_row(
                self.id() as int,
                (WorkerRow { busy: true, ..old(state)@.row(self.id() as int) }),
            ),
            final(state)@.row(self.id() as int).busy,
            final(state)@.row(self.id() as int).beats == old(state)@.row(self.id() as int).beats,
    {
        state.set_worker_busy(self.id, true);
    }

    /// Notes that the worker is done with an item. What came after the handler, the end of
    /// the item or its way to the dead letters, may have panicked too; that is counted.
    pub fn end_item(&self, state: &mut State, panicked: bool)
        requires
            old(state).wf(),
            self.id() < NONE,
        ensures
            final(state).wf(),
            ({
                let row = old(state)@.row(self.id() as int);
                let m = old(state)@.with_row(
                    self.id() as int,
                    (WorkerRow { busy: false, beats: row.beats.wrapping_add(1), ..row }),
                );
                final(state)@ == if panicked {
                    PoolModel { handler_panics: m.handler_panics.wrapping_add(1), ..m }
                } else {
                    m
                }
            }),
            !final(state)@.row(self.id() as int).busy,
            final(state)@.row(self.id() as int).beats != old(state)@.row(self.id() as int).beats,
            final(state)@.processed == old(state)@.processed,
    {
        let ghost m = state@;
        state.beat(self.id);
        state.set_worker_busy(self.id, false);
        proof {
            let id = self.id as int;
            let row = m.row(id);
            assert(state@.workers =~= m.with_row(
                id,
                WorkerRow { busy: false, beats: row.beats.wrapping_add(1), ..row },
            ).workers);
        }
        if panicked {
            let _ = state.note_handler_panic();
        }
    }
}

/// What becomes of an item after its handler.
pub enum ItemEnd<T> {
    /// The handler finished; what it left in the slot is done with.
    Done(Option<T>),
    /// The handler panicked before it took the item: it goes to the dead letters.
    DeadLetter(T),
    /// The handler panicked after it took the item.
    Taken,
}

/// What becomes of an item whose handler finished or panicked and left `slot`.
pub open spec fn item_end<T>(panicked: bool, slot: Option<T>) -> ItemEnd<T> {
    if !panicked {
        ItemEnd::Done(slot)
    } else {
        match slot {
            Some(v) => ItemEnd::DeadLetter(v),
            None => ItemEnd::Taken,
        }
    }
}

/// Settles an item whose handler finished or panicked, with what it left in the slot.
pub fn settle_item<T>(state: &mut State, panicked: bool, slot: Option<T>) -> (r: ItemEnd<T>)
    requires
        old(state).wf(),
    ensures
        final(state).wf(),
        r == item_end(panicked, slot),
        final(state)@ == if panicked {
            PoolModel {
                handler_panics: old(state)@.handler_panics.wrapping_add(1),
                ..old(state)@
            }
        } else {
            PoolModel { processed: old(state)@.processed.wrapping_add(1), ..old(state)@ }
        },
        r is Done <==> !panicked,
        r matches ItemEnd::DeadLetter(v) ==> slot == Some(v),
        panicked ==> final(state)@.processed == old(state)@.processed,
        !panicked ==> final(state)@.handler_panics == old(state)@.handler_panics,
{
    if panicked {
        let _ = state.note_handler_panic();
        match slot {
            Some(v) => ItemEnd::DeadLetter(v),
            None => ItemEnd::Taken,
        }
    } else {
        let _ = state.processed_add(1);
        ItemEnd::Done(slot)
    }
}

/// The workers that a monitor has started: how many, and whether one more is due.
pub struct Spawner {
    spawned: usize,
}

impl Spawner {
    pub closed spec fn spawned(&self) -> usize {
        self.spawned
    }

    pub fn new(spawned: usize) -> (s: Self)
        ensures
            s.spawned() == spawned,
    {
        Spawner { spawned }
    }

    /// The number of the worker to start next, if more are wanted than there are. Their
    /// number only grows.
    pub fn due(&self, state: &State, max_consumers: usize) -> (r: Option<usize>)
        ensures
            r == if self.spawned() < smaller(state@.active as int, max_consumers as int)
                && !state@.stopped {
                Some(self.spawned())
            } else {
                None
            },
            r matches Some(id) ==> id < state@.active && id < max_consumers,
            !state@.stopped && self.spawned() < state@.active && self.spawned() < max_consumers
                ==> r is Some,
    {
        let active: usize = state.active();
        let want: usize = if active < max_consumers { active } else { max_consumers };
        if self.spawned < want && !state.is_stopped() {
            Some(self.spawned)
        } else {
            None
        }
    }

    /// Notes that the worker has been started.
    pub fn started(&mut self)
        requires
            old(self).spawned() < usize::MAX,
        ensures
            final(self).spawned() == old(self).spawned() + 1,
    {
        self.spawned = self.spawned + 1;
    }
}

/// What a monitor does between two looks.
#[derive(Clone, Copy, Debug, PartialEq, Eq, Structural)]
pub enum SleepStep {
    /// The pool has stopped.
    Stopped,
    /// Sleep so long, then ask again.
    Sleep(u64),
    /// The time is over.
    Over,
}

/// The next piece of a sleep of `total`, of which `slept` is over, in pieces of at most
/// `tick`, so that a stop is noticed soon.
pub fn sleep_step(slept: u64, total: u64, tick: u64, stopped: bool) -> (r: SleepStep)
    ensures
        r == if stopped {
            SleepStep::Stopped
        } else if slept < total {
            SleepStep::Sleep(smaller(tick as int, total - slept) as u64)
        } else {
            SleepStep::Over
        },
        r matches SleepStep::Sleep(d) ==> d <= tick && slept + d <= total && (d == tick || slept + d
            == total),
        !stopped ==> (r is Over <==> slept >= total),
{
    if stopped {
        SleepStep::Stopped
    } else if slept < total {
        let left: u64 = total - slept;
        SleepStep::Sleep(if tick <= left { tick } else { left })
    } else {
        SleepStep::Over
    }
}

/// What a monitor does next.
#[derive(Clone, Copy, Debug, PartialEq, Eq, Structural)]
pub enum MonitorStep {
    /// Exit.
    Stop,
    /// Sleep so long.
    Sleep(u64),
    /// Look at the queues.
    Look,
    /// Start the worker of this number.
    Spawn(usize),
}

/// A monitor as it sleeps, looks at the queues, and starts workers that are wanted and not
/// there yet, round by round.
pub struct MonitorLoop {
    /// How long a round sleeps, and the longest piece of it.
    total: u64,
    tick: u64,
    slept: u64,
    /// The queues have been looked at in this round.
    looked: bool,
    spawner: Spawner,
}

impl MonitorLoop {
    pub closed spec fn total(&self) -> u64 {
        self.total
    }

    pub closed spec fn tick(&self) -> u64 {
        self.tick
    }

    pub closed spec fn slept(&self) -> u64 {
        self.slept
    }

    pub closed spec fn looked(&self) -> bool {
        self.looked
    }

    pub closed spec fn spawned(&self) -> usize {
        self.spawner.spawned()
    }

    /// A round has not slept longer than it should.
    pub open spec fn wf(&self) -> bool {
        self.slept() <= self.total()
    }

    /// A monitor that sleeps `total` per round in pieces of at most `tick`, with workers
    /// that have been started already.
    pub fn new(total: u64, tick: u64, spawned: usize) -> (m: Self)
        ensures
            m.wf(),
            m.total() == total,
            m.tick() == tick,
            m.slept() == 0,
            !m.looked(),
            m.spawned() == spawned,
    {
        MonitorLoop { total, tick, slept: 0, looked: false, spawner: Spawner::new(spawned) }
    }

    /// How many workers have been started.
    pub fn started_workers(&self) -> (n: usize)
        ensures
            n == self.spawned(),
    {
        self.spawner.spawned
    }

    /// Goes on to the next thing to do. After a look, the workers that are wanted are
    /// started one by one, each followed by [`MonitorLoop::started`]; then the next round
    /// begins. A stop is noticed between two pieces of sleep.
    pub fn next(&mut self, state: &State, max_consumers: usize) -> (r: MonitorStep)
        requires
            old(self).wf(),
        ensures
            final(self).wf(),
            final(self).total() == old(self).total(),
            final(self).tick() == old(self).tick(),
            ({
                let want = smaller(state@.active as int, max_consumers as int);
                let due = old(self).looked() && old(self).spawned() < want && !state@.stopped;
                let slept = if old(self).looked() {
                    0
                } else {
                    old(self).slept()
                };
                match r {
                    MonitorStep::Spawn(id) => {
                        &&& due
                        &&& id == old(self).spawned()
                        &&& *final(self) == *old(self)
                    },
                    MonitorStep::Stop => {
                        &&& !due
                        &&& state@.stopped
                        &&& !final(self).looked()
                        &&& final(self).spawned() == old(self).spawned()
                        &&& final(self).slept() == slept
                    },
                    MonitorStep::Sleep(d) => {
                        &&& !due
                        &&& !state@.stopped
                        &&& slept < old(self).total()
                        &&& d == smaller(old(self).tick() as int, old(self).total() - slept)
                        &&& !final(self).looked()
                        &&& final(self).spawned() == old(self).spawned()
                        &&& final(self).slept() == slept + d
                    },
                    MonitorStep::Look => {
                        &&& !due
                        &&& !state@.stopped
                        &&& slept >= old(self).total()
                        &&& final(self).looked()
                        &&& final(self).spawned() == old(self).spawned()
                        &&& final(self).slept() == slept
                    },
                }
            }),
            r matches MonitorStep::Sleep(d) ==> d <= old(self).tick() && (d == old(self).tick()
                || final(self).slept() == old(self).total()),
            r matches MonitorStep::Spawn(id) ==> id < state@.active && id < max_consumers,
            r is Look ==> old(self).looked() || old(self).slept() == old(self).total(),
    {
        if self.looked {
            match self.spawner.due(state, max_consumers) {
                Some(id) => {
                    return MonitorStep::Spawn(id);
                },
                None => {
                    self.looked = false;
                    self.slept = 0;
                },
            }
        }
        match sleep_step(self.slept, self.total, self.tick, state.is_stopped()) {
            SleepStep::Stopped => MonitorStep::Stop,
            SleepStep::Sleep(d) => {
                self.slept = self.slept + d;
                MonitorStep::Sleep(d)
            },
            SleepStep::Over => {
                self.looked = true;
                MonitorStep::Look
            },
        }
    }

    /// Notes what became of the worker that was to be started. One that could not be
    /// started is counted and tried again in the next round.
    pub fn started(&mut self, state: &mut State, ok: bool)
        requires
            old(self).wf(),
            old(state).wf(),
            old(self).spawned() < usize::MAX,
        ensures
            final(self).wf(),
            final(state).wf(),
            final(self).total() == old(self).total(),
            final(self).tick() == old(self).tick(),
            if ok {
                &&& final(self).spawned() == old(self).spawned() + 1
                &&& final(self).looked() == old(self).looked()
                &&& final(self).slept() == old(self).slept()
                &&& final(state)@ == old(state)@
            } else {
                &&& final(self).spawned() == old(self).spawned()
                &&& !final(self).looked()
                &&& final(self).slept() == 0
                &&& final(state)@ == (PoolModel {
                    spawn_failures: old(state)@.spawn_failures.wrapping_add(1),
                    ..old(state)@
                })
            },
    {
        if ok {
            self.spawner.started();
        } else {
            state.note_spawn_failure();
            self.looked = false;
            self.slept = 0;
        }
    }
}

/// No item is lost to a panic: one that the handler has not taken goes to the dead letters,
/// and nothing else does.
pub proof fn law_no_item_is_lost<T>(slot: Option<T>)
    ensures
        slot is Some ==> item_end(true, slot) == ItemEnd::DeadLetter(slot->Some_0),
        slot is None ==> item_end(true, slot) is Taken,
        !(item_end(false, slot) is DeadLetter),
{
}

/// A worker that is not wanted for a shard does not keep it, and one that is wanted gets it
/// as soon as nobody else holds it.
pub proof fn law_shards_change_hands(m: PoolModel, id: usize, from: int, to: int, s: int)
    requires
        m.sound(),
        id < NONE,
        0 <= from <= s < to <= m.owner.len(),
    ensures
        m.desired[s] != id ==> looked(m, id, from, to).owner[s] != id,
        m.desired[s] == id && m.owner[s] == NONE ==> looked(m, id, from, to).owner[s] == id,
        m.owner[s] != NONE && m.owner[s] != id ==> looked(m, id, from, to).owner[s] == m.owner[s],
{
}

} // verus!
