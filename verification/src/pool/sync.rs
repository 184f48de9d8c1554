use super::instance::{PoolModel, State, NONE};
use super::signal::Stop;
use super::stats::{rows, shard_row, snapshot, worker_row, Pool};
use vstd::prelude::*;

verus! {

/// A running pool of threads: its shared state and the handles of its workers.
pub struct SyncPool<H> {
    state: State,
    workers: Vec<H>,
}

impl<H> SyncPool<H> {
    /// What the pool's shared state holds.
    pub closed spec fn view(&self) -> PoolModel {
        self.state@
    }

    /// The worker handles that the pool holds, in the order in which they came.
    pub closed spec fn workers(&self) -> Seq<H> {
        self.workers@
    }

    pub closed spec fn wf(&self) -> bool {
        self.state.wf()
    }

    /// Every shard is meant for a worker.
    pub open spec fn placed(&self) -> bool {
        forall|s: int| 0 <= s < self@.desired.len() ==> #[trigger] self@.desired[s] < NONE
    }

    /// A pool over `state`, without workers yet.
    pub fn new(state: State) -> (p: Self)
        requires
            state.wf(),
        ensures
            p.wf(),
            p@ == state@,
            p.workers() == Seq::<H>::empty(),
    {
        SyncPool { state, workers: Vec::new() }
    }

    /// The shared state, for workers and the monitor.
    pub fn state(&mut self) -> (r: &mut State)
        requires
            old(self).wf(),
        ensures
            r.wf(),
            r@ == old(self)@,
            final(r).wf() ==> final(self).wf(),
            final(self)@ == final(r)@,
            final(self).workers() == old(self).workers(),
    {
        &mut self.state
    }

    /// Keeps the handle of a worker.
    pub fn add_worker(&mut self, handle: H)
        requires
            old(self).wf(),
        ensures
            final(self).wf(),
            final(self)@ == old(self)@,
            final(self).workers() == old(self).workers().push(handle),
    {
        self.workers.push(handle);
    }

    /// Hands out all worker handles, to be waited for.
    pub fn take_workers(&mut self) -> (r: Vec<H>)
        requires
            old(self).wf(),
        ensures
            final(self).wf(),
            final(self)@ == old(self)@,
            final(self).workers() == Seq::<H>::empty(),
            r@ == old(self).workers(),
    {
        let mut out: Vec<H> = Vec::new();
        out.append(&mut self.workers);
        proof {
            assert(out@ =~= old(self).workers@);
            assert(self.workers@ =~= Seq::empty());
        }
        out
    }

    pub fn processed(&self) -> (n: u64)
        ensures
            n == self@.processed,
    {
        self.state.processed()
    }

    pub fn shards(&self) -> (n: usize)
        ensures
            n == self@.owner.len(),
    {
        self.state.shards()
    }

    /// How deep the queue of a shard is; `None` if there is no such shard, or if the
    /// receivers are gone.
    pub fn shard_queued(&self, shard: usize) -> (r: Option<usize>)
        requires
            self.wf(),
        ensures
            r == if shard < self@.owner.len() && !self@.channels_closed {
                Some(self@.depths[shard as int])
            } else {
                None
            },
    {
        if shard < self.state.shards() && !self.state.channels_closed() {
            Some(self.state.depth(shard))
        } else {
            None
        }
    }

    /// How deep each queue is; `None` if the receivers are gone.
    pub fn depths(&self) -> (r: Option<Vec<usize>>)
        requires
            self.wf(),
        ensures
            r is Some <==> !self@.channels_closed,
            r is Some ==> r->Some_0@ == self@.depths,
            r is Some ==> r->Some_0@.len() == self@.owner.len(),
    {
        if self.state.channels_closed() {
            return None;
        }
        proof {
            self.state.lemma_wf();
        }
        let n: usize = self.state.shards();
        let mut v: Vec<usize> = Vec::with_capacity(n);
        let mut s: usize = 0;
        while s < n
            invariant
                s <= n,
                self.state.wf(),
                n == self@.owner.len(),
                v@.len() == s,
                forall|k: int| 0 <= k < s ==> #[trigger] v@[k] == self@.depths[k],
            decreases n - s,
        {
            v.push(self.state.depth(s));
            s = s + 1;
        }
        assert(v@ =~= self@.depths);
        Some(v)
    }

    pub fn takeovers(&self) -> (n: u64)
        ensures
            n == self@.takeovers,
    {
        self.state.takeovers()
    }

    /// A snapshot of the pool.
    pub fn stats(&self) -> (p: Pool)
        requires
            self.wf(),
            self.placed(),
        ensures
            p.processed == self@.processed,
            p.handler_panics == self@.handler_panics,
            p.takeovers == self@.takeovers,
            p.active == self@.active,
            p.max_active == self@.max_active,
            p.stopped == self@.stopped,
            p.channels_closed == self@.channels_closed,
            p.spawn_failures == self@.spawn_failures,
            p.shards@ == Seq::new(self@.owner.len(), |s: int| shard_row(self@, s)),
            p.workers@ == Seq::new(
                rows(self@, self@.owner.len() as int) as nat,
                |w: int| worker_row(self@, w),
            ),
    {
        proof {
            assert forall|s: int| 0 <= s < self.state@.desired.len() implies (
            #[trigger] self.state@.desired[s]) < NONE by {
                assert(self@.desired[s] < NONE);
            }
        }
        snapshot(&self.state)
    }

    pub fn handler_panics(&self) -> (n: u64)
        ensures
            n == self@.handler_panics,
    {
        self.state.handler_panics()
    }

    pub fn active(&self) -> (n: usize)
        ensures
            n == self@.active,
    {
        self.state.active()
    }

    pub fn max_active(&self) -> (n: usize)
        ensures
            n == self@.max_active,
    {
        self.state.max_active()
    }

    pub fn worker_handles(&self) -> (n: usize)
        ensures
            n == self.workers().len(),
    {
        self.workers.len()
    }

    /// The right to stop the pool.
    pub fn get_signal_stop(&self) -> (s: Stop) {
        Stop::new()
    }

    pub fn is_stopped(&self) -> (b: bool)
        ensures
            b == self@.stopped,
    {
        self.state.is_stopped()
    }

    /// Stops the pool without waiting for its workers.
    pub fn stop_and_detach(self) -> (s: State)
        requires
            self.wf(),
        ensures
            s.wf(),
            s@ == (PoolModel { stopped: true, ..self@ }),
    {
        let SyncPool { state, workers } = self;
        let mut state = state;
        state.stop();
        state
    }
}

/// A running pool of tasks: its shared state and the handles of its workers.
pub struct AsyncPool<H> {
    state: State,
    workers: Vec<H>,
}

impl<H> AsyncPool<H> {
    /// What the pool's shared state holds.
    pub closed spec fn view(&self) -> PoolModel {
        self.state@
    }

    /// The worker handles that the pool holds, in the order in which they came.
    pub closed spec fn workers(&self) -> Seq<H> {
        self.workers@
    }

    pub closed spec fn wf(&self) -> bool {
        self.state.wf()
    }

    /// Every shard is meant for a worker.
    pub open spec fn placed(&self) -> bool {
        forall|s: int| 0 <= s < self@.desired.len() ==> #[trigger] self@.desired[s] < NONE
    }

    /// A pool over `state`, without workers yet.
    pub fn new(state: State) -> (p: Self)
        requires
            state.wf(),
        ensures
            p.wf(),
            p@ == state@,
            p.workers() == Seq::<H>::empty(),
    {
        AsyncPool { state, workers: Vec::new() }
    }

    /// The shared state, for workers and the monitor.
    pub fn state(&mut self) -> (r: &mut State)
        requires
            old(self).wf(),
        ensures
            r.wf(),
            r@ == old(self)@,
            final(r).wf() ==> final(self).wf(),
            final(self)@ == final(r)@,
            final(self).workers() == old(self).workers(),
    {
        &mut self.state
    }

    /// Keeps the handle of a worker.
    pub fn add_worker(&mut self, handle: H)
        requires
            old(self).wf(),
        ensures
            final(self).wf(),
            final(self)@ == old(self)@,
            final(self).workers() == old(self).workers().push(handle),
    {
        self.workers.push(handle);
    }

    /// Hands out all worker handles, to be waited for.
    pub fn take_workers(&mut self) -> (r: Vec<H>)
        requires
            old(self).wf(),
        ensures
            final(self).wf(),
            final(self)@ == old(self)@,
            final(self).workers() == Seq::<H>::empty(),
            r@ == old(self).workers(),
    {
        let mut out: Vec<H> = Vec::new();
        out.append(&mut self.workers);
        proof {
            assert(out@ =~= old(self).workers@);
            assert(self.workers@ =~= Seq::empty());
        }
        out
    }

    pub fn processed(&self) -> (n: u64)
        ensures
            n == self@.processed,
    {
        self.state.processed()
    }

    pub fn shards(&self) -> (n: usize)
        ensures
            n == self@.owner.len(),
    {
        self.state.shards()
    }

    /// How deep the queue of a shard is; `None` if there is no such shard, or if the
    /// receivers are gone.
    pub fn shard_queued(&self, shard: usize) -> (r: Option<usize>)
        requires
            self.wf(),
        ensures
            r == if shard < self@.owner.len() && !self@.channels_closed {
                Some(self@.depths[shard as int])
            } else {
                None
            },
    {
        if shard < self.state.shards() && !self.state.channels_closed() {
            Some(self.state.depth(shard))
        } else {
            None
        }
    }

    /// How deep each queue is; `None` if the receivers are gone.
    pub fn depths(&self) -> (r: Option<Vec<usize>>)
        requires
            self.wf(),
        ensures
            r is Some <==> !self@.channels_closed,
            r is Some ==> r->Some_0@ == self@.depths,
            r is Some ==> r->Some_0@.len() == self@.owner.len(),
    {
        if self.state.channels_closed() {
            return None;
        }
        proof {
            self.state.lemma_wf();
        }
        let n: usize = self.state.shards();
        let mut v: Vec<usize> = Vec::with_capacity(n);
        let mut s: usize = 0;
        while s < n
            invariant
                s <= n,
                self.state.wf(),
                n == self@.owner.len(),
                v@.len() == s,
                forall|k: int| 0 <= k < s ==> #[trigger] v@[k] == self@.depths[k],
            decreases n - s,
        {
            v.push(self.state.depth(s));
            s = s + 1;
        }
        assert(v@ =~= self@.depths);
        Some(v)
    }

    pub fn takeovers(&self) -> (n: u64)
        ensures
            n == self@.takeovers,
    {
        self.state.takeovers()
    }

    /// A snapshot of the pool.
    pub fn stats(&self) -> (p: Pool)
        requires
            self.wf(),
            self.placed(),
        ensures
            p.processed == self@.processed,
            p.handler_panics == self@.handler_panics,
            p.takeovers == self@.takeovers,
            p.active == self@.active,
            p.max_active == self@.max_active,
            p.stopped == self@.stopped,
            p.channels_closed == self@.channels_closed,
            p.spawn_failures == self@.spawn_failures,
            p.shards@ == Seq::new(self@.owner.len(), |s: int| shard_row(self@, s)),
            p.workers@ == Seq::new(
                rows(self@, self@.owner.len() as int) as nat,
                |w: int| worker_row(self@, w),
            ),
    {
        proof {
            assert forall|s: int| 0 <= s < self.state@.desired.len() implies (
            #[trigger] self.state@.desired[s]) < NONE by {
                assert(self@.desired[s] < NONE);
            }
        }
        snapshot(&self.state)
    }

    pub fn handler_panics(&self) -> (n: u64)
        ensures
            n == self@.handler_panics,
    {
        self.state.handler_panics()
    }

    pub fn active(&self) -> (n: usize)
        ensures
            n == self@.active,
    {
        self.state.active()
    }

    pub fn max_active(&self) -> (n: usize)
        ensures
            n == self@.max_active,
    {
        self.state.max_active()
    }

    pub fn worker_handles(&self) -> (n: usize)
        ensures
            n == self.workers().len(),
    {
        self.workers.len()
    }

    /// The right to stop the pool.
    pub fn get_signal_stop(&self) -> (s: Stop) {
        Stop::new()
    }

    pub fn is_stopped(&self) -> (b: bool)
        ensures
            b == self@.stopped,
    {
        self.state.is_stopped()
    }

    /// Stops the pool without waiting for its workers.
    pub fn stop_and_detach(self) -> (s: State)
        requires
            self.wf(),
        ensures
            s.wf(),
            s@ == (PoolModel { stopped: true, ..self@ }),
    {
        let AsyncPool { state, workers } = self;
        let mut state = state;
        state.stop();
        state
    }
}

} // verus!
