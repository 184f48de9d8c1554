use super::instance::{larger, smaller, Config, PoolModel, State, WorkerRow, NONE};
use vstd::arithmetic::div_mod::lemma_mod_bound;
use vstd::prelude::*;

verus! {

/// How many looks, one every `interval`, a worker may stay without completing an item
/// before it counts as stuck: as many as `budget` takes, and at least one.
pub open spec fn looks_of(budget: int, interval: int) -> int {
    let i = larger(interval, 1);
    smaller(larger((budget + i - 1) / i, 1), u32::MAX as int)
}

pub fn stall_looks(budget: u64, interval: u64) -> (n: u32)
    ensures
        n == looks_of(budget as int, interval as int),
        n >= 1,
{
    let i: u64 = if interval == 0 { 1 } else { interval };
    let whole: u64 = budget / i;
    let more: u64 = if budget % i == 0 { 0 } else { 1 };
    proof {
        let b = budget as int;
        let d = i as int;
        vstd::arithmetic::div_mod::lemma_fundamental_div_mod(b, d);
        lemma_mod_bound(b, d);
        let q = b / d;
        let r = b % d;
        if r == 0 {
            assert((b + d - 1) / d == q) by {
                vstd::arithmetic::div_mod::lemma_fundamental_div_mod_converse(
                    b + d - 1,
                    d,
                    q,
                    d - 1,
                );
            }
        } else {
            assert(d * (q + 1) == d * q + d) by (nonlinear_arith);
            assert((b + d - 1) / d == q + 1) by {
                vstd::arithmetic::div_mod::lemma_fundamental_div_mod_converse(
                    b + d - 1,
                    d,
                    q + 1,
                    r - 1,
                );
            }
        }
    }
    if whole >= 0xFFFF_FFFF {
        return u32::MAX;
    }
    let n: u32 = (whole + more) as u32;
    if n == 0 {
        1
    } else {
        n
    }
}

/// What the monitor remembers of the workers between two looks.
pub struct StallWatch {
    beats: Vec<u64>,
    looks: Vec<u32>,
}

/// What a [`StallWatch`] holds.
pub struct WatchModel {
    /// How many items each worker had completed.
    pub beats: Seq<u64>,
    /// How many looks in a row each worker was inside user code without having completed
    /// an item.
    pub looks: Seq<u32>,
}

/// How many such looks there are after one more look at a worker.
pub open spec fn looks_after(row: WorkerRow, beats: u64, looks: u32) -> u32 {
    if row.busy && row.beats == beats {
        smaller(looks + 1, u32::MAX as int) as u32
    } else {
        0
    }
}

impl WatchModel {
    pub open spec fn sound(self) -> bool {
        self.beats.len() == self.looks.len()
    }

    /// What is remembered after a look at the first `n` workers.
    pub open spec fn after(self, m: PoolModel, n: int) -> Self {
        WatchModel {
            beats: Seq::new(
                self.beats.len(),
                |w: int|
                    if w < n {
                        m.row(w).beats
                    } else {
                        self.beats[w]
                    },
            ),
            looks: Seq::new(
                self.looks.len(),
                |w: int|
                    if w < n {
                        looks_after(m.row(w), self.beats[w], self.looks[w])
                    } else {
                        self.looks[w]
                    },
            ),
        }
    }

    /// What is known of worker `w` after a look at the first `n` workers, with a limit of
    /// `most` looks.
    pub open spec fn marked_row(self, m: PoolModel, n: int, most: u32, w: int) -> WorkerRow {
        if w < n {
            WorkerRow { stalled: self.after(m, n).looks[w] >= most, ..m.row(w) }
        } else {
            m.row(w)
        }
    }

    /// The pool after a look at the first `n` workers: those that are stuck are marked, the
    /// others are not.
    pub open spec fn marked(self, m: PoolModel, n: int, most: u32) -> PoolModel {
        PoolModel {
            workers: Seq::new(
                larger(m.workers.len() as int, n) as nat,
                |w: int| self.marked_row(m, n, most, w),
            ),
            ..m
        }
    }
}

impl StallWatch {
    pub closed spec fn view(&self) -> WatchModel {
        WatchModel { beats: self.beats@, looks: self.looks@ }
    }

    /// Nothing is known of `workers` workers yet.
    pub fn new(workers: usize) -> (w: Self)
        ensures
            w@.sound(),
            w@.beats == Seq::new(workers as nat, |i: int| 0u64),
            w@.looks == Seq::new(workers as nat, |i: int| 0u32),
    {
        let mut beats: Vec<u64> = Vec::with_capacity(workers);
        let mut looks: Vec<u32> = Vec::with_capacity(workers);
        let mut i: usize = 0;
        while i < workers
            invariant
                i <= workers,
                beats@ == Seq::new(i as nat, |k: int| 0u64),
                looks@ == Seq::new(i as nat, |k: int| 0u32),
            decreases workers - i,
        {
            beats.push(0);
            looks.push(0);
            i = i + 1;
            proof {
                assert(beats@ =~= Seq::new(i as nat, |k: int| 0u64));
                assert(looks@ =~= Seq::new(i as nat, |k: int| 0u32));
            }
        }
        StallWatch { beats, looks }
    }

    /// Looks at the workers that have been started: a worker that is inside user code and
    /// has not completed an item for `most` looks is marked as stuck. One that waits for
    /// work never is.
    pub fn look(&mut self, state: &mut State, spawned: usize, most: u32)
        requires
            old(self)@.sound(),
            old(state).wf(),
        ensures
            final(self)@.sound(),
            final(state).wf(),
            ({
                let n = smaller(spawned as int, old(self)@.beats.len() as int);
                &&& final(self)@ == old(self)@.after(old(state)@, n)
                &&& final(state)@ == old(self)@.marked(old(state)@, n, most)
            }),
    {
        let ghost pre = self@;
        let ghost m = state@;
        let n: usize = if spawned < self.beats.len() {
            spawned
        } else {
            self.beats.len()
        };
        let mut w: usize = 0;
        proof {
            assert(pre.after(m, 0).beats =~= pre.beats);
            assert(pre.after(m, 0).looks =~= pre.looks);
            assert(pre.marked(m, 0, most).workers =~= m.workers);
        }
        while w < n
            invariant
                w <= n,
                n <= pre.beats.len(),
                pre.sound(),
                n == smaller(spawned as int, pre.beats.len() as int),
                pre == old(self)@,
                m == old(state)@,
                state.wf(),
                self@ == pre.after(m, w as int),
                state@ == pre.marked(m, w as int, most),
            decreases n - w,
        {
            let ghost k = w as int;
            assert(self.beats@.len() == pre.beats.len());
            let row = state.row(w);
            assert(row == m.row(k));
            let looks: u32 = if row.busy && row.beats == self.beats[w] {
                self.looks[w].saturating_add(1)
            } else {
                0
            };
            assert(looks == looks_after(m.row(k), pre.beats[k], pre.looks[k]));
            self.beats.set(w, row.beats);
            self.looks.set(w, looks);
            state.set_worker_stalled(w, looks >= most);
            proof {
                assert(self@.beats =~= pre.after(m, k + 1).beats);
                assert(self@.looks =~= pre.after(m, k + 1).looks);
                let q = pre.marked(m, k + 1, most);
                assert(state@.workers.len() == q.workers.len());
                assert forall|i: int| 0 <= i < q.workers.len() implies state@.workers[i]
                    == q.workers[i] by {
                    if i == k {
                        assert(pre.after(m, k + 1).looks[k] == looks);
                    } else if i < k {
                        assert(pre.after(m, k + 1).looks[i] == pre.after(m, k).looks[i]);
                        assert(pre.marked(m, k, most).row(i) == pre.marked_row(m, k, most, i));
                    } else {
                        assert(pre.marked(m, k, most).row(i) == m.row(i));
                    }
                }
                assert(state@.workers =~= q.workers);
            }
            w = w + 1;
        }
    }
}

/// The worker after `w`, going round `n` workers.
pub open spec fn next_worker(w: int, n: int) -> int {
    if w + 1 < n {
        w + 1
    } else {
        0
    }
}

/// The first worker that is not stuck among the `left` workers from `w` on, going round `n`.
pub open spec fn live_from(m: PoolModel, w: int, n: int, left: int) -> Option<int>
    decreases left,
{
    if left <= 0 {
        None
    } else if !m.row(w).stalled {
        Some(w)
    } else {
        live_from(m, next_worker(w, n), n, left - 1)
    }
}

/// The worker that takes shard `s` over: its home worker, or the next one that is not
/// stuck.
pub open spec fn relief(m: PoolModel, n: int, s: int) -> Option<int> {
    let home = s % larger(m.active as int, 1);
    live_from(
        m,
        if home < n {
            home
        } else {
            0
        },
        n,
        n,
    )
}

/// Shard `s` is to be taken away from its owner: the owner is stuck, and it does not hold
/// items of that shard with more of them waiting behind.
pub open spec fn lost(m: PoolModel, loads: Seq<usize>, s: int) -> bool {
    let o = m.owner[s] as int;
    m.row(o).stalled && !(m.row(o).current == s && loads[s] > 0)
}

/// Nobody owns shard `s`, and the one that should is stuck.
pub open spec fn stranded(m: PoolModel, s: int) -> bool {
    m.owner[s] == NONE && m.row(m.desired[s] as int).stalled
}

/// How many of the first `k` shards are taken away, if there is somebody to take them.
pub open spec fn lost_count(m: PoolModel, loads: Seq<usize>, n: int, k: int) -> int
    decreases k,
{
    if k <= 0 {
        0
    } else {
        lost_count(m, loads, n, k - 1) + if lost(m, loads, k - 1) && relief(m, n, k - 1) is Some {
            1int
        } else {
            0int
        }
    }
}

/// How many workers are wanted so that everybody who takes one of the first `k` shards over
/// is among them.
pub open spec fn wanted_for(m: PoolModel, loads: Seq<usize>, n: int, k: int) -> int
    decreases k,
{
    if k <= 0 {
        m.active as int
    } else {
        let rest = wanted_for(m, loads, n, k - 1);
        match relief(m, n, k - 1) {
            Some(w) => if lost(m, loads, k - 1) || stranded(m, k - 1) {
                larger(rest, w + 1)
            } else {
                rest
            },
            None => rest,
        }
    }
}

/// The pool after the first `k` shards have been relieved of stuck workers.
pub open spec fn relieved(m: PoolModel, loads: Seq<usize>, n: int, k: int) -> PoolModel {
    let active = wanted_for(m, loads, n, k);
    PoolModel {
        owner: Seq::new(
            m.owner.len(),
            |s: int|
                if s < k && lost(m, loads, s) && relief(m, n, s) is Some {
                    NONE
                } else {
                    m.owner[s]
                },
        ),
        desired: Seq::new(
            m.owner.len(),
            |s: int|
                if s < k && (lost(m, loads, s) || stranded(m, s)) && relief(m, n, s) is Some {
                    relief(m, n, s)->Some_0 as usize
                } else {
                    m.desired[s]
                },
        ),
        takeovers: m.takeovers.wrapping_add(lost_count(m, loads, n, k) as u64),
        active: active as usize,
        max_active: larger(m.max_active as int, active) as usize,
        ..m
    }
}

proof fn lemma_live_from(m: PoolModel, w: int, n: int, left: int)
    requires
        0 <= w < n || left <= 0,
    ensures
        live_from(m, w, n, left) is Some ==> {
            &&& 0 <= live_from(m, w, n, left)->Some_0 < n
            &&& !m.row(live_from(m, w, n, left)->Some_0).stalled
        },
    decreases left,
{
    if left > 0 && m.row(w).stalled {
        lemma_live_from(m, next_worker(w, n), n, left - 1);
    }
}

pub proof fn lemma_relief(m: PoolModel, n: int, s: int)
    requires
        0 <= n,
    ensures
        relief(m, n, s) is Some ==> {
            &&& 0 <= relief(m, n, s)->Some_0 < n
            &&& !m.row(relief(m, n, s)->Some_0).stalled
        },
{
    let a = larger(m.active as int, 1);
    lemma_mod_bound(s, a);
    let home = s % a;
    lemma_live_from(
        m,
        if home < n {
            home
        } else {
            0
        },
        n,
        n,
    );
}

pub proof fn lemma_counts(m: PoolModel, loads: Seq<usize>, n: int, k: int)
    requires
        0 <= n,
        0 <= k,
    ensures
        0 <= lost_count(m, loads, n, k) <= k,
        m.active <= wanted_for(m, loads, n, k) <= larger(m.active as int, n),
    decreases k,
{
    if k > 0 {
        lemma_counts(m, loads, n, k - 1);
        lemma_relief(m, n, k - 1);
    }
}

/// The first worker that is not stuck, going round from `start`.
fn live_worker(state: &State, start: usize, n: usize) -> (r: Option<usize>)
    requires
        start < n,
    ensures
        r is Some <==> live_from(state@, start as int, n as int, n as int) is Some,
        r is Some ==> r->Some_0 == live_from(state@, start as int, n as int, n as int)->Some_0,
{
    let mut w: usize = start;
    let mut left: usize = n;
    while left > 0
        invariant
            w < n,
            left <= n,
            live_from(state@, w as int, n as int, left as int) == live_from(
                state@,
                start as int,
                n as int,
                n as int,
            ),
        decreases left,
    {
        if !state.worker_stalled(w) {
            return Some(w);
        }
        w = if w < n - 1 { w + 1 } else { 0 };
        left = left - 1;
    }
    None
}

/// Looks for stuck workers and takes their shards away, if the pool is set up for it: each
/// such shard goes to the next worker that is not stuck, and more workers are wanted if it
/// takes one that is not there yet. A shard of which the stuck worker holds items stays
/// with it as long as more of them wait behind. Says how many shards were taken away.
///
/// `loads` are the queue depths, `spawned` workers have been started, and the monitor looks
/// every `interval` milliseconds.
pub fn stall_takeover_pass(
    cfg: &Config,
    state: &mut State,
    loads: &[usize],
    watch: &mut StallWatch,
    spawned: usize,
    interval: u64,
) -> (moved: usize)
    requires
        old(state).wf(),
        old(watch)@.sound(),
        loads@.len() == old(state)@.owner.len(),
    ensures
        final(state).wf(),
        final(watch)@.sound(),
        match cfg.stall_takeover {
            None => {
                &&& final(state)@ == old(state)@
                &&& final(watch)@ == old(watch)@
                &&& moved == 0
            },
            Some(budget) => {
                let seen = smaller(spawned as int, old(watch)@.beats.len() as int);
                let most = looks_of(budget as int, interval as int) as u32;
                let m = old(watch)@.marked(old(state)@, seen, most);
                let n = cfg.max_consumers as int;
                let k = loads@.len() as int;
                &&& final(watch)@ == old(watch)@.after(old(state)@, seen)
                &&& final(state)@ == relieved(m, loads@, n, k)
                &&& moved == lost_count(m, loads@, n, k)
            },
        },
{
    let budget: u64 = match cfg.stall_takeover {
        Some(budget) => budget,
        None => {
            return 0;
        },
    };
    let most: u32 = stall_looks(budget, interval);
    watch.look(state, spawned, most);
    let ghost m = state@;
    proof {
        state.lemma_wf();
    }
    let n: usize = cfg.max_consumers;
    let active: usize = state.active();
    let divisor: usize = if active == 0 { 1 } else { active };
    let shards: usize = state.shards();
    let mut wanted: usize = active;
    let mut moved: usize = 0;
    let mut s: usize = 0;
    proof {
        let q = relieved(m, loads@, n as int, 0);
        assert(q.owner =~= m.owner);
        assert(q.desired =~= m.desired);
    }
    while s < shards
        invariant
            s <= shards,
            shards == m.owner.len(),
            m.sound(),
            loads@.len() == shards,
            n == cfg.max_consumers,
            divisor == larger(m.active as int, 1),
            active == m.active,
            state.wf(),
            state@ == (PoolModel {
                active: m.active,
                max_active: m.max_active,
                ..relieved(m, loads@, n as int, s as int)
            }),
            wanted == wanted_for(m, loads@, n as int, s as int),
            moved == lost_count(m, loads@, n as int, s as int),
        decreases shards - s,
    {
        let ghost k = s as int;
        let ghost before = state@;
        proof {
            lemma_counts(m, loads@, n as int, k);
            lemma_counts(m, loads@, n as int, k + 1);
            lemma_relief(m, n as int, k);
            lemma_mod_bound(k, divisor as int);
        }
        let o: usize = state.owner(s);
        assert(o == m.owner[k]);
        let stuck = state.row(o);
        assert(stuck == m.row(o as int));
        let taken = stuck.stalled && !(stuck.current == s && loads[s] > 0);
        let adrift = o == NONE && state.worker_stalled(state.desired(s));
        assert(taken == lost(m, loads@, k));
        assert(adrift == stranded(m, k));
        if taken || adrift {
            let home: usize = s % divisor;
            let to = if n == 0 {
                None
            } else {
                live_worker(state, if home < n { home } else { 0 }, n)
            };
            proof {
                let start = if home < n {
                    home as int
                } else {
                    0
                };
                lemma_same_rows(m, state@, start, n as int, n as int);
            }
            match to {
                Some(w) => {
                    assert(relief(m, n as int, k) == Some(w as int));
                    state.set_desired(s, w);
                    if taken {
                        state.set_owner(s, NONE);
                        state.note_takeover();
                        moved = moved + 1;
                    }
                    if wanted <= w {
                        wanted = w + 1;
                    }
                },
                None => {
                    assert(relief(m, n as int, k) is None);
                },
            }
        }
        proof {
            let q = relieved(m, loads@, n as int, k + 1);
            assert(state@.owner =~= q.owner);
            assert(state@.desired =~= q.desired);
        }
        s = s + 1;
    }
    proof {
        lemma_counts(m, loads@, n as int, shards as int);
    }
    if wanted != active {
        state.set_active(wanted);
    }
    moved
}

/// Who is stuck does not depend on who owns what.
proof fn lemma_same_rows(m: PoolModel, m2: PoolModel, w: int, n: int, left: int)
    requires
        m.workers == m2.workers,
    ensures
        live_from(m, w, n, left) == live_from(m2, w, n, left),
    decreases left,
{
    if left > 0 {
        assert(m.row(w) == m2.row(w));
        lemma_same_rows(m, m2, next_worker(w, n), n, left - 1);
    }
}

/// The worker `j` places on from `w`, going round `n` workers.
spec fn places_on(w: int, j: int, n: int) -> int {
    if w + j < n {
        w + j
    } else {
        w + j - n
    }
}

proof fn lemma_none_live(m: PoolModel, w: int, n: int, left: int)
    requires
        0 <= w < n,
        0 <= left <= n,
        live_from(m, w, n, left) is None,
    ensures
        forall|j: int| 0 <= j < left ==> m.row(#[trigger] places_on(w, j, n)).stalled,
    decreases left,
{
    if left > 0 {
        let v = next_worker(w, n);
        lemma_none_live(m, v, n, left - 1);
        assert forall|j: int| 0 <= j < left implies m.row(#[trigger] places_on(w, j, n)).stalled by {
            if j > 0 {
                assert(places_on(w, j, n) == places_on(v, j - 1, n));
            }
        }
    }
}

/// If any worker is not stuck, every shard can be relieved.
pub proof fn lemma_some_live(m: PoolModel, n: int, s: int, live: int)
    requires
        0 <= live < n,
        !m.row(live).stalled,
    ensures
        relief(m, n, s) is Some,
{
    let a = larger(m.active as int, 1);
    lemma_mod_bound(s, a);
    let home = s % a;
    let start = if home < n {
        home
    } else {
        0
    };
    if live_from(m, start, n, n) is None {
        lemma_none_live(m, start, n, n);
        let j = if live >= start {
            live - start
        } else {
            live - start + n
        };
        assert(places_on(start, j, n) == live);
    }
}

proof fn lemma_wanted(m: PoolModel, loads: Seq<usize>, n: int, s: int, k: int)
    requires
        0 <= s < k,
        0 <= n,
        lost(m, loads, s) || stranded(m, s),
        relief(m, n, s) is Some,
    ensures
        relief(m, n, s)->Some_0 < wanted_for(m, loads, n, k),
    decreases k,
{
    if s < k - 1 {
        lemma_wanted(m, loads, n, s, k - 1);
    }
}

/// A worker that waits for work is never marked as stuck, however long it waits; and one
/// that completes items is not either.
pub proof fn law_only_the_stuck_are_marked(
    watch: WatchModel,
    m: PoolModel,
    n: int,
    most: u32,
    w: int,
)
    requires
        watch.sound(),
        0 <= w < n <= watch.beats.len(),
        most >= 1,
        !m.row(w).busy || m.row(w).beats != watch.beats[w],
    ensures
        !watch.marked(m, n, most).row(w).stalled,
{
    assert(watch.after(m, n).looks[w] == 0);
}

/// Order is never traded for progress: of a shard whose items a worker holds, with more of
/// them waiting behind, that worker stays the owner, stuck or not.
pub proof fn law_frozen_shard_stays(m: PoolModel, loads: Seq<usize>, n: int, s: int)
    requires
        0 <= s < m.owner.len(),
        m.owner[s] != NONE,
        m.row(m.owner[s] as int).current == s,
        loads[s] > 0,
    ensures
        relieved(m, loads, n, m.owner.len() as int).owner[s] == m.owner[s],
        relieved(m, loads, n, m.owner.len() as int).desired[s] == m.desired[s],
{
}

/// Ownership is strict: only a stuck worker loses a shard.
pub proof fn law_only_the_stuck_lose_shards(m: PoolModel, loads: Seq<usize>, n: int, s: int)
    requires
        0 <= s < m.owner.len(),
        !m.row(m.owner[s] as int).stalled,
    ensures
        relieved(m, loads, n, m.owner.len() as int).owner[s] == m.owner[s],
        m.owner[s] != NONE ==> relieved(m, loads, n, m.owner.len() as int).desired[s]
            == m.desired[s],
{
}

/// A shard of a stuck worker is rescued if any worker is not stuck: it is free, and is
/// wanted for a worker that is not stuck and among those that run.
pub proof fn law_shards_are_rescued(
    m: PoolModel,
    loads: Seq<usize>,
    n: int,
    s: int,
    live: int,
)
    requires
        0 <= s < m.owner.len(),
        lost(m, loads, s),
        0 <= live < n <= usize::MAX,
        !m.row(live).stalled,
    ensures
        ({
            let r = relieved(m, loads, n, m.owner.len() as int);
            &&& r.owner[s] == NONE
            &&& r.desired[s] < n
            &&& r.desired[s] < r.active
            &&& !m.row(r.desired[s] as int).stalled
        }),
{
    let k = m.owner.len() as int;
    lemma_some_live(m, n, s, live);
    lemma_relief(m, n, s);
    lemma_wanted(m, loads, n, s, k);
    lemma_counts(m, loads, n, k);
}

} // verus!
