use super::instance::{
    all_closed, decided, larger, smaller, Config, FillSignal, PoolModel, WorkerRow, NONE,
};
use super::placement::{
    anchor_of, by_load, is_order, law_busiest_first, lemma_order_covers, lemma_placed, lightest,
    loads_of, placed, rebalanced, wanted,
};
use super::guard::given_up;
use super::stall::{live_from, looks_of, lost, relief, relieved, stranded, WatchModel};
use super::stats::{rows, shard_row, worker_row};
use super::worker::{idle_phase_of, item_end, looked, reads, IdlePhase, ItemEnd};
use crate::internal_channel::model::ChannelModel;
use vstd::arithmetic::div_mod::lemma_mod_bound;
use vstd::prelude::*;

verus! {

/// On a low fill the number of workers goes down by exactly one, until it has reached the
/// lower limit.
pub proof fn law_low_fill_stops_one_worker(cfg: Config, current: int)
    requires
        0 <= current,
    ensures
        current > cfg.min_consumers ==> decided(cfg, current, FillSignal::Low) == current - 1,
        current <= cfg.min_consumers ==> decided(cfg, current, FillSignal::Low)
            == cfg.min_consumers,
{
}

/// On a high fill the number of workers goes up at once to what the load calls for, as far as
/// the upper limit allows, and never down. In between it stays.
pub proof fn law_high_fill_starts_workers_at_once(cfg: Config, current: int, target: usize)
    requires
        0 <= current <= cfg.max_consumers,
    ensures
        target <= current ==> decided(cfg, current, FillSignal::High { target }) == current,
        current <= target <= cfg.max_consumers ==> decided(
            cfg,
            current,
            FillSignal::High { target },
        ) == target,
        target >= cfg.max_consumers ==> decided(cfg, current, FillSignal::High { target })
            == cfg.max_consumers,
        decided(cfg, current, FillSignal::Steady) == current,
{
}

/// However the fill changes, a pool within its limits stays within them.
pub proof fn law_limits_hold(cfg: Config, current: int, signal: FillSignal, hot: int)
    requires
        cfg.min_consumers <= current <= cfg.max_consumers,
        0 <= hot,
    ensures
        cfg.min_consumers <= wanted(cfg, current, signal, hot) <= cfg.max_consumers,
{
}

/// Shards that are almost full get a worker each and one more for the rest, as far as the
/// upper limit allows; the fill may call for more workers, never for fewer. Without isolation,
/// or without such shards, the fill alone decides.
pub proof fn law_hot_shards_get_workers(cfg: Config, current: int, signal: FillSignal, hot: int)
    ensures
        cfg.hotspot_isolation && hot > 0 ==> {
            let n = wanted(cfg, current, signal, hot);
            &&& n >= decided(cfg, current, signal)
            &&& n >= hot + 1 || n >= cfg.max_consumers
            &&& n == decided(cfg, current, signal) || n == hot + 1 || n == cfg.max_consumers
            &&& n > decided(cfg, current, signal) ==> n <= hot + 1 && n <= cfg.max_consumers
        },
        !cfg.hotspot_isolation || hot <= 0 ==> wanted(cfg, current, signal, hot) == decided(
            cfg,
            current,
            signal,
        ),
{
}

/// The worker that is picked for a shard is the lightest up to the margin: no worker has less
/// work than it by more than the margin. Unless the shard stays where it is, the worker is also
/// lighter than every worker before it.
pub proof fn law_lightest_worker_is_picked(work: Seq<int>, anchor: int, margin: int)
    requires
        0 <= anchor < work.len(),
        0 <= margin,
    ensures
        ({
            let best = lightest(work, anchor, margin, work.len() as int).0;
            &&& 0 <= best < work.len()
            &&& forall|w: int| 0 <= w < work.len() ==> work[best] <= #[trigger] work[w] + margin
            &&& best == anchor || work[best] + margin < work[anchor]
            &&& best == anchor || forall|w: int| 0 <= w < best ==> work[best] < #[trigger] work[w]
        }),
{
    lemma_pick(work, anchor, margin, work.len() as int);
}

proof fn lemma_pick(work: Seq<int>, anchor: int, margin: int, k: int)
    requires
        0 <= anchor < work.len(),
        0 <= margin,
        0 <= k <= work.len(),
    ensures
        ({
            let (best, load) = lightest(work, anchor, margin, k);
            &&& 0 <= best < work.len()
            &&& load == work[best]
            &&& forall|w: int| 0 <= w < k ==> work[best] <= #[trigger] work[w] + margin
            &&& best == anchor || work[best] + margin < work[anchor]
            &&& best == anchor || forall|w: int| 0 <= w < best ==> work[best] < #[trigger] work[w]
        }),
    decreases k,
{
    if k > 0 {
        lemma_pick(work, anchor, margin, k - 1);
    }
}

/// Shard `t` is placed before shard `s`: it is busier, or as busy and comes first.
pub open spec fn goes_before(loads: Seq<usize>, t: int, s: int) -> bool {
    loads[t] > loads[s] || (loads[t] == loads[s] && t < s)
}

/// The sum of the loads of those of the first `n` shards that `among` picks.
pub open spec fn load_of(loads: Seq<usize>, among: spec_fn(int) -> bool, n: int) -> int
    decreases n,
{
    if n <= 0 {
        0
    } else {
        load_of(loads, among, n - 1) + if among(n - 1) {
            loads[n - 1] as int
        } else {
            0int
        }
    }
}

/// How much work worker `w` has by the placement `d` from the shards that go before `s`.
pub open spec fn work_before(loads: Seq<usize>, d: Seq<usize>, s: int, w: int) -> int {
    load_of(loads, |t: int| goes_before(loads, t, s) && d[t] == w, loads.len() as int)
}

proof fn lemma_load_of_same(
    loads: Seq<usize>,
    a: spec_fn(int) -> bool,
    b: spec_fn(int) -> bool,
    n: int,
)
    requires
        forall|t: int| 0 <= t < n ==> #[trigger] a(t) == b(t),
    ensures
        load_of(loads, a, n) == load_of(loads, b, n),
    decreases n,
{
    if n > 0 {
        lemma_load_of_same(loads, a, b, n - 1);
        assert(a(n - 1) == b(n - 1));
    }
}

proof fn lemma_load_of_none(loads: Seq<usize>, a: spec_fn(int) -> bool, n: int)
    requires
        forall|t: int| 0 <= t < n ==> !#[trigger] a(t),
    ensures
        load_of(loads, a, n) == 0,
    decreases n,
{
    if n > 0 {
        lemma_load_of_none(loads, a, n - 1);
        assert(!a(n - 1));
    }
}

proof fn lemma_load_of_more(
    loads: Seq<usize>,
    a: spec_fn(int) -> bool,
    b: spec_fn(int) -> bool,
    s: int,
    n: int,
)
    requires
        0 <= s < n,
        !a(s),
        b(s),
        forall|t: int| 0 <= t < n && t != s ==> #[trigger] a(t) == b(t),
    ensures
        load_of(loads, b, n) == load_of(loads, a, n) + loads[s],
    decreases n,
{
    if s == n - 1 {
        lemma_load_of_same(loads, a, b, n - 1);
    } else {
        lemma_load_of_more(loads, a, b, s, n - 1);
        assert(a(n - 1) == b(n - 1));
    }
}

/// Shard `t` is among the first `k` of `order`.
spec fn early(order: Seq<usize>, k: int, t: int) -> bool {
    exists|i: int| 0 <= i < k && #[trigger] order[i] == t
}

/// Which shards are among the first `k` of `order` and with worker `w` by the placement `d`.
spec fn early_on(order: Seq<usize>, k: int, d: Seq<usize>, w: int) -> spec_fn(int) -> bool {
    |t: int| early(order, k, t) && d[t] == w
}

/// The work of the workers after `k` shards is what has been placed on them.
proof fn lemma_work_is_placed(
    order: Seq<usize>,
    loads: Seq<usize>,
    desired: Seq<usize>,
    active: int,
    margin: int,
    k: int,
    w: int,
)
    requires
        0 < active <= usize::MAX,
        0 <= k <= order.len(),
        loads.len() <= desired.len(),
        is_order(order, loads.len() as int),
        0 <= w < active,
    ensures
        ({
            let (work, d) = placed(order, loads, desired, active, margin, k);
            work[w] == load_of(loads, early_on(order, k, d, w), loads.len() as int)
        }),
    decreases k,
{
    let n = loads.len() as int;
    let (work, d) = placed(order, loads, desired, active, margin, k);
    let now = early_on(order, k, d, w);
    if k == 0 {
        lemma_load_of_none(loads, now, n);
    } else {
        lemma_work_is_placed(order, loads, desired, active, margin, k - 1, w);
        lemma_placed(order, loads, desired, active, margin, k - 1);
        let (work0, d0) = placed(order, loads, desired, active, margin, k - 1);
        let s = order[k - 1] as int;
        assert(order[k - 1] < n);
        let sofar = early_on(order, k - 1, d0, w);
        lemma_mod_bound(s, active);
        let best = lightest(work0, anchor_of(d0, s, active), margin, active).0;
        super::placement::lemma_lightest(work0, anchor_of(d0, s, active), margin, active);
        assert(!early(order, k - 1, s)) by {
            if early(order, k - 1, s) {
                let i = choose|i: int| 0 <= i < k - 1 && #[trigger] order[i] == s;
                assert(order[i] != order[k - 1]);
            }
        }
        assert(early(order, k, s)) by {
            assert(order[k - 1] == s);
        }
        assert forall|t: int| 0 <= t < n && t != s implies #[trigger] sofar(t) == now(t) by {
            if early(order, k - 1, t) {
                let i = choose|i: int| 0 <= i < k - 1 && #[trigger] order[i] == t;
                assert(0 <= i < k && order[i] == t);
            }
            if early(order, k, t) {
                let i = choose|i: int| 0 <= i < k && #[trigger] order[i] == t;
                assert(i < k - 1);
            }
        }
        assert(d[s] == best);
        if best == w {
            lemma_load_of_more(loads, sofar, now, s, n);
        } else {
            assert(sofar(s) == now(s));
            lemma_load_of_same(loads, sofar, now, n);
        }
    }
}

/// Shards that have been placed stay where they were put.
proof fn lemma_placed_stays(
    order: Seq<usize>,
    loads: Seq<usize>,
    desired: Seq<usize>,
    active: int,
    margin: int,
    j: int,
    k: int,
    t: int,
)
    requires
        0 < active <= usize::MAX,
        0 <= j <= k <= order.len(),
        loads.len() <= desired.len(),
        is_order(order, loads.len() as int),
        0 <= t < loads.len(),
        forall|i: int| j <= i < k ==> #[trigger] order[i] != t,
    ensures
        placed(order, loads, desired, active, margin, j).1[t] == placed(
            order,
            loads,
            desired,
            active,
            margin,
            k,
        ).1[t],
    decreases k - j,
{
    if j < k {
        lemma_placed_stays(order, loads, desired, active, margin, j, k - 1, t);
        lemma_placed(order, loads, desired, active, margin, k - 1);
        assert(order[k - 1] != t);
        assert(order[k - 1] < loads.len());
    }
}

/// What a rebalance does to each shard, by its inputs and its result alone. Shards are placed
/// busiest first, and in their order if equally busy. Each goes to a worker that, counting what
/// has been placed before, is the lightest up to the margin. It stays with the worker that has
/// it now, or with its home worker if that one is retired, unless another is lighter by more
/// than the margin; the worker that it goes to then is lighter than every worker before it.
pub proof fn law_each_shard_goes_to_the_lightest_worker(
    loads: Seq<usize>,
    desired: Seq<usize>,
    active: int,
    margin: int,
    s: int,
)
    requires
        loads.len() <= desired.len(),
        loads.len() <= usize::MAX,
        0 < active <= usize::MAX,
        0 <= margin,
        0 <= s < loads.len(),
    ensures
        ({
            let d = rebalanced(loads, desired, active, margin);
            let home = if desired[s] < active {
                desired[s] as int
            } else {
                s % active
            };
            let mine = work_before(loads, d, s, d[s] as int);
            &&& d[s] < active
            &&& forall|w: int|
                0 <= w < active ==> mine <= #[trigger] work_before(loads, d, s, w) + margin
            &&& d[s] == home || mine + margin < work_before(loads, d, s, home)
            &&& d[s] == home || forall|w: int|
                0 <= w < d[s] ==> mine < #[trigger] work_before(loads, d, s, w)
        }),
{
    let n = loads.len() as int;
    let o = by_load(loads, n);
    law_busiest_first(loads, n);
    lemma_order_covers(o, n, s as usize);
    let k = choose|k: int| 0 <= k < n && o[k] == s as usize;
    let d = placed(o, loads, desired, active, margin, n).1;
    let (work, d0) = placed(o, loads, desired, active, margin, k);
    let (work1, d1) = placed(o, loads, desired, active, margin, k + 1);
    lemma_placed(o, loads, desired, active, margin, k);
    assert forall|i: int| 0 <= i < k implies #[trigger] o[i] != s by {
        assert(o[i] != o[k]);
    }
    assert forall|i: int| k + 1 <= i < n implies #[trigger] o[i] != s by {
        assert(o[k] != o[i]);
    }
    lemma_placed_stays(o, loads, desired, active, margin, 0, k, s);
    lemma_placed_stays(o, loads, desired, active, margin, k + 1, n, s);
    assert(d0[s] == desired[s]);
    lemma_mod_bound(s, active);
    let a = anchor_of(d0, s, active);
    law_lightest_worker_is_picked(work, a, margin);
    assert(d1[s] == lightest(work, a, margin, active).0);
    assert forall|w: int| 0 <= w < active implies #[trigger] work_before(loads, d, s, w)
        == work[w] by {
        lemma_work_is_placed(o, loads, desired, active, margin, k, w);
        let f = early_on(o, k, d0, w);
        let g = |t: int| goes_before(loads, t, s) && d[t] == w;
        assert forall|t: int| 0 <= t < n implies #[trigger] f(t) == g(t) by {
            lemma_order_covers(o, n, t as usize);
            let i = choose|i: int| 0 <= i < n && o[i] == t as usize;
            if i < k {
                assert(early(o, k, t));
                let x = o[i] as int;
                let y = o[k] as int;
                assert(loads[x] > loads[y] || (loads[x] == loads[y] && x < y));
                assert forall|j: int| k <= j < n implies #[trigger] o[j] != t by {
                    assert(o[i] != o[j]);
                }
                lemma_placed_stays(o, loads, desired, active, margin, k, n, t);
            } else {
                assert(!early(o, k, t)) by {
                    if early(o, k, t) {
                        let j = choose|j: int| 0 <= j < k && #[trigger] o[j] == t;
                        assert(o[j] != o[i]);
                    }
                }
                if i > k {
                    let x = o[k] as int;
                    let y = o[i] as int;
                    assert(loads[x] > loads[y] || (loads[x] == loads[y] && x < y));
                }
            }
        }
        lemma_load_of_same(loads, f, g, n);
    }
}

/// A pool without active workers is placed as one with a single worker.
pub proof fn law_somebody_gets_the_shards(
    loads: Seq<usize>,
    desired: Seq<usize>,
    margin: int,
)
    ensures
        rebalanced(loads, desired, 0, margin) == rebalanced(loads, desired, 1, margin),
{
}

/// The load of a shard is how many positions are pending, and never more than its capacity.
pub proof fn law_loads_are_queue_depths<T, W>(ms: Seq<ChannelModel<T, W>>, cap: usize, s: int)
    requires
        0 <= s < ms.len(),
    ensures
        loads_of(ms, cap as int).len() == ms.len(),
        ms[s].pending.len() <= cap ==> loads_of(ms, cap as int)[s] == ms[s].pending.len(),
        ms[s].pending.len() >= cap ==> loads_of(ms, cap as int)[s] == cap,
{
}

/// A new pool has the workers that it was asked for, and at least one; nobody owns a shard
/// yet, shard `s` is meant for worker `s` modulo the number of workers, and nothing has been
/// counted.
pub proof fn law_new_pool(shards: int, min: usize, s: int)
    requires
        0 <= s < shards,
    ensures
        ({
            let m = PoolModel::initial(shards, min);
            &&& m.active >= 1
            &&& min >= 1 ==> m.active == min
            &&& m.max_active == m.active
            &&& m.owner.len() == shards
            &&& m.owner[s] == NONE
            &&& m.desired[s] == s % (m.active as int)
            &&& !m.closed[s]
            &&& m.depths[s] == 0
            &&& !m.stopped && !m.channels_closed
            &&& m.processed == 0 && m.handler_panics == 0 && m.takeovers == 0 && m.spawn_failures
                == 0
        }),
{
    let a = if min >= 1 {
        min as int
    } else {
        1
    };
    lemma_mod_bound(s, a);
}

/// A worker that is wanted for a shard gets it as soon as nobody else has it, and reads it
/// from then on; one that is not wanted gives it up. A shard that another worker has is left
/// alone.
pub proof fn law_wanted_worker_claims(m: PoolModel, id: usize, s: int, target: usize)
    requires
        m.sound(),
        0 <= s < m.owner.len(),
        id < NONE,
    ensures
        ({
            let (m2, mine) = m.claimed(id, s, target);
            &&& mine <==> target == id && (m.owner[s] == id || m.owner[s] == NONE)
            &&& mine <==> target == id && m2.owner[s] == id
            &&& target != id && m.owner[s] == id ==> m2.owner[s] == NONE
            &&& m.owner[s] != id && m.owner[s] != NONE ==> m2.owner[s] == m.owner[s]
            &&& m.owner[s] == NONE && target != id ==> m2.owner[s] == NONE
            &&& m2 == (PoolModel { owner: m2.owner, ..m })
        }),
{
    if m.owner[s] == id && target == id {
        assert(m.owner.update(s, id) =~= m.owner);
    }
}

/// In a pass a worker reads exactly the shards that it owns after its look at them, and it
/// leaves the shards that it has not looked at alone.
pub proof fn law_worker_reads_what_it_owns(m: PoolModel, id: usize, from: int, to: int, s: int)
    requires
        m.sound(),
        id < NONE,
        0 <= from <= to <= m.owner.len(),
        0 <= s < m.owner.len(),
    ensures
        from <= s < to ==> (reads(m, id, s) <==> looked(m, id, from, to).owner[s] == id),
        from <= s < to ==> (reads(m, id, s) <==> m.desired[s] == id && (m.owner[s] == id
            || m.owner[s] == NONE)),
        !(from <= s < to) ==> looked(m, id, from, to).owner[s] == m.owner[s],
        looked(m, id, from, to).desired == m.desired,
        looked(m, id, from, to).closed == m.closed,
{
}

/// A worker that goes away gives up every shard that it owns, and no other.
pub proof fn law_gone_worker_owns_nothing(m: PoolModel, id: usize, s: int)
    requires
        id < NONE,
        0 <= s < m.owner.len(),
    ensures
        given_up(m, id).owner[s] != id,
        m.owner[s] == id ==> given_up(m, id).owner[s] == NONE,
        m.owner[s] != id ==> given_up(m, id).owner[s] == m.owner[s],
        given_up(m, id).owner.len() == m.owner.len(),
        given_up(m, id).desired == m.desired,
{
}

/// A worker without work spins for 128 passes, gives way up to the 256th, and sleeps from
/// then on.
pub proof fn law_idle_workers_wait_with_growing_patience(streak: u32)
    ensures
        idle_phase_of(streak) == IdlePhase::Spin <==> streak < 128,
        idle_phase_of(streak) == IdlePhase::Yield <==> 128 <= streak < 256,
        idle_phase_of(streak) == IdlePhase::Sleep <==> streak >= 256,
{
}

/// An item whose handler finished is done with, with whatever the handler left; one whose
/// handler panicked goes to the dead letters if the handler had not taken it.
pub proof fn law_items_end_by_their_handlers<T>(panicked: bool, slot: Option<T>)
    ensures
        item_end(panicked, slot) is Done <==> !panicked,
        !panicked ==> item_end(panicked, slot) == ItemEnd::Done(slot),
        item_end(panicked, slot) is DeadLetter <==> panicked && slot is Some,
        panicked && slot is Some ==> item_end(panicked, slot) == ItemEnd::DeadLetter(slot->Some_0),
        item_end(panicked, slot) is Taken <==> panicked && slot is None,
{
}

/// A closed shard is noted once. The pool stops with the last of them, and only then; nothing
/// else changes.
pub proof fn law_closing_a_shard(m: PoolModel, s: int)
    requires
        m.sound(),
        0 <= s < m.closed.len(),
    ensures
        m.shard_closed(s).closed[s],
        forall|t: int| 0 <= t < m.closed.len() && t != s ==> #[trigger] m.shard_closed(s).closed[t]
            == m.closed[t],
        m.shard_closed(s).closed.len() == m.closed.len(),
        m.shard_closed(s).stopped <==> m.stopped || (!m.closed[s] && forall|t: int|
            0 <= t < m.closed.len() && t != s ==> #[trigger] m.closed[t]),
        m.shard_closed(s).owner == m.owner,
        m.shard_closed(s).desired == m.desired,
        m.shard_closed(s).processed == m.processed,
{
    let closed = m.closed.update(s, true);
    if forall|t: int| 0 <= t < m.closed.len() && t != s ==> #[trigger] m.closed[t] {
        assert(all_closed(closed));
    } else {
        let t = choose|t: int| 0 <= t < m.closed.len() && t != s && !(#[trigger] m.closed[t]);
        assert(!closed[t]);
    }
}

/// A limit of `budget`, looked at every `interval`, is so many looks as it takes for the
/// budget to be used up, rounded up, and at least one.
pub proof fn law_limit_in_looks(budget: int, interval: int)
    requires
        0 <= budget,
        0 < interval,
    ensures
        ({
            let n = looks_of(budget, interval);
            &&& n >= 1
            &&& n < u32::MAX ==> n * interval >= budget
            &&& n > 1 ==> (n - 1) * interval < budget
            &&& looks_of(budget, 0) == looks_of(budget, 1)
        }),
{
    let q = (budget + interval - 1) / interval;
    vstd::arithmetic::div_mod::lemma_fundamental_div_mod(budget + interval - 1, interval);
    lemma_mod_bound(budget + interval - 1, interval);
    let r = (budget + interval - 1) % interval;
    assert(interval * q == q * interval) by (nonlinear_arith);
    assert((q - 1) * interval == q * interval - interval) by (nonlinear_arith);
    let n = looks_of(budget, interval);
    if n < q {
        assert((n - 1) * interval <= (q - 1) * interval) by (nonlinear_arith)
            requires
                n < q,
                0 < interval,
        ;
    }
    if q < 1 {
        assert(q * interval <= 0) by (nonlinear_arith)
            requires
                q < 1,
                0 < interval,
        ;
    }
}

/// A worker is marked as stuck exactly when it has been inside user code, without completing
/// an item, for as many looks in a row as the limit allows. Completing an item, or being
/// outside user code, starts the count anew.
pub proof fn law_the_stuck_are_marked(
    watch: WatchModel,
    m: PoolModel,
    n: int,
    most: u32,
    w: int,
)
    requires
        watch.sound(),
        0 <= w < n <= watch.beats.len(),
    ensures
        ({
            let row = m.row(w);
            let still = row.busy && row.beats == watch.beats[w];
            let after = watch.after(m, n);
            let r = watch.marked(m, n, most).row(w);
            &&& !still ==> after.looks[w] == 0
            &&& still && watch.looks[w] < u32::MAX ==> after.looks[w] == watch.looks[w] + 1
            &&& still && watch.looks[w] == u32::MAX ==> after.looks[w] == u32::MAX
            &&& after.beats[w] == row.beats
            &&& r.stalled <==> after.looks[w] >= most
            &&& (r.busy, r.beats, r.current) == (row.busy, row.beats, row.current)
        }),
        forall|v: int|
            n <= v < watch.beats.len() ==> #[trigger] watch.after(m, n).looks[v] == watch.looks[v],
        forall|v: int| n <= v ==> #[trigger] watch.marked(m, n, most).row(v) == m.row(v),
{
    assert(watch.marked(m, n, most).workers[w] == watch.marked_row(m, n, most, w));
    assert forall|v: int| n <= v implies #[trigger] watch.marked(m, n, most).row(v) == m.row(v) by {
        if v < watch.marked(m, n, most).workers.len() {
            assert(watch.marked(m, n, most).workers[v] == watch.marked_row(m, n, most, v));
        }
    }
}

/// The worker that takes a shard over is the home worker of the shard if that one is not
/// stuck, and nobody only if all are stuck.
pub proof fn law_home_worker_takes_over(m: PoolModel, n: int, s: int)
    requires
        0 < n,
        0 < m.active <= n,
    ensures
        !m.row(s % (m.active as int)).stalled ==> relief(m, n, s) == Some(s % (m.active as int)),
        relief(m, n, s) is Some ==> 0 <= relief(m, n, s)->Some_0 < n && !m.row(
            relief(m, n, s)->Some_0,
        ).stalled,
        relief(m, n, s) is None ==> forall|w: int| 0 <= w < n ==> (#[trigger] m.row(w)).stalled,
{
    lemma_mod_bound(s, m.active as int);
    super::stall::lemma_relief(m, n, s);
    if relief(m, n, s) is None {
        assert forall|w: int| 0 <= w < n implies (#[trigger] m.row(w)).stalled by {
            if !m.row(w).stalled {
                super::stall::lemma_some_live(m, n, s, w);
            }
        }
    }
}

/// A takeover touches exactly the shards that a stuck worker owns and does not hold back, and
/// those that nobody owns and a stuck worker should; it counts the first kind.
pub proof fn law_takeover_touches_nothing_else(m: PoolModel, loads: Seq<usize>, n: int, s: int)
    requires
        0 <= s < m.owner.len(),
        0 <= n <= usize::MAX,
    ensures
        ({
            let r = relieved(m, loads, n, m.owner.len() as int);
            let stuck = m.row(m.owner[s] as int).stalled;
            let held = m.row(m.owner[s] as int).current == s && loads[s] > 0;
            let orphan = m.owner[s] == NONE && m.row(m.desired[s] as int).stalled;
            &&& r.owner[s] != m.owner[s] ==> stuck && !held && r.owner[s] == NONE
            &&& r.desired[s] != m.desired[s] ==> (stuck && !held) || orphan
            &&& stuck && !held && relief(m, n, s) is Some ==> r.owner[s] == NONE && r.desired[s]
                == relief(m, n, s)->Some_0
            &&& orphan && relief(m, n, s) is Some ==> r.desired[s] == relief(m, n, s)->Some_0
            &&& r.active >= m.active
            &&& r.closed == m.closed && r.workers == m.workers && r.processed == m.processed
        }),
{
    super::stall::lemma_counts(m, loads, n, m.owner.len() as int);
    super::stall::lemma_relief(m, n, s);
}

/// A snapshot lists no more workers than it has to: the last row is that of the peak, or of a
/// worker that owns a shard or should own one.
pub proof fn law_snapshot_lists_no_more(m: PoolModel, k: int)
    requires
        m.sound(),
        0 <= k <= m.owner.len(),
    ensures
        rows(m, k) == m.max_active || exists|s: int|
            0 <= s < k && (#[trigger] m.desired[s] + 1 == rows(m, k) || (m.owner[s] != NONE
                && m.owner[s] + 1 == rows(m, k))),
    decreases k,
{
    if k > 0 {
        law_snapshot_lists_no_more(m, k - 1);
        if rows(m, k) == rows(m, k - 1) {
            if rows(m, k) != m.max_active {
                let s = choose|s: int|
                    0 <= s < k - 1 && (#[trigger] m.desired[s] + 1 == rows(m, k - 1) || (m.owner[s]
                        != NONE && m.owner[s] + 1 == rows(m, k - 1)));
                assert(m.desired[s] + 1 == rows(m, k) || (m.owner[s] != NONE && m.owner[s] + 1
                    == rows(m, k)));
            }
        } else {
            assert(m.desired[k - 1] + 1 == rows(m, k) || (m.owner[k - 1] != NONE && m.owner[k - 1]
                + 1 == rows(m, k)));
        }
    }
}

/// The rows of a snapshot are what is known of the shards and workers; no owner and no shard
/// are told apart from every real one.
pub proof fn law_snapshot_rows(m: PoolModel, s: int, w: int)
    ensures
        shard_row(m, s).queued == m.depths[s],
        shard_row(m, s).desired == m.desired[s],
        shard_row(m, s).owner is None <==> m.owner[s] == NONE,
        shard_row(m, s).owner is Some ==> shard_row(m, s).owner->Some_0 == m.owner[s],
        worker_row(m, w).busy == m.row(w).busy,
        worker_row(m, w).stalled == m.row(w).stalled,
        worker_row(m, w).beats == m.row(w).beats,
        worker_row(m, w).current_shard is None <==> m.row(w).current == NONE,
        worker_row(m, w).current_shard is Some ==> worker_row(m, w).current_shard->Some_0 == m.row(
            w,
        ).current,
        w >= m.workers.len() ==> !worker_row(m, w).busy && !worker_row(m, w).stalled && worker_row(
            m,
            w,
        ).beats == 0 && worker_row(m, w).current_shard is None,
{
}

/// Writing the row of one worker leaves those of all others as they are.
pub proof fn law_rows_are_kept(m: PoolModel, w: int, row: WorkerRow, v: int)
    requires
        0 <= w,
        0 <= v,
    ensures
        m.with_row(w, row).row(w) == row,
        v != w ==> m.with_row(w, row).row(v) == m.row(v),
        m.with_row(w, row).owner == m.owner,
        m.with_row(w, row).desired == m.desired,
        m.with_row(w, row).processed == m.processed,
{
}

/// The larger of two numbers is one of them and not below either; the smaller one is one of
/// them and not above either.
pub proof fn law_larger_and_smaller(a: int, b: int)
    ensures
        larger(a, b) >= a && larger(a, b) >= b,
        larger(a, b) == a || larger(a, b) == b,
        smaller(a, b) <= a && smaller(a, b) <= b,
        smaller(a, b) == a || smaller(a, b) == b,
{
}

/// A pool starts unless there is no shard, or stuck workers are to be relieved and there could
/// never be a second worker. It starts with the least number of workers that was asked for, as
/// far as there are shards, never has more workers than shards, and changes no setting that was
/// in order.
pub proof fn law_pool_starts(
    cfg: Config,
    shards: usize,
    r: Result<(Config, PoolModel), super::errors::PoolError>,
)
    requires
        super::started(cfg, shards, r),
    ensures
        cfg.stall_takeover is None ==> (r is Ok <==> shards > 0),
        cfg.stall_takeover is Some ==> (r is Ok <==> shards >= 2 && (cfg.max_consumers >= 2
            || cfg.min_consumers >= 2)),
        r matches Err(e) ==> (e is ReceiverEmpty <==> shards == 0),
        r matches Ok((c, m)) ==> {
            &&& 1 <= c.min_consumers <= c.max_consumers <= shards
            &&& c.batch_size >= 1
            &&& m.active == c.min_consumers
            &&& m.owner.len() == shards
            &&& cfg.wf() && cfg.max_consumers <= shards ==> c == cfg
            &&& cfg.max_consumers >= shards ==> c.max_consumers == shards
            &&& 1 <= cfg.min_consumers <= c.max_consumers ==> c.min_consumers == cfg.min_consumers
            &&& (c.hotspot_isolation, c.stall_takeover) == (
                cfg.hotspot_isolation,
                cfg.stall_takeover,
            )
        },
{
}

/// The worker that takes a shard over is the first that is not stuck, going round from the
/// shard's home worker: all those that come before it are stuck.
pub proof fn law_next_free_worker_takes_over(m: PoolModel, n: int, s: int)
    requires
        0 < n,
        0 < m.active <= n,
        relief(m, n, s) is Some,
    ensures
        ({
            let home = s % (m.active as int);
            let w = relief(m, n, s)->Some_0;
            &&& 0 <= w < n
            &&& !m.row(w).stalled
            &&& w >= home ==> forall|v: int| home <= v < w ==> (#[trigger] m.row(v)).stalled
            &&& w < home ==> forall|v: int|
                home <= v < n || 0 <= v < w ==> (#[trigger] m.row(v)).stalled
        }),
{
    let home = s % (m.active as int);
    lemma_mod_bound(s, m.active as int);
    lemma_first_live(m, home, n, n);
}

proof fn lemma_first_live(m: PoolModel, from: int, n: int, left: int)
    requires
        0 <= from < n,
        0 <= left <= n,
        live_from(m, from, n, left) is Some,
    ensures
        ({
            let w = live_from(m, from, n, left)->Some_0;
            let k = if w >= from {
                w - from
            } else {
                w - from + n
            };
            &&& 0 <= w < n
            &&& k < left
            &&& !m.row(w).stalled
            &&& forall|v: int|
                #![trigger m.row(v)]
                0 <= v < n && (if v >= from {
                    v - from
                } else {
                    v - from + n
                }) < k ==> m.row(v).stalled
        }),
    decreases left,
{
    if m.row(from).stalled {
        let next = super::stall::next_worker(from, n);
        if left > 1 {
            lemma_first_live(m, next, n, left - 1);
        }
    }
}

/// A takeover counts the shards that it took away, each once.
pub proof fn law_takeovers_are_counted(m: PoolModel, loads: Seq<usize>, n: int, k: int)
    requires
        0 <= k,
        0 <= n,
    ensures
        ({
            let here = lost(m, loads, k) && relief(m, n, k) is Some;
            &&& super::stall::lost_count(m, loads, n, 0) == 0
            &&& super::stall::lost_count(m, loads, n, k + 1) == super::stall::lost_count(
                m,
                loads,
                n,
                k,
            ) + if here {
                1int
            } else {
                0int
            }
            &&& relieved(m, loads, n, k).takeovers == m.takeovers.wrapping_add(
                super::stall::lost_count(m, loads, n, k) as u64,
            )
        }),
{
}

/// As many workers run after a takeover as before, unless one is needed that did not run: then
/// just so many that it does.
pub proof fn law_takeover_wants_no_more_workers(m: PoolModel, loads: Seq<usize>, n: int, k: int)
    requires
        0 <= k,
        0 <= n,
    ensures
        ({
            let a = super::stall::wanted_for(m, loads, n, k);
            a == m.active || exists|s: int|
                0 <= s < k && (lost(m, loads, s) || stranded(m, s)) && #[trigger] relief(m, n, s)
                    == Some(a - 1)
        }),
    decreases k,
{
    if k > 0 {
        law_takeover_wants_no_more_workers(m, loads, n, k - 1);
        let a = super::stall::wanted_for(m, loads, n, k);
        let b = super::stall::wanted_for(m, loads, n, k - 1);
        if a != b {
            assert(relief(m, n, k - 1) == Some(a - 1));
        } else if a != m.active {
            let s = choose|s: int|
                0 <= s < k - 1 && (lost(m, loads, s) || stranded(m, s)) && #[trigger] relief(
                    m,
                    n,
                    s,
                ) == Some(b - 1);
            assert(relief(m, n, s) == Some(a - 1));
        }
    }
}

} // verus!
