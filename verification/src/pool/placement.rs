use crate::internal_channel::inner::SeqInner;
use crate::internal_channel::model::ChannelModel;
use crate::internal_channel::traits::InnerChannel;
use crate::shard::mpmc::lanes::{lanes_wf, models};
use super::instance::{decided, larger, smaller, Config, FillSignal, PoolModel, State};
use vstd::arithmetic::div_mod::{
    lemma_fundamental_div_mod, lemma_fundamental_div_mod_converse, lemma_mod_bound, lemma_small_mod,
};
use vstd::prelude::*;

verus! {

/// How many leading entries of `order` have at least the load of shard `s`.
pub open spec fn place_for(order: Seq<usize>, loads: Seq<usize>, s: int) -> int
    decreases order.len(),
{
    if order.len() > 0 && loads[order[0] as int] >= loads[s] {
        1 + place_for(order.drop_first(), loads, s)
    } else {
        0
    }
}

/// The first `k` shards, busiest first; equally busy shards in their order.
pub open spec fn by_load(loads: Seq<usize>, k: int) -> Seq<usize>
    decreases k,
{
    if k <= 0 {
        Seq::empty()
    } else {
        let o = by_load(loads, k - 1);
        o.insert(place_for(o, loads, k - 1), (k - 1) as usize)
    }
}

/// Which worker takes the next shard: the one that has it now, unless a worker is lighter
/// by more than `margin`; among the first `k` workers. With that worker's load.
pub open spec fn lightest(work: Seq<int>, anchor: int, margin: int, k: int) -> (int, int)
    decreases k,
{
    if k <= 0 {
        (anchor, work[anchor])
    } else {
        let (best, load) = lightest(work, anchor, margin, k - 1);
        if work[k - 1] + margin < load {
            (k - 1, work[k - 1])
        } else {
            (best, load)
        }
    }
}

/// The worker that has shard `s` now, or its home worker if that one is retired.
pub open spec fn anchor_of(desired: Seq<usize>, s: int, active: int) -> int {
    if desired[s] < active {
        desired[s] as int
    } else {
        s % active
    }
}

/// The work of each worker and the placement, after the first `k` shards of `order` have
/// been placed.
pub open spec fn placed(
    order: Seq<usize>,
    loads: Seq<usize>,
    desired: Seq<usize>,
    active: int,
    margin: int,
    k: int,
) -> (Seq<int>, Seq<usize>)
    decreases k,
{
    if k <= 0 {
        (Seq::new(active as nat, |w: int| 0int), desired)
    } else {
        let (work, d) = placed(order, loads, desired, active, margin, k - 1);
        let s = order[k - 1] as int;
        let best = lightest(work, anchor_of(d, s, active), margin, active).0;
        (work.update(best, work[best] + loads[s]), d.update(s, best as usize))
    }
}

/// The placement that a rebalance gives.
pub open spec fn rebalanced(
    loads: Seq<usize>,
    desired: Seq<usize>,
    active: int,
    margin: int,
) -> Seq<usize> {
    let n = loads.len() as int;
    placed(by_load(loads, n), loads, desired, larger(active, 1), margin, n).1
}

/// The sum of all loads.
pub open spec fn total(loads: Seq<usize>) -> int
    decreases loads.len(),
{
    if loads.len() == 0 {
        0
    } else {
        total(loads.drop_last()) + loads.last()
    }
}

/// The sum of the loads of the first `k` shards of `order`.
pub open spec fn order_total(order: Seq<usize>, loads: Seq<usize>, k: int) -> int
    decreases k,
{
    if k <= 0 {
        0
    } else {
        order_total(order, loads, k - 1) + loads[order[k - 1] as int]
    }
}

/// Every shard below `k` is in `order`, once.
pub open spec fn is_order(order: Seq<usize>, k: int) -> bool {
    &&& order.len() == k
    &&& order.no_duplicates()
    &&& forall|i: int| 0 <= i < k ==> (#[trigger] order[i]) < k
}

proof fn lemma_place_for(order: Seq<usize>, loads: Seq<usize>, s: int)
    ensures
        0 <= place_for(order, loads, s) <= order.len(),
        forall|i: int|
            0 <= i < place_for(order, loads, s) ==> loads[#[trigger] order[i] as int] >= loads[s],
        place_for(order, loads, s) < order.len() ==> loads[order[place_for(order, loads, s)] as int]
            < loads[s],
    decreases order.len(),
{
    if order.len() > 0 && loads[order[0] as int] >= loads[s] {
        let t = order.drop_first();
        lemma_place_for(t, loads, s);
        let p = place_for(order, loads, s);
        assert forall|i: int| 0 <= i < p implies loads[#[trigger] order[i] as int] >= loads[s] by {
            if i > 0 {
                assert(t[i - 1] == order[i]);
            }
        }
        if p < order.len() {
            assert(t[p - 1] == order[p]);
        }
    }
}

/// The order lists every shard once, busiest first, and equally busy shards in their
/// order.
pub proof fn law_busiest_first(loads: Seq<usize>, k: int)
    requires
        0 <= k <= loads.len(),
        loads.len() <= usize::MAX,
    ensures
        is_order(by_load(loads, k), k),
        forall|i: int, j: int|
            0 <= i < j < k ==> {
                let a = #[trigger] by_load(loads, k)[i] as int;
                let b = #[trigger] by_load(loads, k)[j] as int;
                loads[a] > loads[b] || (loads[a] == loads[b] && a < b)
            },
    decreases k,
{
    if k > 0 {
        law_busiest_first(loads, k - 1);
        let o = by_load(loads, k - 1);
        let p = place_for(o, loads, k - 1);
        lemma_place_for(o, loads, k - 1);
        let r = by_load(loads, k);
        let s = (k - 1) as usize;
        assert(r == o.insert(p, s));
        assert forall|i: int| 0 <= i < k implies (#[trigger] r[i]) < k by {
            if i < p {
                assert(r[i] == o[i]);
            } else if i > p {
                assert(r[i] == o[i - 1]);
            }
        }
        assert forall|i: int, j: int| 0 <= i < j < k implies {
            let a = #[trigger] r[i] as int;
            let b = #[trigger] r[j] as int;
            a != b && (loads[a] > loads[b] || (loads[a] == loads[b] && a < b))
        } by {
            let i0 = if i < p { i } else { i - 1 };
            let j0 = if j < p { j } else { j - 1 };
            if i == p {
                assert(r[j] == o[j0]);
                assert(o[j0] < k - 1);
                if p < j0 {
                    assert(loads[o[p] as int] > loads[o[j0] as int] || (loads[o[p] as int]
                        == loads[o[j0] as int] && o[p] < o[j0]));
                }
            } else if j == p {
                assert(r[i] == o[i]);
                assert(o[i] < k - 1);
            } else {
                assert(r[i] == o[i0]);
                assert(r[j] == o[j0]);
                assert(i0 < j0);
                assert(o[i0] != o[j0]);
            }
        }
        assert forall|i: int, j: int| 0 <= i < r.len() && 0 <= j < r.len() && i != j implies r[i]
            != r[j] by {
            if i < j {
                let a = r[i] as int;
                let b = r[j] as int;
                assert(a != b);
            } else {
                let a = r[j] as int;
                let b = r[i] as int;
                assert(a != b);
            }
        }
    }
}

proof fn lemma_total_insert(o: Seq<usize>, loads: Seq<usize>, p: int, s: usize, k: int)
    requires
        0 <= p <= o.len(),
        0 <= k <= o.len() + 1,
    ensures
        order_total(o.insert(p, s), loads, k) == if k <= p {
            order_total(o, loads, k)
        } else {
            order_total(o, loads, k - 1) + loads[s as int]
        },
    decreases k,
{
    if k > 0 {
        lemma_total_insert(o, loads, p, s, k - 1);
        let r = o.insert(p, s);
        if k - 1 < p {
            assert(r[k - 1] == o[k - 1]);
        } else if k - 1 == p {
            assert(r[k - 1] == s);
        } else {
            assert(r[k - 1] == o[k - 2]);
        }
    }
}

proof fn lemma_order_total(loads: Seq<usize>, k: int)
    requires
        0 <= k <= loads.len(),
        loads.len() <= usize::MAX,
    ensures
        order_total(by_load(loads, k), loads, k) == total(loads.subrange(0, k)),
    decreases k,
{
    if k > 0 {
        lemma_order_total(loads, k - 1);
        let o = by_load(loads, k - 1);
        lemma_place_for(o, loads, k - 1);
        law_busiest_first(loads, k - 1);
        lemma_total_insert(o, loads, place_for(o, loads, k - 1), (k - 1) as usize, k);
        let t = loads.subrange(0, k);
        assert(t.drop_last() =~= loads.subrange(0, k - 1));
    }
}

proof fn lemma_order_total_grows(order: Seq<usize>, loads: Seq<usize>, i: int, k: int)
    requires
        0 <= i <= k,
    ensures
        0 <= order_total(order, loads, i) <= order_total(order, loads, k),
    decreases k,
{
    if i < k {
        lemma_order_total_grows(order, loads, i, k - 1);
    } else if k > 0 {
        lemma_order_total_grows(order, loads, 0, k - 1);
    }
}

pub proof fn lemma_lightest(work: Seq<int>, anchor: int, margin: int, k: int)
    requires
        0 <= anchor < work.len(),
        0 <= k <= work.len(),
    ensures
        0 <= lightest(work, anchor, margin, k).0 < work.len(),
        lightest(work, anchor, margin, k).1 == work[lightest(work, anchor, margin, k).0],
    decreases k,
{
    if k > 0 {
        lemma_lightest(work, anchor, margin, k - 1);
    }
}

/// What a placement keeps: as many workers as are active, none with negative work, none
/// with more than all that has been placed; and targets of placed shards are active.
pub proof fn lemma_placed(
    order: Seq<usize>,
    loads: Seq<usize>,
    desired: Seq<usize>,
    active: int,
    margin: int,
    k: int,
)
    requires
        0 < active <= usize::MAX,
        0 <= k <= order.len(),
        loads.len() <= desired.len(),
        order.len() == loads.len(),
        forall|i: int| 0 <= i < order.len() ==> (#[trigger] order[i]) < loads.len(),
    ensures
        ({
            let (work, d) = placed(order, loads, desired, active, margin, k);
            &&& work.len() == active
            &&& d.len() == desired.len()
            &&& forall|w: int|
                0 <= w < active ==> 0 <= #[trigger] work[w] <= order_total(order, loads, k)
            &&& forall|i: int| 0 <= i < k ==> d[#[trigger] order[i] as int] < active
            &&& forall|s: int| loads.len() <= s < d.len() ==> #[trigger] d[s] == desired[s]
        }),
    decreases k,
{
    if k > 0 {
        lemma_placed(order, loads, desired, active, margin, k - 1);
        let (work, d) = placed(order, loads, desired, active, margin, k - 1);
        let s = order[k - 1] as int;
        assert(order[k - 1] < loads.len());
        let a = anchor_of(d, s, active);
        lemma_mod_bound(s, active);
        lemma_lightest(work, a, margin, active);
    }
}

fn busiest_first(loads: &[usize]) -> (order: Vec<usize>)
    ensures
        order@ == by_load(loads@, loads@.len() as int),
        is_order(order@, loads@.len() as int),
{
    let n: usize = loads.len();
    let mut order: Vec<usize> = Vec::with_capacity(n);
    let mut s: usize = 0;
    proof {
        law_busiest_first(loads@, 0);
    }
    while s < n
        invariant
            s <= n,
            n == loads@.len(),
            order@ == by_load(loads@, s as int),
            is_order(order@, s as int),
        decreases n - s,
    {
        let ghost o = order@;
        let mut p: usize = 0;
        assert(o.subrange(0, s as int) =~= o);
        while p < s && loads[order[p]] >= loads[s]
            invariant
                p <= s,
                s < n,
                n == loads@.len(),
                order@ == o,
                is_order(o, s as int),
                place_for(o, loads@, s as int) == p + place_for(
                    o.subrange(p as int, s as int),
                    loads@,
                    s as int,
                ),
            decreases s - p,
        {
            proof {
                let t = o.subrange(p as int, s as int);
                assert(t[0] == o[p as int]);
                assert(t.drop_first() =~= o.subrange(p + 1, s as int));
            }
            p = p + 1;
        }
        proof {
            let t = o.subrange(p as int, s as int);
            if p < s {
                assert(t[0] == o[p as int]);
            }
            assert(place_for(o, loads@, s as int) == p);
            law_busiest_first(loads@, s + 1);
        }
        order.insert(p, s);
        s = s + 1;
    }
    order
}

/// Spreads the shards over `active` workers by load: the busiest shards first, each to the
/// worker that has it now unless another one is lighter by more than `margin`. Shards
/// beyond those in `loads` stay where they are.
pub fn rebalance(state: &mut State, loads: &[usize], active: usize, margin: usize)
    requires
        old(state).wf(),
        loads@.len() <= old(state)@.owner.len(),
        total(loads@) + margin <= usize::MAX,
    ensures
        final(state).wf(),
        final(state)@ == (PoolModel {
            desired: rebalanced(
                loads@,
                old(state)@.desired,
                active as int,
                margin as int,
            ),
            ..old(state)@
        }),
{
    let ghost pre = state@;
    proof {
        state.lemma_wf();
    }
    let n: usize = loads.len();
    let active: usize = if active == 0 { 1 } else { active };
    let order = busiest_first(loads);
    let ghost ord = order@;
    proof {
        lemma_order_total(loads@, n as int);
        assert(loads@.subrange(0, n as int) =~= loads@);
    }
    let mut work: Vec<usize> = Vec::with_capacity(active);
    let mut w: usize = 0;
    while w < active
        invariant
            w <= active,
            work@.len() == w,
            forall|i: int| 0 <= i < w ==> #[trigger] work@[i] == 0,
        decreases active - w,
    {
        work.push(0);
        w = w + 1;
    }
    let mut k: usize = 0;
    while k < n
        invariant
            k <= n,
            n == loads@.len(),
            n <= pre.owner.len(),
            active > 0,
            pre.sound(),
            order@ == ord,
            is_order(ord, n as int),
            order_total(ord, loads@, n as int) == total(loads@),
            total(loads@) + margin <= usize::MAX,
            work@.len() == active,
            ({
                let (pw, pd) = placed(
                    ord,
                    loads@,
                    pre.desired,
                    active as int,
                    margin as int,
                    k as int,
                );
                &&& pw.len() == active
                &&& forall|i: int| 0 <= i < active ==> #[trigger] work@[i] == pw[i]
                &&& state@ == (PoolModel { desired: pd, ..pre })
            }),
            state.wf(),
        decreases n - k,
    {
        let ghost (pw, pd) = placed(
            ord,
            loads@,
            pre.desired,
            active as int,
            margin as int,
            k as int,
        );
        proof {
            lemma_placed(ord, loads@, pre.desired, active as int, margin as int, k as int);
            lemma_order_total_grows(ord, loads@, k as int, n as int);
            lemma_order_total_grows(ord, loads@, k + 1, n as int);
            assert(ord[k as int] < n);
        }
        let s: usize = order[k];
        let cur: usize = state.desired(s);
        let anchor: usize = if cur < active { cur } else { s % active };
        proof {
            assert(anchor == anchor_of(pd, s as int, active as int));
        }
        let mut best: usize = anchor;
        let mut best_load: usize = work[anchor];
        let mut j: usize = 0;
        while j < active
            invariant
                j <= active,
                active == work@.len(),
                pw.len() == active,
                anchor < active,
                best < active,
                best_load == work@[best as int],
                forall|i: int| 0 <= i < active ==> #[trigger] work@[i] == pw[i],
                forall|i: int|
                    0 <= i < active ==> 0 <= #[trigger] pw[i] && pw[i] + margin <= usize::MAX,
                (best as int, best_load as int) == lightest(
                    pw,
                    anchor as int,
                    margin as int,
                    j as int,
                ),
            decreases active - j,
        {
            assert(work@[j as int] == pw[j as int]);
            if work[j] + margin < best_load {
                best = j;
                best_load = work[j];
            }
            j = j + 1;
        }
        proof {
            assert(work@[best as int] == pw[best as int]);
            assert(pw[best as int] <= order_total(ord, loads@, k as int));
        }
        let load: usize = work[best] + loads[s];
        work.set(best, load);
        state.set_desired(s, best);
        k = k + 1;
    }
}

/// How many workers the monitor wants.
pub open spec fn wanted(cfg: Config, current: int, signal: FillSignal, hot: int) -> int {
    let want = decided(cfg, current, signal);
    if cfg.hotspot_isolation && hot > 0 {
        larger(want, smaller(hot + 1, cfg.max_consumers as int))
    } else {
        want
    }
}

/// One look of the monitor at the queues: `loads` are their depths, `signal` says what
/// their average fill calls for, `hot` how many of them are almost full. Sets how many
/// workers are wanted and which shard goes to which; shards beyond those in `loads` stay where
/// they are.
pub fn monitor(
    cfg: &Config,
    state: &mut State,
    loads: &[usize],
    signal: FillSignal,
    hot: usize,
    margin: usize,
)
    requires
        old(state).wf(),
        loads@.len() <= old(state)@.owner.len(),
        hot <= loads@.len(),
        cfg.hotspot_isolation ==> total(loads@) + margin <= usize::MAX,
        signal is High ==> old(state)@.active <= cfg.max_consumers,
    ensures
        final(state).wf(),
        ({
            let m = old(state)@;
            let want = wanted(*cfg, m.active as int, signal, hot as int);
            if loads@.len() == 0 {
                final(state)@ == m
            } else {
                &&& 0 <= want <= usize::MAX
                &&& final(state)@ == (PoolModel {
                    active: want as usize,
                    max_active: larger(m.max_active as int, want) as usize,
                    desired: if cfg.hotspot_isolation {
                        rebalanced(loads@, m.desired, want, margin as int)
                    } else {
                        Seq::new(
                            m.owner.len(),
                            |s: int|
                                if s < loads@.len() {
                                    (s % larger(want, 1)) as usize
                                } else {
                                    m.desired[s]
                                },
                        )
                    },
                    ..m
                })
            }
        }),
        final(state)@.owner == old(state)@.owner,
        final(state)@.processed == old(state)@.processed,
        loads@.len() > 0 ==> forall|s: int|
            0 <= s < loads@.len() ==> (#[trigger] final(state)@.desired[s]) < final(state)@.active
                || final(state)@.desired[s] == 0,
        loads@.len() > 0 && !cfg.hotspot_isolation && final(state)@.active > 0 ==> forall|s: int|
            0 <= s < loads@.len() ==> (#[trigger] final(state)@.desired[s]) == s % (final(state)@.active as int),
{
    let ghost m = state@;
    let n: usize = loads.len();
    if n == 0 {
        return;
    }
    let cur: usize = state.active();
    let mut want: usize = cfg.decide(cur, signal);
    if cfg.hotspot_isolation && hot > 0 {
        let floor: usize = if hot < cfg.max_consumers { hot + 1 } else { cfg.max_consumers };
        if floor > want {
            want = floor;
        }
    }
    proof {
        assert(want == wanted(*cfg, m.active as int, signal, hot as int));
        state.lemma_wf();
    }
    state.set_active(want);
    if cfg.hotspot_isolation {
        rebalance(state, loads, want, margin);
        proof {
            law_placement_targets_active_workers(
                loads@,
                m.desired,
                want as int,
                margin as int,
            );
        }
    } else {
        let ghost m1 = state@;
        proof {
            state.lemma_wf();
        }
        let active: usize = if want == 0 { 1 } else { want };
        let mut s: usize = 0;
        while s < n
            invariant
                s <= n,
                n <= m1.owner.len(),
                m1.sound(),
                active == larger(want as int, 1),
                state.wf(),
                state@ == (PoolModel { desired: state@.desired, ..m1 }),
                state@.desired.len() == m1.owner.len(),
                forall|k: int| 0 <= k < s ==> #[trigger] state@.desired[k] == k % (active as int),
                forall|k: int|
                    n <= k < m1.owner.len() ==> #[trigger] state@.desired[k] == m1.desired[k],
            decreases n - s,
        {
            state.set_desired(s, s % active);
            s = s + 1;
        }
        assert(state@.desired =~= Seq::new(
            m.owner.len(),
            |s: int|
                if s < loads@.len() {
                    (s % larger(want as int, 1)) as usize
                } else {
                    m.desired[s]
                },
        ));
        assert forall|k: int| 0 <= k < loads@.len() implies (#[trigger] state@.desired[k]) < active by {
            lemma_mod_bound(k, active as int);
        }
    }
}

/// No shard is ever placed on a worker that is retired, and shards beyond those in `loads` stay
/// where they are.
pub proof fn law_placement_targets_active_workers(
    loads: Seq<usize>,
    desired: Seq<usize>,
    active: int,
    margin: int,
)
    requires
        loads.len() <= desired.len(),
        loads.len() <= usize::MAX,
        0 <= active <= usize::MAX,
    ensures
        rebalanced(loads, desired, active, margin).len() == desired.len(),
        forall|s: int|
            0 <= s < loads.len() ==> #[trigger] rebalanced(loads, desired, active, margin)[s]
                < larger(active, 1),
        forall|s: int|
            loads.len() <= s < desired.len() ==> #[trigger] rebalanced(
                loads,
                desired,
                active,
                margin,
            )[s] == desired[s],
{
    let n = loads.len() as int;
    let a = larger(active, 1);
    let o = by_load(loads, n);
    law_busiest_first(loads, n);
    lemma_placed(o, loads, desired, a, margin, n);
    assert forall|s: int| 0 <= s < n implies #[trigger] rebalanced(loads, desired, active, margin)[s]
        < a by {
        lemma_order_covers(o, n, s as usize);
        let i = choose|i: int| 0 <= i < n && o[i] == s as usize;
        assert(placed(o, loads, desired, a, margin, n).1[o[i] as int] < a);
    }
}

/// An order of `n` shards has every shard in it.
pub proof fn lemma_order_covers(o: Seq<usize>, n: int, s: usize)
    requires
        is_order(o, n),
        s < n,
    ensures
        exists|i: int| 0 <= i < n && o[i] == s,
{
    if forall|i: int| 0 <= i < n ==> o[i] != s {
        // The other shards are too few to fill the order.
        let t = Seq::new(
            n as nat,
            |i: int|
                if o[i] > s {
                    (o[i] - 1) as usize
                } else {
                    o[i]
                },
        );
        assert forall|i: int, j: int| 0 <= i < t.len() && 0 <= j < t.len() && i != j implies t[i]
            != t[j] by {
            assert(o[i] != o[j]);
            assert(o[i] != s && o[j] != s);
        }
        assert forall|i: int| 0 <= i < t.len() implies (#[trigger] t[i]) < n - 1 by {
            assert(o[i] < n);
            assert(o[i] != s);
        }
        crate::waiters::lemma_distinct_names(t, (n - 1) as nat);
    }
}

/// A worker gets a shard from another one only if it is lighter by more than the margin.
pub proof fn law_placement_is_sticky(work: Seq<int>, anchor: int, margin: int)
    requires
        0 <= anchor < work.len(),
        0 <= margin,
    ensures
        ({
            let best = lightest(work, anchor, margin, work.len() as int).0;
            best == anchor || work[best] + margin < work[anchor]
        }),
{
    lemma_sticky(work, anchor, margin, work.len() as int);
}

proof fn lemma_sticky(work: Seq<int>, anchor: int, margin: int, k: int)
    requires
        0 <= anchor < work.len(),
        0 <= margin,
        0 <= k <= work.len(),
    ensures
        ({
            let (best, load) = lightest(work, anchor, margin, k);
            &&& 0 <= best < work.len()
            &&& load == work[best]
            &&& best == anchor || work[best] + margin < work[anchor]
        }),
    decreases k,
{
    if k > 0 {
        lemma_sticky(work, anchor, margin, k - 1);
    }
}

/// An even load leaves the plain placement as it is: shard `s` on worker `s` modulo the
/// number of workers.
pub proof fn law_even_load_keeps_the_plain_placement(
    loads: Seq<usize>,
    load: usize,
    desired: Seq<usize>,
    active: int,
    margin: int,
)
    requires
        loads.len() <= usize::MAX,
        forall|s: int| 0 <= s < loads.len() ==> #[trigger] loads[s] == load,
        desired.len() == loads.len(),
        0 < active <= usize::MAX,
        forall|s: int| 0 <= s < desired.len() ==> #[trigger] desired[s] == s % active,
        0 <= margin,
    ensures
        rebalanced(loads, desired, active, margin) == desired,
{
    let n = loads.len() as int;
    lemma_even_order(loads, load, n);
    lemma_even_placed(loads, load, desired, active, margin, n);
}

proof fn lemma_even_order(loads: Seq<usize>, load: usize, k: int)
    requires
        0 <= k <= loads.len(),
        loads.len() <= usize::MAX,
        forall|s: int| 0 <= s < loads.len() ==> #[trigger] loads[s] == load,
    ensures
        by_load(loads, k) == Seq::new(k as nat, |i: int| i as usize),
    decreases k,
{
    if k > 0 {
        lemma_even_order(loads, load, k - 1);
        let o = by_load(loads, k - 1);
        lemma_place_for(o, loads, k - 1);
        let p = place_for(o, loads, k - 1);
        if p < o.len() {
            assert(loads[o[p] as int] == load);
        }
        assert(by_load(loads, k) =~= Seq::new(k as nat, |i: int| i as usize));
    } else {
        assert(by_load(loads, k) =~= Seq::new(k as nat, |i: int| i as usize));
    }
}

proof fn lemma_even_placed(
    loads: Seq<usize>,
    load: usize,
    desired: Seq<usize>,
    active: int,
    margin: int,
    k: int,
)
    requires
        0 <= k <= loads.len(),
        loads.len() <= usize::MAX,
        forall|s: int| 0 <= s < loads.len() ==> #[trigger] loads[s] == load,
        by_load(loads, loads.len() as int) == Seq::new(loads.len(), |i: int| i as usize),
        desired.len() == loads.len(),
        0 < active <= usize::MAX,
        forall|s: int| 0 <= s < desired.len() ==> #[trigger] desired[s] == s % active,
        0 <= margin,
    ensures
        ({
            let o = by_load(loads, loads.len() as int);
            let (work, d) = placed(o, loads, desired, active, margin, k);
            &&& d == desired
            &&& work.len() == active
            &&& forall|w: int|
                0 <= w < active ==> #[trigger] work[w] == load * (k / active + if w < k % active {
                    1int
                } else {
                    0int
                })
        }),
    decreases k,
{
    let o = by_load(loads, loads.len() as int);
    if k == 0 {
        lemma_small_mod(0, active as nat);
        vstd::arithmetic::div_mod::lemma_div_basics(active);
        assert forall|w: int| 0 <= w < active implies #[trigger] placed(
            o,
            loads,
            desired,
            active,
            margin,
            0,
        ).0[w] == load * (0int / active + if w < 0int % active {
            1int
        } else {
            0int
        }) by {
            assert(load * 0 == 0) by (nonlinear_arith);
        }
    } else {
        lemma_even_placed(loads, load, desired, active, margin, k - 1);
        let (work, d) = placed(o, loads, desired, active, margin, k - 1);
        let s = o[k - 1] as int;
        assert(s == k - 1);
        let a = s % active;
        let q = s / active;
        lemma_mod_bound(s, active);
        lemma_fundamental_div_mod(s, active);
        assert(anchor_of(d, s, active) == a) by {
            assert(desired[s] == s % active);
        }
        assert(work[a] == load * q) by {
            assert(work[a] == load * (q + 0));
        }
        assert forall|w: int| 0 <= w < active implies #[trigger] work[w] >= work[a] by {
            assert(load * (q + if w < a {
                1int
            } else {
                0int
            }) >= load * q) by (nonlinear_arith)
                requires
                    load >= 0,
            ;
        }
        lemma_stays(work, a, margin, active);
        assert(d.update(s, a as usize) =~= desired) by {
            assert(desired[s] == s % active);
        }
        // One more shard on worker `a`.
        assert(s == q * active + a) by (nonlinear_arith)
            requires
                s == active * q + a,
        ;
        if a + 1 < active {
            lemma_fundamental_div_mod_converse(k, active, q, a + 1);
        } else {
            assert(k == (q + 1) * active + 0) by (nonlinear_arith)
                requires
                    k == q * active + active,
            ;
            lemma_fundamental_div_mod_converse(k, active, q + 1, 0);
        }
        let work2 = work.update(a, work[a] + load);
        assert forall|w: int| 0 <= w < active implies #[trigger] work2[w] == load * (k / active
            + if w < k % active {
            1int
        } else {
            0int
        }) by {
            assert(load * q + load == load * (q + 1)) by (nonlinear_arith);
            assert(work[w] == load * (q + if w < a {
                1int
            } else {
                0int
            }));
        }
        assert(placed(o, loads, desired, active, margin, k).0 == work2);
    }
}

proof fn lemma_stays(work: Seq<int>, anchor: int, margin: int, k: int)
    requires
        0 <= anchor < work.len(),
        0 <= margin,
        0 <= k <= work.len(),
        forall|w: int| 0 <= w < work.len() ==> #[trigger] work[w] >= work[anchor],
    ensures
        lightest(work, anchor, margin, k) == (anchor, work[anchor]),
    decreases k,
{
    if k > 0 {
        lemma_stays(work, anchor, margin, k - 1);
        assert(work[k - 1] >= work[anchor]);
    }
}

/// The queue depths of shards, as far as capacity `cap` goes.
pub open spec fn loads_of<T, W>(ms: Seq<ChannelModel<T, W>>, cap: int) -> Seq<usize> {
    ms.map_values(|m: ChannelModel<T, W>| smaller(m.pending.len() as int, cap) as usize)
}

/// The queue depth of every shard, no more than its capacity.
pub fn shard_loads<T, const CAP: usize, W>(lanes: &Vec<SeqInner<T, CAP, W>>) -> (r: Vec<usize>)
    requires
        lanes_wf(lanes@, lanes@.len() as int),
    ensures
        r@ == loads_of(models(lanes@), CAP as int),
{
    let n: usize = lanes.len();
    let mut r: Vec<usize> = Vec::with_capacity(n);
    let mut i: usize = 0;
    while i < n
        invariant
            i <= n,
            n == lanes@.len(),
            lanes_wf(lanes@, n as int),
            r@.len() == i,
            forall|k: int|
                0 <= k < i ==> #[trigger] r@[k] == smaller(
                    lanes@[k].model().pending.len() as int,
                    CAP as int,
                ),
        decreases n - i,
    {
        let q: usize = lanes[i].queued();
        r.push(if q < CAP { q } else { CAP });
        i = i + 1;
    }
    assert(r@ =~= loads_of(models(lanes@), CAP as int));
    r
}

/// One busy shard among idle ones gets a worker of its own: whatever the placement was
/// before, no other shard ends up on its worker, if its load exceeds the margin and there
/// is a second worker.
pub proof fn law_hot_shard_is_alone(
    loads: Seq<usize>,
    hot: int,
    desired: Seq<usize>,
    active: int,
    margin: int,
)
    requires
        loads.len() <= usize::MAX,
        0 <= hot < loads.len(),
        0 <= margin < loads[hot],
        forall|s: int| 0 <= s < loads.len() && s != hot ==> #[trigger] loads[s] == 0,
        desired.len() == loads.len(),
        2 <= active <= usize::MAX,
    ensures
        forall|s: int|
            0 <= s < loads.len() && s != hot ==> #[trigger] rebalanced(
                loads,
                desired,
                active,
                margin,
            )[s] != rebalanced(loads, desired, active, margin)[hot],
{
    let n = loads.len() as int;
    let o = by_load(loads, n);
    law_busiest_first(loads, n);
    lemma_order_covers(o, n, hot as usize);
    let i0 = choose|i: int| 0 <= i < n && o[i] == hot as usize;
    if i0 > 0 {
        let a = o[0] as int;
        let b = o[i0] as int;
        assert(loads[a] > loads[b] || (loads[a] == loads[b] && a < b));
    }
    assert(o[0] == hot);
    lemma_hot_placed(o, loads, hot, desired, active, margin, n);
    assert forall|s: int| 0 <= s < n && s != hot implies #[trigger] rebalanced(
        loads,
        desired,
        active,
        margin,
    )[s] != rebalanced(loads, desired, active, margin)[hot] by {
        lemma_order_covers(o, n, s as usize);
        let i = choose|i: int| 0 <= i < n && o[i] == s as usize;
        let d = placed(o, loads, desired, active, margin, n).1;
        assert(d[o[i] as int] != d[hot]);
    }
}

proof fn lemma_hot_placed(
    o: Seq<usize>,
    loads: Seq<usize>,
    hot: int,
    desired: Seq<usize>,
    active: int,
    margin: int,
    k: int,
)
    requires
        is_order(o, loads.len() as int),
        0 <= hot < loads.len(),
        o[0] == hot,
        0 <= margin < loads[hot],
        forall|s: int| 0 <= s < loads.len() && s != hot ==> #[trigger] loads[s] == 0,
        desired.len() == loads.len(),
        2 <= active <= usize::MAX,
        1 <= k <= loads.len(),
    ensures
        ({
            let (work, d) = placed(o, loads, desired, active, margin, k);
            let h = d[hot] as int;
            &&& work.len() == active
            &&& d.len() == desired.len()
            &&& 0 <= h < active
            &&& forall|w: int|
                0 <= w < active ==> #[trigger] work[w] == if w == h {
                    loads[hot] as int
                } else {
                    0int
                }
            &&& forall|i: int| 1 <= i < k ==> d[#[trigger] o[i] as int] != d[hot]
        }),
    decreases k,
{
    let s = o[k - 1] as int;
    lemma_mod_bound(s, active);
    if k == 1 {
        let (work, d) = placed(o, loads, desired, active, margin, 0);
        let a = anchor_of(d, s, active);
        lemma_stays(work, a, margin, active);
    } else {
        lemma_hot_placed(o, loads, hot, desired, active, margin, k - 1);
        let (work, d) = placed(o, loads, desired, active, margin, k - 1);
        let h = d[hot] as int;
        assert(o[k - 1] != o[0]);
        assert(loads[s] == 0);
        let a = anchor_of(d, s, active);
        if a == h {
            lemma_leaves(work, h, margin, active);
        } else {
            lemma_stays(work, a, margin, active);
        }
        let best = lightest(work, a, margin, active).0;
        assert(best != h);
        let d2 = d.update(s, best as usize);
        assert forall|i: int| 1 <= i < k implies d2[#[trigger] o[i] as int] != d2[hot] by {
            assert(o[i] != o[0]);
            if i < k - 1 {
                assert(o[i] != o[k - 1]);
            }
        }
    }
}

/// From a worker that is heavier than an idle one by more than the margin the shard moves.
proof fn lemma_leaves(work: Seq<int>, h: int, margin: int, active: int)
    requires
        work.len() == active,
        0 <= h < active,
        2 <= active,
        0 <= margin < work[h],
        forall|w: int| 0 <= w < active && w != h ==> #[trigger] work[w] == 0,
    ensures
        0 <= lightest(work, h, margin, active).0 < active,
        lightest(work, h, margin, active).0 != h,
{
    lemma_leaves_by(work, h, margin, active, active);
}

proof fn lemma_leaves_by(work: Seq<int>, h: int, margin: int, active: int, k: int)
    requires
        work.len() == active,
        0 <= h < active,
        2 <= active,
        0 <= margin < work[h],
        forall|w: int| 0 <= w < active && w != h ==> #[trigger] work[w] == 0,
        0 <= k <= active,
    ensures
        ({
            let (best, load) = lightest(work, h, margin, k);
            if k == 0 || (k == 1 && h == 0) {
                best == h && load == work[h]
            } else {
                0 <= best < active && best != h && load == 0
            }
        }),
    decreases k,
{
    if k > 0 {
        lemma_leaves_by(work, h, margin, active, k - 1);
        if k - 1 != h {
            assert(work[k - 1] == 0);
        }
    }
}

/// While the margin is not exceeded, nothing is placed anew.
proof fn lemma_wide_margin(
    order: Seq<usize>,
    loads: Seq<usize>,
    desired: Seq<usize>,
    active: int,
    margin: int,
    k: int,
)
    requires
        0 < active <= usize::MAX,
        0 <= k <= order.len(),
        loads.len() <= desired.len(),
        order.len() == loads.len(),
        forall|i: int| 0 <= i < order.len() ==> (#[trigger] order[i]) < loads.len(),
        order_total(order, loads, order.len() as int) <= margin,
        forall|s: int| 0 <= s < loads.len() ==> #[trigger] desired[s] < active,
    ensures
        placed(order, loads, desired, active, margin, k).1 == desired,
    decreases k,
{
    if k > 0 {
        lemma_wide_margin(order, loads, desired, active, margin, k - 1);
        lemma_placed(order, loads, desired, active, margin, k - 1);
        lemma_order_total_grows(order, loads, 0, order.len() as int);
        lemma_order_total_grows(order, loads, k - 1, order.len() as int);
        let work = placed(order, loads, desired, active, margin, k - 1).0;
        let s = order[k - 1] as int;
        assert(order[k - 1] < loads.len());
        let a = anchor_of(desired, s, active);
        assert(a == desired[s]);
        law_placement_is_sticky(work, a, margin);
        let best = lightest(work, a, margin, active).0;
        assert(0 <= work[a] <= margin);
        if best != a {
            lemma_lightest(work, a, margin, active);
            assert(0 <= work[best]);
        }
        assert(desired.update(s, best as usize) =~= desired);
    }
}

/// Small changes of load are no reason to move: with a margin of at least the whole load,
/// and every shard on a worker that is still active, no shard is placed anew.
pub proof fn law_wide_margin_moves_nothing(
    loads: Seq<usize>,
    desired: Seq<usize>,
    active: int,
    margin: int,
)
    requires
        loads.len() <= desired.len(),
        loads.len() <= usize::MAX,
        0 <= active <= usize::MAX,
        total(loads) <= margin,
        forall|s: int| 0 <= s < loads.len() ==> #[trigger] desired[s] < larger(active, 1),
    ensures
        rebalanced(loads, desired, active, margin) == desired,
{
    let n = loads.len() as int;
    law_busiest_first(loads, n);
    lemma_order_total(loads, n);
    assert(loads.subrange(0, n) =~= loads);
    lemma_wide_margin(by_load(loads, n), loads, desired, larger(active, 1), margin, n);
}

} // verus!
