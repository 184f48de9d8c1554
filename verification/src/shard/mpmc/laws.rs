use super::batch::{batch_left, batch_models, batch_sent, batch_taken, lemma_batch};
use super::buf::joined;
use super::flow::{flowed, FlowModel, FlowStep};
use super::hash::shard_of;
use super::layout::{laid_out, law_layout_conserves, picked};
use super::sender_group::{stopped_left, stopped_models};
use crate::internal_channel::laws::gapless;
use crate::internal_channel::model::ChannelModel;
use crate::internal_channel::sender::try_sent;
use crate::ring::{values, written};
use vstd::prelude::*;

verus! {

/// The shards after `v` was sent by `key` without waiting.
pub open spec fn sent_by_key<T, W>(
    ms: Seq<ChannelModel<T, W>>,
    cap: int,
    key: Seq<char>,
    v: T,
) -> Seq<ChannelModel<T, W>> {
    let s = shard_of(key, ms.len() as int);
    ms.update(s, try_sent(ms[s], cap, v).0)
}

/// Items of one key that are sent one after the other stand one after the other in the
/// shard of that key, behind all that was there; other shards are untouched.
pub proof fn law_key_order<T, W>(
    ms: Seq<ChannelModel<T, W>>,
    cap: int,
    key: Seq<char>,
    a: T,
    b: T,
)
    requires
        ms.len() > 0,
        gapless(ms[shard_of(key, ms.len() as int)]),
        !ms[shard_of(key, ms.len() as int)].rx_closed,
        ms[shard_of(key, ms.len() as int)].pending.len() + 1 < cap,
    ensures
        ({
            let s = shard_of(key, ms.len() as int);
            let post = sent_by_key(sent_by_key(ms, cap, key, a), cap, key, b);
            &&& values(post[s].pending) == values(ms[s].pending).push(a).push(b)
            &&& forall|j: int| 0 <= j < ms.len() && j != s ==> #[trigger] post[j] == ms[j]
        }),
{
    let s = shard_of(key, ms.len() as int);
    let post = sent_by_key(sent_by_key(ms, cap, key, a), cap, key, b);
    assert(values(post[s].pending) =~= values(ms[s].pending).push(a).push(b));
}

/// What each shard takes of its group.
pub open spec fn batch_accepted<T, W>(
    groups: Seq<Seq<T>>,
    ms: Seq<ChannelModel<T, W>>,
    cap: int,
) -> Seq<Seq<T>> {
    Seq::new(
        groups.len(),
        |s: int| groups[s].subrange(0, batch_taken(groups, ms, cap, s)),
    )
}

/// What each shard takes of its group when the batch stops after shard `f`.
pub open spec fn stopped_accepted<T, W>(
    groups: Seq<Seq<T>>,
    ms: Seq<ChannelModel<T, W>>,
    cap: int,
    f: int,
) -> Seq<Seq<T>> {
    Seq::new(
        groups.len(),
        |s: int|
            if s <= f {
                batch_accepted(groups, ms, cap)[s]
            } else {
                Seq::empty()
            },
    )
}

/// Groups that are each split in two hold together what the two halves hold.
proof fn lemma_split<T>(groups: Seq<Seq<T>>, a: Seq<Seq<T>>, b: Seq<Seq<T>>)
    requires
        a.len() == groups.len(),
        b.len() == groups.len(),
        forall|s: int| 0 <= s < groups.len() ==> #[trigger] groups[s] == a[s] + b[s],
    ensures
        joined(groups).to_multiset() == joined(a).to_multiset().add(joined(b).to_multiset()),
    decreases groups.len(),
{
    if groups.len() == 0 {
        vstd::seq_lib::lemma_multiset_commutative(joined(a), joined(b));
        assert(joined(a) + joined(b) =~= joined(groups));
    } else {
        let (g0, a0, b0) = (groups.drop_last(), a.drop_last(), b.drop_last());
        assert forall|s: int| 0 <= s < g0.len() implies #[trigger] g0[s] == a0[s] + b0[s] by {
            assert(groups[s] == a[s] + b[s]);
        }
        lemma_split(g0, a0, b0);
        assert(groups[groups.len() - 1] == a[a.len() - 1] + b[b.len() - 1]);
        vstd::seq_lib::lemma_multiset_commutative(joined(g0), groups.last());
        vstd::seq_lib::lemma_multiset_commutative(joined(a0), a.last());
        vstd::seq_lib::lemma_multiset_commutative(joined(b0), b.last());
        vstd::seq_lib::lemma_multiset_commutative(a.last(), b.last());
        assert(joined(groups).to_multiset() =~= joined(a).to_multiset().add(
            joined(b).to_multiset(),
        ));
    }
}

/// A batch by key loses nothing and doubles nothing: what the shards took and what is left
/// are, together, the batch.
pub proof fn law_batch_loses_nothing<T, W>(
    items: Seq<T>,
    shards: Seq<int>,
    ms: Seq<ChannelModel<T, W>>,
    cap: int,
)
    requires
        items.len() == shards.len(),
        forall|i: int| 0 <= i < shards.len() ==> 0 <= #[trigger] shards[i] < ms.len(),
    ensures
        ({
            let gs = laid_out(items, shards, ms.len() as int);
            &&& joined(batch_accepted(gs, ms, cap)).to_multiset().add(
                joined(batch_left(gs, ms, cap)).to_multiset(),
            ) == items.to_multiset()
            &&& forall|s: int|
                0 <= s < ms.len() ==> #[trigger] batch_models(gs, ms, cap)[s].pending
                    == ms[s].pending + written(batch_accepted(gs, ms, cap)[s])
        }),
{
    let n = ms.len() as int;
    let gs = laid_out(items, shards, n);
    let a = batch_accepted(gs, ms, cap);
    let b = batch_left(gs, ms, cap);
    lemma_batch(gs, ms, cap, n);
    assert forall|s: int| 0 <= s < gs.len() implies #[trigger] gs[s] == a[s] + b[s] by {
        assert(0 <= batch_taken(gs, ms, cap, s) <= gs[s].len());
        assert(gs[s] =~= a[s] + b[s]);
    }
    lemma_split(gs, a, b);
    law_layout_conserves(items, shards, n);
    lemma_none_picked(items, shards);
    assert(joined(gs) + picked(items, shards, -1) =~= joined(gs));
}

/// Without an item that belongs to no shard, none is kept apart.
proof fn lemma_none_picked<T>(items: Seq<T>, shards: Seq<int>)
    requires
        items.len() == shards.len(),
        forall|i: int| 0 <= i < shards.len() ==> 0 <= #[trigger] shards[i],
    ensures
        picked(items, shards, -1).len() == 0,
    decreases items.len(),
{
    if items.len() > 0 {
        assert(shards[shards.len() - 1] >= 0);
        lemma_none_picked(items.drop_last(), shards.drop_last());
    }
}

/// A batch by group loses nothing and doubles nothing, also when it stops at shard `f`
/// because that fell short: what the shards took, what is left of the groups, and the
/// items whose key has no shard are, together, the batch.
pub proof fn law_stopped_batch_loses_nothing<T, W>(
    items: Seq<T>,
    shards: Seq<int>,
    ms: Seq<ChannelModel<T, W>>,
    cap: int,
    f: int,
)
    requires
        items.len() == shards.len(),
        forall|i: int| 0 <= i < shards.len() ==> -1 <= #[trigger] shards[i] < ms.len(),
    ensures
        ({
            let gs = laid_out(items, shards, ms.len() as int);
            &&& joined(stopped_accepted(gs, ms, cap, f)).to_multiset().add(
                joined(stopped_left(gs, ms, cap, f)).to_multiset(),
            ).add(picked(items, shards, -1).to_multiset()) == items.to_multiset()
            &&& forall|s: int|
                0 <= s < ms.len() ==> #[trigger] stopped_models(gs, ms, cap, f)[s].pending
                    == ms[s].pending + written(stopped_accepted(gs, ms, cap, f)[s])
        }),
{
    let n = ms.len() as int;
    let gs = laid_out(items, shards, n);
    let a = stopped_accepted(gs, ms, cap, f);
    let b = stopped_left(gs, ms, cap, f);
    let p = picked(items, shards, -1);
    lemma_batch(gs, ms, cap, n);
    assert forall|s: int| 0 <= s < gs.len() implies #[trigger] gs[s] == a[s] + b[s] by {
        assert(0 <= batch_taken(gs, ms, cap, s) <= gs[s].len());
        assert(gs[s] =~= a[s] + b[s]);
    }
    lemma_split(gs, a, b);
    law_layout_conserves(items, shards, n);
    vstd::seq_lib::lemma_multiset_commutative(joined(gs), p);
    assert forall|s: int| 0 <= s < ms.len() implies #[trigger] stopped_models(
        gs,
        ms,
        cap,
        f,
    )[s].pending == ms[s].pending + written(a[s]) by {
        if s > f {
            assert(written(a[s]) =~= Seq::empty());
            assert(ms[s].pending + written(a[s]) =~= ms[s].pending);
        }
    }
}

/// The number that a batch reports is how many items the shards took.
pub proof fn law_batch_counts_what_it_sent<T, W>(
    groups: Seq<Seq<T>>,
    ms: Seq<ChannelModel<T, W>>,
    cap: int,
)
    ensures
        batch_sent(groups, ms, cap, groups.len() as int) == joined(
            batch_accepted(groups, ms, cap),
        ).len(),
{
    lemma_counts(groups, ms, cap, groups.len() as int);
    let a = batch_accepted(groups, ms, cap);
    assert(a.subrange(0, a.len() as int) =~= a);
}

proof fn lemma_counts<T, W>(groups: Seq<Seq<T>>, ms: Seq<ChannelModel<T, W>>, cap: int, k: int)
    requires
        0 <= k <= groups.len(),
    ensures
        batch_sent(groups, ms, cap, k) == joined(
            batch_accepted(groups, ms, cap).subrange(0, k),
        ).len(),
    decreases k,
{
    lemma_batch(groups, ms, cap, k);
    if k > 0 {
        lemma_counts(groups, ms, cap, k - 1);
        let p = batch_accepted(groups, ms, cap).subrange(0, k);
        assert(p.drop_last() =~= batch_accepted(groups, ms, cap).subrange(0, k - 1));
        assert(0 <= batch_taken(groups, ms, cap, k - 1) <= groups[k - 1].len());
    }
}

/// A batch that a task sends keeps the order within every shard, step by step: what waits
/// for a shard is what waited before, without the items from its front that went into the
/// shard; and what went is behind all that the shard held.
pub proof fn law_flow_keeps_order<T, W>(
    f: FlowModel<T>,
    ms: Seq<ChannelModel<T, W>>,
    cap: int,
    waker: W,
    f2: FlowModel<T>,
    ms2: Seq<ChannelModel<T, W>>,
    step: FlowStep,
    s: int,
)
    requires
        f.sound(),
        f2.sound(),
        ms.len() == f.groups.groups.len(),
        f2.groups.groups.len() == f.groups.groups.len(),
        flowed(f, ms, cap, waker, f2, ms2, step),
        0 <= s < ms.len(),
    ensures
        exists|k: int|
            0 <= k <= f.groups.of_shard(s).len() && f2.groups.of_shard(s)
                == #[trigger] f.groups.of_shard(s).subrange(k, f.groups.of_shard(s).len() as int)
                && ms2[s].pending == ms[s].pending + written(
                f.groups.of_shard(s).subrange(0, k),
            ),
{
    let all = f.groups.of_shard(s);
    let n = all.len() as int;
    assert(f.groups.scratch =~= Seq::empty());
    assert(f2.groups.scratch =~= Seq::empty());
    assert(all.subrange(0, n) =~= all);
    assert(all.subrange(0, 0) =~= Seq::empty());
    assert(written(all.subrange(0, 0)) =~= Seq::empty());
    assert(ms[s].pending + written(all.subrange(0, 0)) =~= ms[s].pending);
    if s != f.shard {
        assert(f2.groups.groups[s] == f.groups.groups[s]);
        assert(f2.groups.of_shard(s) =~= all.subrange(0, n));
        assert(ms2[s].pending == ms[s].pending + written(all.subrange(0, 0)));
    } else {
        match f.groups.pending {
            Some(v) => {
                assert(all =~= seq![v] + f.groups.groups[s]);
                if step is Again {
                    assert(f2.groups.of_shard(s) =~= all.subrange(1, n));
                    assert(written(all.subrange(0, 1)) =~= seq![Some(v)]);
                    assert(ms2[s].pending =~= ms[s].pending + written(all.subrange(0, 1)));
                } else {
                    assert(f2.groups.of_shard(s) =~= all.subrange(0, n));
                    assert(ms2[s].pending == ms[s].pending + written(all.subrange(0, 0)));
                }
            },
            None => {
                let g = f.groups.groups[s];
                assert(all =~= g);
                let k = ms[s].room(cap, g.len() as int);
                if g.len() == 0 {
                    assert(f2.groups.of_shard(s) =~= all.subrange(0, n));
                } else if k > 0 {
                    assert(f2.groups.of_shard(s) =~= all.subrange(k, n));
                    assert(ms2[s].pending =~= ms[s].pending + written(all.subrange(0, k)));
                } else {
                    assert(f2.groups.of_shard(s) =~= all.subrange(0, n));
                    assert(ms2[s].pending == ms[s].pending + written(all.subrange(0, 0)));
                }
            },
        }
    }
}

} // verus!
