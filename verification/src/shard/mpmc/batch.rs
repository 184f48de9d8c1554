use super::super::errors::{ShardKeyBatchSendError, ShardKeyTryBatchSendError};
use super::buf::{joined, vec_views, RestoreGroups};
use super::lanes::{lanes_wf, models};
use super::layout::{can_key, keyed};
use crate::internal_channel::errors::{BatchSendError, SendBatchError, TrySendBatchError};
use crate::internal_channel::inner::SeqInner;
use crate::internal_channel::model::ChannelModel;
use crate::internal_channel::sender::try_send_batch;
use crate::internal_channel::traits::InnerChannel;
use crate::ring::written;
use vstd::prelude::*;

verus! {

/// How many items of its group shard `s` takes.
pub open spec fn batch_taken<T, W>(
    groups: Seq<Seq<T>>,
    ms: Seq<ChannelModel<T, W>>,
    cap: int,
    s: int,
) -> int {
    ms[s].room(cap, groups[s].len() as int)
}

/// The shards after each has taken what it can of its group.
pub open spec fn batch_models<T, W>(
    groups: Seq<Seq<T>>,
    ms: Seq<ChannelModel<T, W>>,
    cap: int,
) -> Seq<ChannelModel<T, W>> {
    Seq::new(
        ms.len(),
        |s: int|
            {
                let n = batch_taken(groups, ms, cap, s);
                ms[s].pushed_all(groups[s].subrange(0, n)).receivers_notified(n as nat)
            },
    )
}

/// What is left of each group.
pub open spec fn batch_left<T, W>(
    groups: Seq<Seq<T>>,
    ms: Seq<ChannelModel<T, W>>,
    cap: int,
) -> Seq<Seq<T>> {
    Seq::new(
        groups.len(),
        |s: int|
            groups[s].subrange(batch_taken(groups, ms, cap, s), groups[s].len() as int),
    )
}

/// How many items the first `k` shards take.
pub open spec fn batch_sent<T, W>(
    groups: Seq<Seq<T>>,
    ms: Seq<ChannelModel<T, W>>,
    cap: int,
    k: int,
) -> int
    decreases k,
{
    if k <= 0 {
        0
    } else {
        batch_sent(groups, ms, cap, k - 1) + batch_taken(groups, ms, cap, k - 1)
    }
}

/// Shard `s` did not take all of its group.
pub open spec fn is_short<T, W>(
    groups: Seq<Seq<T>>,
    ms: Seq<ChannelModel<T, W>>,
    cap: int,
    s: int,
) -> bool {
    batch_taken(groups, ms, cap, s) < groups[s].len()
}

/// Shard `s` is the first that did not take all of its group.
pub open spec fn first_short<T, W>(
    groups: Seq<Seq<T>>,
    ms: Seq<ChannelModel<T, W>>,
    cap: int,
    s: int,
) -> bool {
    &&& 0 <= s < groups.len()
    &&& is_short(groups, ms, cap, s)
    &&& forall|j: int| 0 <= j < s ==> !#[trigger] is_short(groups, ms, cap, j)
}

/// Why it did not.
pub open spec fn short_reason<T, W>(m: ChannelModel<T, W>) -> TrySendBatchError {
    if m.rx_closed {
        TrySendBatchError::Disconnected
    } else {
        TrySendBatchError::Full
    }
}

/// The answer to a batch by key.
pub open spec fn batch_result<T, W, F: for<'k> Fn(&'k T) -> &'k str>(
    key_fn: F,
    groups: Seq<Seq<T>>,
    ms: Seq<ChannelModel<T, W>>,
    cap: int,
    r: Result<usize, ShardKeyTryBatchSendError>,
) -> bool {
    match r {
        Ok(n) => {
            &&& n == batch_sent(groups, ms, cap, groups.len() as int)
            &&& forall|s: int| 0 <= s < groups.len() ==> !#[trigger] is_short(groups, ms, cap, s)
        },
        Err(e) => {
            &&& e.sent == batch_sent(groups, ms, cap, groups.len() as int)
            &&& first_short(groups, ms, cap, e.shard as int)
            &&& e.reason == short_reason(ms[e.shard as int])
            &&& keyed(key_fn, batch_left(groups, ms, cap)[e.shard as int][0], e.key@)
        },
    }
}

proof fn lemma_joined_prefix<T>(groups: Seq<Seq<T>>, k: int)
    requires
        0 <= k <= groups.len(),
    ensures
        joined(groups.subrange(0, k)).len() <= joined(groups).len(),
    decreases groups.len() - k,
{
    if k == groups.len() {
        assert(groups.subrange(0, k) =~= groups);
    } else {
        lemma_joined_prefix(groups, k + 1);
        let p = groups.subrange(0, k + 1);
        assert(p.drop_last() =~= groups.subrange(0, k));
    }
}

/// What shards take is never more than there is.
pub proof fn lemma_batch<T, W>(
    groups: Seq<Seq<T>>,
    ms: Seq<ChannelModel<T, W>>,
    cap: int,
    k: int,
)
    requires
        0 <= k <= groups.len(),
    ensures
        0 <= batch_sent(groups, ms, cap, k) <= joined(groups.subrange(0, k)).len(),
        joined(groups.subrange(0, k)).len() <= joined(groups).len(),
        forall|s: int|
            0 <= s < groups.len() ==> 0 <= #[trigger] batch_taken(groups, ms, cap, s)
                <= groups[s].len(),
    decreases k,
{
    lemma_joined_prefix(groups, k);
    if k > 0 {
        lemma_batch(groups, ms, cap, k - 1);
        let p = groups.subrange(0, k);
        assert(p.drop_last() =~= groups.subrange(0, k - 1));
        assert(p.last() == groups[k - 1]);
    }
}

/// Sends each group to its shard without waiting; what did not fit stays in the groups.
/// Says how many items went, and which shard was the first to fall short.
pub(crate) fn try_send_groups<T, const CAP: usize, W>(
    lanes: &mut Vec<SeqInner<T, CAP, W>>,
    groups: &mut Vec<Vec<T>>,
    most: Ghost<nat>,
) -> (r: (usize, Option<(usize, TrySendBatchError)>))
    requires
        lanes_wf(old(lanes)@, old(groups)@.len() as int),
        joined(vec_views(old(groups)@)).len() <= most@,
        most@ <= usize::MAX,
    ensures
        lanes_wf(final(lanes)@, old(groups)@.len() as int),
        ({
            let gs = vec_views(old(groups)@);
            let ms = models(old(lanes)@);
            &&& final(groups)@.len() == old(groups)@.len()
            &&& models(final(lanes)@) == batch_models(gs, ms, CAP as int)
            &&& vec_views(final(groups)@) == batch_left(gs, ms, CAP as int)
            &&& r.0 == batch_sent(gs, ms, CAP as int, gs.len() as int)
            &&& match r.1 {
                None => forall|s: int|
                    0 <= s < gs.len() ==> !#[trigger] is_short(gs, ms, CAP as int, s),
                Some((s, why)) => {
                    &&& first_short(gs, ms, CAP as int, s as int)
                    &&& why == short_reason(ms[s as int])
                },
            }
        }),
{
    let ghost gs = vec_views(groups@);
    let ghost ms = models(lanes@);
    let ghost cap = CAP as int;
    let n: usize = groups.len();
    let mut total: usize = 0;
    let mut short: Option<(usize, TrySendBatchError)> = None;
    let mut s: usize = 0;
    while s < n
        invariant
            s <= n,
            n == gs.len(),
            ms.len() == n,
            groups@.len() == n,
            lanes_wf(lanes@, n as int),
            cap == CAP,
            joined(gs).len() <= most@,
            most@ <= usize::MAX,
            total == batch_sent(gs, ms, cap, s as int),
            forall|k: int|
                0 <= k < s ==> (#[trigger] lanes@[k]).model() == batch_models(gs, ms, cap)[k],
            forall|k: int| s <= k < n ==> (#[trigger] lanes@[k]).model() == ms[k],
            forall|k: int|
                0 <= k < s ==> (#[trigger] groups@[k])@ == batch_left(gs, ms, cap)[k],
            forall|k: int| s <= k < n ==> (#[trigger] groups@[k])@ == gs[k],
            match short {
                None => forall|k: int| 0 <= k < s ==> !#[trigger] is_short(gs, ms, cap, k),
                Some((k, why)) => {
                    &&& k < s
                    &&& first_short(gs, ms, cap, k as int)
                    &&& why == short_reason(ms[k as int])
                },
            },
        decreases n - s,
    {
        proof {
            lemma_batch(gs, ms, cap, s + 1);
        }
        if groups[s].len() > 0 {
            match try_send_batch(&mut lanes[s], &mut groups[s]) {
                Ok(sent) => {
                    total = total + sent;
                },
                Err(e) => {
                    total = total + e.sent;
                    if short.is_none() {
                        short = Some((s, e.err));
                    }
                },
            }
        } else {
            proof {
                let m = ms[s as int];
                let g = gs[s as int];
                assert(g.subrange(0, 0) =~= g);
                assert(written(g) =~= Seq::empty());
                assert(m.pending + written(g) =~= m.pending);
                assert(m.woken + Seq::<W>::empty() =~= m.woken);
            }
        }
        s = s + 1;
    }
    proof {
        assert(models(lanes@) =~= batch_models(gs, ms, cap));
        assert(vec_views(groups@) =~= batch_left(gs, ms, cap));
    }
    (total, short)
}

/// How many items of a group were sent, by the answer.
pub open spec fn went(r: Result<usize, BatchSendError<SendBatchError>>) -> int {
    match r {
        Ok(n) => n as int,
        Err(e) => e.sent as int,
    }
}

/// How long a batch may wait for its shards. Times are ticks of a clock.
#[derive(Clone, Copy, Debug, PartialEq, Eq, Structural)]
pub enum Budget {
    /// As long as it takes.
    Endless,
    /// All shards together until this point in time.
    Until(u64),
    /// Each shard so long.
    Each(u64),
}

impl Budget {
    /// How long a shard whose turn comes at `now` may be waited for; `None` for as long as it
    /// takes.
    pub open spec fn left_at(self, now: u64) -> Option<u64> {
        match self {
            Budget::Endless => None,
            Budget::Until(at) => Some(
                if now < at {
                    (at - now) as u64
                } else {
                    0
                },
            ),
            Budget::Each(d) => Some(d),
        }
    }

    pub fn time_left(&self, now: u64) -> (r: Option<u64>)
        ensures
            r == self.left_at(now),
    {
        match *self {
            Budget::Endless => None,
            Budget::Until(at) => Some(at.saturating_sub(now)),
            Budget::Each(d) => Some(d),
        }
    }
}

/// One budget serves all shards: whenever the turn of a shard comes, its wait ends at the same
/// point in time as that of every other shard, and after that point no shard is waited for.
pub proof fn law_one_budget(at: u64, now: u64)
    ensures
        now <= at ==> now + Budget::Until(at).left_at(now)->Some_0 == at,
        now >= at ==> Budget::Until(at).left_at(now) == Some(0u64),
{
}

/// A batch that has been laid out by shard and goes to its shards one after the other,
/// with waiting.
pub struct ShardBatch<T> {
    groups: Vec<Vec<T>>,
    unused: Vec<T>,
    next: usize,
    sent: usize,
    budget: Budget,
}

impl<T> ShardBatch<T> {
    /// The groups whose turn has not come, empty ones for those whose turn has.
    pub closed spec fn groups(&self) -> Seq<Seq<T>> {
        vec_views(self.groups@)
    }

    /// The items that belong to no shard.
    pub closed spec fn unused(&self) -> Seq<T> {
        self.unused@
    }

    /// How many items have been sent.
    pub closed spec fn sent(&self) -> usize {
        self.sent
    }

    /// The first shard whose turn has not come.
    pub closed spec fn next(&self) -> int {
        self.next as int
    }

    /// How long the batch may wait; it stays the same from the first shard to the last.
    pub closed spec fn budget(&self) -> Budget {
        self.budget
    }

    pub closed spec fn wf(&self) -> bool {
        &&& self.next <= self.groups@.len()
        &&& forall|s: int| 0 <= s < self.next ==> (#[trigger] self.groups@[s])@.len() == 0
    }

    pub fn new(groups: Vec<Vec<T>>, unused: Vec<T>, budget: Budget) -> (b: Self)
        ensures
            b.wf(),
            b.groups() == vec_views(groups@),
            b.unused() == unused@,
            b.sent() == 0,
            b.next() == 0,
            b.budget() == budget,
    {
        ShardBatch { groups, unused, next: 0, sent: 0, budget }
    }

    /// How long the shard whose turn it is may be waited for, if its turn comes at `now`;
    /// `None` for as long as it takes.
    pub fn time_left(&self, now: u64) -> (r: Option<u64>)
        ensures
            r == self.budget().left_at(now),
    {
        self.budget.time_left(now)
    }

    /// The next group that is not empty, with its shard.
    pub fn take(&mut self) -> (r: Option<(usize, Vec<T>)>)
        requires
            old(self).wf(),
        ensures
            final(self).wf(),
            final(self).unused() == old(self).unused(),
            final(self).sent() == old(self).sent(),
            final(self).budget() == old(self).budget(),
            match r {
                None => {
                    &&& final(self).groups() == old(self).groups()
                    &&& forall|s: int|
                        0 <= s < old(self).groups().len() ==> (#[trigger] old(self).groups()[s]).len()
                            == 0
                },
                Some((s, g)) => {
                    &&& old(self).next() <= s < old(self).groups().len()
                    &&& g@ == old(self).groups()[s as int]
                    &&& g@.len() > 0
                    &&& forall|j: int|
                        0 <= j < s ==> (#[trigger] old(self).groups()[j]).len() == 0
                    &&& final(self).groups() == old(self).groups().update(
                        s as int,
                        Seq::empty(),
                    )
                    &&& final(self).next() == s + 1
                },
            },
    {
        let ghost pre = self.groups@;
        while self.next < self.groups.len()
            invariant
                self.wf(),
                self.groups@ == pre,
                pre == old(self).groups@,
                old(self).next <= self.next,
                self.unused == old(self).unused,
                self.sent == old(self).sent,
                self.budget == old(self).budget,
            decreases self.groups@.len() - self.next,
        {
            let s: usize = self.next;
            self.next = s + 1;
            if self.groups[s].len() > 0 {
                let mut g: Vec<T> = Vec::new();
                g.append(&mut self.groups[s]);
                proof {
                    assert(g@ =~= pre[s as int]@);
                    assert(self.groups@[s as int]@ =~= Seq::empty());
                    assert(vec_views(self.groups@) =~= vec_views(pre).update(
                        s as int,
                        Seq::empty(),
                    ));
                    assert forall|j: int|
                        0 <= j < s implies (#[trigger] vec_views(pre)[j]).len() == 0 by {
                        assert(pre[j]@.len() == 0);
                    }
                }
                return Some((s, g));
            }
        }
        proof {
            assert forall|s: int| 0 <= s < vec_views(pre).len() implies (
            #[trigger] vec_views(pre)[s]).len() == 0 by {
                assert(self.groups@[s]@.len() == 0);
            }
        }
        None
    }

    /// Notes that `n` more items have been sent.
    pub fn add_sent(&mut self, n: usize)
        requires
            old(self).wf(),
            old(self).sent() + n <= usize::MAX,
        ensures
            final(self).wf(),
            final(self).sent() == old(self).sent() + n,
            final(self).groups() == old(self).groups(),
            final(self).unused() == old(self).unused(),
            final(self).next() == old(self).next(),
            final(self).budget() == old(self).budget(),
    {
        self.sent = self.sent + n;
    }

    /// Goes on after the group of `shard` was sent with waiting, with answer `r`; `group` is
    /// what was left of it. If it was cut short the batch ends: what was not sent goes to
    /// `buf`, and the error names the key of the first unsent item of that group.
    pub fn settle<F: for<'k> Fn(&'k T) -> &'k str>(
        self,
        shard: usize,
        group: Vec<T>,
        r: Result<usize, BatchSendError<SendBatchError>>,
        buf: &mut Vec<T>,
        key_fn: &F,
    ) -> (b: Result<Self, ShardKeyBatchSendError>)
        requires
            self.wf(),
            can_key(*key_fn, group@),
            self.sent() + went(r) <= usize::MAX,
        ensures
            match b {
                Ok(b) => {
                    &&& r is Ok
                    &&& b.wf()
                    &&& b.sent() == self.sent() + went(r)
                    &&& b.groups() == self.groups()
                    &&& b.unused() == self.unused()
                    &&& b.next() == self.next()
                    &&& b.budget() == self.budget()
                    &&& final(buf)@ == old(buf)@ + group@
                },
                Err(e) => {
                    &&& r is Err
                    &&& e.shard == shard
                    &&& e.sent == self.sent() + went(r)
                    &&& e.reason == r->Err_0.err
                    &&& group@.len() > 0 ==> keyed(*key_fn, group@[0], e.key@)
                    &&& group@.len() == 0 ==> e.key@.len() == 0
                    &&& final(buf)@ == old(buf)@ + group@ + joined(self.groups()) + self.unused()
                },
            },
    {
        let mut this = self;
        match r {
            Ok(n) => {
                this.add_sent(n);
                let mut group = group;
                buf.append(&mut group);
                Ok(this)
            },
            Err(e) => {
                this.add_sent(e.sent);
                let key = if group.len() > 0 {
                    key_fn(&group[0]).to_owned()
                } else {
                    String::new()
                };
                let sent: usize = this.finish(group, buf);
                Err(ShardKeyBatchSendError { key, shard, sent, reason: e.err })
            },
        }
    }

    /// Ends the batch: what is left of the group whose turn it was, the groups whose turn
    /// has not come, and what belongs to no shard go to `buf`. Says how many items went.
    pub fn finish(self, failed_group: Vec<T>, buf: &mut Vec<T>) -> (n: usize)
        ensures
            n == self.sent(),
            final(buf)@ == old(buf)@ + failed_group@ + joined(self.groups()) + self.unused(),
    {
        let ShardBatch { groups, unused, next, sent, budget } = self;
        let mut unused = unused;
        super::buf::refill_on_error(buf, failed_group, groups);
        buf.append(&mut unused);
        sent
    }
}

/// Sends as much of the group of `shard` as there is room for, in one go; the rest stays
/// in its group, in order. Says how many items went.
pub fn bulk_send<T, const CAP: usize, W>(
    g: &mut RestoreGroups<T>,
    lane: &mut SeqInner<T, CAP, W>,
    shard: usize,
) -> (n: usize)
    requires
        old(lane).wf(),
        old(g)@.sound(),
        old(g)@.scratch.len() == 0,
        shard < old(g)@.groups.len(),
    ensures
        final(lane).wf(),
        final(g)@.sound(),
        ({
            let group = old(g)@.groups[shard as int];
            let m = old(lane).model();
            let k = m.room(CAP as int, group.len() as int);
            &&& n == k
            &&& final(lane).model() == m.pushed_all(group.subrange(0, k)).receivers_notified(
                k as nat,
            )
            &&& final(g)@.groups == old(g)@.groups.update(
                shard as int,
                group.subrange(k, group.len() as int),
            )
            &&& final(g)@.scratch.len() == 0
            &&& final(g)@.unused == old(g)@.unused
            &&& final(g)@.pending == old(g)@.pending
            &&& final(g)@.pending_shard == old(g)@.pending_shard
        }),
{
    let ghost pre = g@;
    let ghost m = lane.model();
    let ghost group = g@.groups[shard as int];
    let used: usize = lane.queued();
    if used >= CAP {
        proof {
            assert(group.subrange(0, 0) =~= Seq::empty());
            assert(written(group.subrange(0, 0)) =~= Seq::empty());
            assert(m.pending + written(group.subrange(0, 0)) =~= m.pending);
            assert(m.woken + Seq::<W>::empty() =~= m.woken);
            assert(group.subrange(0, group.len() as int) =~= group);
            assert(pre.groups.update(shard as int, group) =~= pre.groups);
        }
        return 0;
    }
    let free: usize = CAP - used;
    let stage = g.bulk_stage(shard, free);
    let ghost staged = stage@;
    let r = try_send_batch(lane, stage);
    let n: usize = match r {
        Ok(n) => n,
        Err(e) => e.sent,
    };
    proof {
        let k = m.room(CAP as int, group.len() as int);
        assert(staged.subrange(0, n as int) =~= group.subrange(0, k));
        assert(staged.subrange(n as int, staged.len() as int) + group.subrange(
            staged.len() as int,
            group.len() as int,
        ) =~= group.subrange(k, group.len() as int));
    }
    g.bulk_return();
    proof {
        let k = m.room(CAP as int, group.len() as int);
        assert(g@.groups =~= pre.groups.update(
            shard as int,
            group.subrange(k, group.len() as int),
        ));
    }
    n
}

} // verus!
