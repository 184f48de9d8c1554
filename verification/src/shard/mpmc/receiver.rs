use super::super::errors::{ShardRecvAnyError, ShardTryRecvError};
use super::super::recv::{
    ShardRecvBatchFuture, ShardRecvBatchOp, ShardRecvFuture, ShardRecvOp,
};
use super::buf::joined;
use super::hash::{hash_key, hash_shard, shard_of};
use super::lanes::{lanes_wf, models};
use super::recv_any::RecvAnyFuture;
use crate::internal_channel::errors::{AsyncRecvError, TryRecvError};
use crate::internal_channel::handles::Receiver;
use crate::internal_channel::inner::SeqInner;
use crate::internal_channel::model::ChannelModel;
use crate::internal_channel::receiver::{try_recv, try_received, try_recv_batch};
use crate::internal_channel::traits::InnerChannel;
use crate::pow2::is_pow2;
use crate::ring::{lemma_ready, values};
use vstd::arithmetic::div_mod::{lemma_mod_add_multiples_vanish, lemma_mod_bound, lemma_small_mod};
use vstd::prelude::*;

verus! {

/// The right to receive from all shards of a sharded channel.
pub struct ShardReceiver<T, const CAP: usize, W> {
    receivers: Vec<Receiver<SeqInner<T, CAP, W>>>,
    cursor: usize,
}

/// The shard `k` places after `start` on the circle of `n` shards.
pub open spec fn around(start: int, k: int, n: int) -> int {
    (start + k) % n
}

/// The first shard with an item, going round from `start`, is `k` places on.
pub open spec fn first_hit<T, W>(ms: Seq<ChannelModel<T, W>>, start: int, k: int) -> bool {
    &&& 0 <= k < ms.len()
    &&& ms[around(start, k, ms.len() as int)].can_pop()
    &&& forall|j: int| 0 <= j < k ==> !ms[#[trigger] around(start, j, ms.len() as int)].can_pop()
}

/// No shard has an item.
pub open spec fn no_hit<T, W>(ms: Seq<ChannelModel<T, W>>) -> bool {
    forall|i: int| 0 <= i < ms.len() ==> !(#[trigger] ms[i]).can_pop()
}

/// Every shard is closed and read to the end.
pub open spec fn all_drained<T, W>(ms: Seq<ChannelModel<T, W>>) -> bool {
    forall|i: int| 0 <= i < ms.len() ==> (#[trigger] ms[i]).drained()
}

/// Where a step round the circle leads.
fn step_round(start: usize, k: usize, n: usize) -> (i: usize)
    requires
        start < n,
        k <= n,
    ensures
        i == around(start as int, k as int, n as int),
        i < n,
        i == start + k || i == start + k - n,
{
    proof {
        if start + k < n {
            lemma_small_mod((start + k) as nat, n as nat);
        } else {
            lemma_mod_add_multiples_vanish(start + k - n, n as int);
            if start + k - n < n {
                lemma_small_mod((start + k - n) as nat, n as nat);
            }
        }
    }
    if k >= n - start {
        k - (n - start)
    } else {
        start + k
    }
}

/// Every shard is some number of places on.
proof fn lemma_around_covers(start: int, i: int, n: int)
    requires
        0 <= start < n,
        0 <= i < n,
    ensures
        exists|k: int| 0 <= k < n && i == #[trigger] around(start, k, n),
{
    let k = if i >= start { i - start } else { i - start + n };
    if i >= start {
        lemma_small_mod(i as nat, n as nat);
    } else {
        lemma_mod_add_multiples_vanish(i, n);
        lemma_small_mod(i as nat, n as nat);
    }
    assert(i == around(start, k, n));
}

/// Different numbers of places lead to different shards.
proof fn lemma_around_distinct(start: int, j: int, k: int, n: int)
    requires
        0 <= start < n,
        0 <= j < k < n,
    ensures
        around(start, j, n) != around(start, k, n),
        0 <= around(start, j, n) < n,
        0 <= around(start, k, n) < n,
{
    lemma_mod_bound(start + j, n);
    lemma_mod_bound(start + k, n);
    if start + j < n {
        lemma_small_mod((start + j) as nat, n as nat);
    } else {
        lemma_mod_add_multiples_vanish(start + j - n, n);
        lemma_small_mod((start + j - n) as nat, n as nat);
    }
    if start + k < n {
        lemma_small_mod((start + k) as nat, n as nat);
    } else {
        lemma_mod_add_multiples_vanish(start + k - n, n);
        lemma_small_mod((start + k - n) as nat, n as nat);
    }
}

/// What a receive from any shard does.
pub open spec fn received_any<T, W>(
    ms: Seq<ChannelModel<T, W>>,
    cursor: int,
    ms2: Seq<ChannelModel<T, W>>,
    cursor2: int,
    r: Result<Option<(usize, T)>, ShardRecvAnyError>,
) -> bool {
    match r {
        Ok(Some((i, v))) => {
            &&& exists|k: int| #[trigger]
                first_hit(ms, cursor, k) && i == around(cursor, k, ms.len() as int)
            &&& i < ms.len()
            &&& ms[i as int].can_pop()
            &&& v == ms[i as int].pending[0]->Some_0
            &&& ms2 == ms.update(i as int, ms[i as int].received())
            &&& cursor2 == around(i as int, 1, ms.len() as int)
        },
        Ok(None) => no_hit(ms) && !all_drained(ms) && ms2 == ms && cursor2 == cursor,
        Err(e) => {
            &&& all_drained(ms)
            &&& e.disconnected_shards == ms.len()
            &&& ms2 == ms
            &&& cursor2 == cursor
        },
    }
}

/// What a receive of a batch from every shard takes from shard `s`.
pub open spec fn taken_of<T, W>(m: ChannelModel<T, W>, max: int) -> Seq<T> {
    values(m.pending.subrange(0, m.available(max)))
}

impl<T, const CAP: usize, W> ShardReceiver<T, CAP, W> {
    /// How many shards there are.
    pub closed spec fn count(&self) -> int {
        self.receivers@.len() as int
    }

    /// The shard that is looked at first.
    pub closed spec fn cursor(&self) -> int {
        self.cursor as int
    }

    pub closed spec fn wf(&self) -> bool {
        &&& self.cursor < self.receivers@.len()
        &&& is_pow2(self.receivers@.len() as int)
        &&& forall|s: int|
            0 <= s < self.receivers@.len() ==> (#[trigger] self.receivers@[s]).shard() == s
    }

    pub proof fn lemma_wf(&self)
        requires
            self.wf(),
        ensures
            0 <= self.cursor() < self.count(),
            is_pow2(self.count()),
    {
    }

    /// The first receiver of each of `n` shards.
    pub fn new(n: usize) -> (r: Self)
        requires
            n > 0,
            is_pow2(n as int),
        ensures
            r.wf(),
            r.count() == n,
            r.cursor() == 0,
    {
        let mut receivers: Vec<Receiver<SeqInner<T, CAP, W>>> = Vec::with_capacity(n);
        let mut i: usize = 0;
        while i < n
            invariant
                i <= n,
                receivers@.len() == i,
                forall|s: int| 0 <= s < i ==> (#[trigger] receivers@[s]).shard() == s,
            decreases n - i,
        {
            receivers.push(Receiver::of_shard(i));
            i = i + 1;
        }
        ShardReceiver { receivers, cursor: 0 }
    }

    pub fn shards(&self) -> (n: usize)
        requires
            self.wf(),
        ensures
            n == self.count(),
    {
        self.receivers.len()
    }

    /// The shard that senders by key pick for `key`.
    pub fn shard_for(&self, key: &str) -> (s: usize)
        requires
            self.wf(),
        ensures
            s == shard_of(key@, self.count()),
            s < self.count(),
    {
        hash_shard(hash_key(key), self.receivers.len())
    }

    /// The shard exists.
    pub fn has_shard(&self, shard: usize) -> (b: bool)
        ensures
            b == (shard < self.count()),
    {
        shard < self.receivers.len()
    }

    /// The receiver of a shard.
    pub fn receiver(&self, shard: usize) -> (r: &Receiver<SeqInner<T, CAP, W>>)
        requires
            self.wf(),
            shard < self.count(),
        ensures
            r.shard() == shard,
    {
        &self.receivers[shard]
    }

    /// The receiver of a shard, or `None` if there is no such shard.
    pub fn get_receiver(&self, shard: usize) -> (r: Option<&Receiver<SeqInner<T, CAP, W>>>)
        requires
            self.wf(),
        ensures
            r is Some <==> shard < self.count(),
            r is Some ==> r->Some_0.shard() == shard,
    {
        if shard < self.receivers.len() {
            Some(&self.receivers[shard])
        } else {
            None
        }
    }

    /// The receivers of all shards, by shard.
    pub fn into_receivers(self) -> (r: Vec<Receiver<SeqInner<T, CAP, W>>>)
        requires
            self.wf(),
        ensures
            r@.len() == self.count(),
            forall|i: int| 0 <= i < r@.len() ==> (#[trigger] r@[i]).shard() == i,
    {
        self.receivers
    }

    /// Receives from shard `shard` without waiting.
    pub fn try_recv(&mut self, lanes: &mut Vec<SeqInner<T, CAP, W>>, shard: usize) -> (r: Result<
        T,
        ShardTryRecvError,
    >)
        requires
            old(self).wf(),
            lanes_wf(old(lanes)@, old(self).count()),
            shard < old(self).count(),
        ensures
            *final(self) == *old(self),
            lanes_wf(final(lanes)@, old(self).count()),
            ({
                let s = shard as int;
                let (m, a) = try_received(models(old(lanes)@)[s]);
                &&& models(final(lanes)@) == models(old(lanes)@).update(s, m)
                &&& match r {
                    Ok(v) => a == Ok::<T, TryRecvError>(v),
                    Err(e) => a == Err::<T, _>(e.err) && e.shard == shard,
                }
            }),
    {
        let ghost pre = lanes@;
        let r = try_recv(&mut lanes[shard]);
        assert(models(lanes@) =~= models(pre).update(shard as int, lanes@[shard as int].model()));
        match r {
            Ok(v) => Ok(v),
            Err(err) => Err(ShardTryRecvError { shard, err }),
        }
    }

    /// A receive from `shard` that waits for an item.
    pub fn recv(&self, shard: usize) -> (op: ShardRecvOp)
        requires
            self.wf(),
            shard < self.count(),
        ensures
            op.shard() == shard,
            op.op().phase() is Attempt,
            !op.op().timed(),
            op.op().spins(),
    {
        ShardRecvOp::new(shard, false)
    }

    /// A receive from `shard` for a task to await.
    pub fn recv_async(&self, shard: usize) -> (f: ShardRecvFuture)
        requires
            self.wf(),
            shard < self.count(),
        ensures
            f.shard() == shard,
            f.recv().slot() is None,
    {
        ShardRecvFuture::new(shard)
    }

    /// A receive of up to `max` items from `shard` that waits for the first.
    pub fn recv_batch(&self, shard: usize, max: usize) -> (op: ShardRecvBatchOp)
        requires
            self.wf(),
            shard < self.count(),
        ensures
            op.shard() == shard,
            op.op().max() == max,
            op.op().first().phase() is Attempt,
            !op.op().first().timed(),
            op.op().first().spins(),
    {
        ShardRecvBatchOp::new(shard, max)
    }

    /// A receive of up to `max` items from `shard` for a task to await.
    pub fn recv_batch_async(&self, shard: usize, max: usize) -> (f: ShardRecvBatchFuture)
        requires
            self.wf(),
            shard < self.count(),
        ensures
            f.shard() == shard,
            f.recv().max() == max,
            f.recv().first().slot() is None,
    {
        ShardRecvBatchFuture::new(shard, max)
    }

    /// A receive from any shard for a task to await.
    pub fn recv_any(&self) -> (f: RecvAnyFuture)
        requires
            self.wf(),
        ensures
            f.slots().len() == self.count(),
            forall|s: int| 0 <= s < self.count() ==> (#[trigger] f.slots()[s]) is None,
    {
        RecvAnyFuture::new(self.receivers.len())
    }

    /// Receives from the first shard that has an item, going round from the one after the
    /// last hit. `Ok(None)` if none has one right now, an error if none ever will.
    pub fn try_recv_any(&mut self, lanes: &mut Vec<SeqInner<T, CAP, W>>) -> (r: Result<
        Option<(usize, T)>,
        ShardRecvAnyError,
    >)
        requires
            old(self).wf(),
            lanes_wf(old(lanes)@, old(self).count()),
        ensures
            final(self).wf(),
            final(self).count() == old(self).count(),
            lanes_wf(final(lanes)@, old(self).count()),
            received_any(
                models(old(lanes)@),
                old(self).cursor(),
                models(final(lanes)@),
                final(self).cursor(),
                r,
            ),
    {
        let ghost pre = lanes@;
        let ghost ms = models(lanes@);
        let n: usize = self.receivers.len();
        let start: usize = self.cursor;
        let mut disconnected: usize = 0;
        let mut i: usize = 0;
        while i < n
            invariant
                self.wf(),
                *self == *old(self),
                n == self.count(),
                start == self.cursor(),
                start < n,
                i <= n,
                lanes_wf(lanes@, n as int),
                ms == models(old(lanes)@),
                models(lanes@) == ms,
                ms.len() == n,
                disconnected <= i,
                forall|j: int|
                    0 <= j < i ==> !ms[#[trigger] around(start as int, j, n as int)].can_pop(),
                disconnected == i ==> forall|j: int|
                    0 <= j < i ==> ms[#[trigger] around(start as int, j, n as int)].drained(),
                disconnected < i ==> !all_drained(ms),
            decreases n - i,
        {
            let idx: usize = step_round(start, i, n);
            let ghost mid = lanes@;
            let r = try_recv(&mut lanes[idx]);
            assert(models(lanes@) =~= ms.update(idx as int, lanes@[idx as int].model()));
            match r {
                Ok(v) => {
                    self.cursor = step_round(idx, 1, n);
                    assert(first_hit(ms, start as int, i as int));
                    return Ok(Some((idx, v)));
                },
                Err(TryRecvError::Disconnected) => {
                    assert(models(lanes@) =~= ms);
                    disconnected = disconnected + 1;
                },
                Err(TryRecvError::Empty) => {
                    assert(models(lanes@) =~= ms);
                    assert(!ms[idx as int].drained());
                },
            }
            i = i + 1;
        }
        proof {
            assert forall|s: int| 0 <= s < n implies !(#[trigger] ms[s]).can_pop() by {
                lemma_around_covers(start as int, s, n as int);
            }
            if disconnected == n {
                assert forall|s: int| 0 <= s < n implies (#[trigger] ms[s]).drained() by {
                    lemma_around_covers(start as int, s, n as int);
                }
            }
        }
        if disconnected == n {
            Err(ShardRecvAnyError { disconnected_shards: n, err: AsyncRecvError::Disconnected })
        } else {
            Ok(None)
        }
    }

    /// Receives up to `max_per_shard` items from every shard without waiting, going round
    /// from the cursor. The flag says that there were none and none will come.
    pub fn try_recv_batch_any(
        &mut self,
        lanes: &mut Vec<SeqInner<T, CAP, W>>,
        buf: &mut Vec<T>,
        max_per_shard: usize,
    ) -> (r: (usize, bool))
        requires
            old(self).wf(),
            lanes_wf(old(lanes)@, old(self).count()),
        ensures
            final(self).wf(),
            final(self).count() == old(self).count(),
            lanes_wf(final(lanes)@, old(self).count()),
            ({
                let n = old(self).count();
                let start = old(self).cursor();
                let ms = models(old(lanes)@);
                let outs = Seq::new(
                    n as nat,
                    |k: int| taken_of(ms[around(start, k, n)], max_per_shard as int),
                );
                &&& final(buf)@ == old(buf)@ + joined(outs)
                &&& models(final(lanes)@) == Seq::new(
                    n as nat,
                    |s: int|
                        {
                            let a = ms[s].available(max_per_shard as int);
                            ms[s].popped_n(a).senders_notified(a as nat)
                        },
                )
                &&& r.0 == joined(outs).len()
                &&& r.1 == (joined(outs).len() == 0 && all_drained(ms))
                &&& final(self).cursor() == if r.0 > 0 {
                    around(start, 1, n)
                } else {
                    start
                }
            }),
            final(buf)@.len() == old(buf)@.len() + r.0,
            r.0 > 0 ==> final(self).cursor() == if old(self).cursor() + 1 == old(self).count() {
                0
            } else {
                old(self).cursor() + 1
            },
            forall|s: int|
                0 <= s < old(self).count() ==> (#[trigger] models(final(lanes)@)[s]).pending
                    == models(old(lanes)@)[s].pending.subrange(
                    taken_of(models(old(lanes)@)[s], max_per_shard as int).len() as int,
                    models(old(lanes)@)[s].pending.len() as int,
                ),
    {
        let ghost pre = lanes@;
        let ghost ms = models(lanes@);
        let ghost b0 = buf@;
        let ghost max = max_per_shard as int;
        let n: usize = self.receivers.len();
        let start: usize = self.cursor;
        let ghost outs = Seq::new(
            n as nat,
            |k: int| taken_of(ms[around(start as int, k, n as int)], max),
        );
        let ghost goal = Seq::new(
            n as nat,
            |s: int|
                {
                    let a = ms[s].available(max);
                    ms[s].popped_n(a).senders_notified(a as nat)
                },
        );
        let before: usize = buf.len();
        let mut disconnected: usize = 0;
        let mut i: usize = 0;
        proof {
            assert(outs.subrange(0, 0) =~= Seq::empty());
            assert(b0 =~= b0 + joined(outs.subrange(0, 0)));
        }
        while i < n
            invariant
                *self == *old(self),
                self.wf(),
                n == self.count(),
                start == self.cursor(),
                start < n,
                i <= n,
                ms.len() == n,
                outs.len() == n,
                goal.len() == n,
                max == max_per_shard,
                outs == Seq::new(
                    n as nat,
                    |k: int| taken_of(ms[around(start as int, k, n as int)], max),
                ),
                goal == Seq::new(
                    n as nat,
                    |s: int|
                        {
                            let a = ms[s].available(max);
                            ms[s].popped_n(a).senders_notified(a as nat)
                        },
                ),
                lanes_wf(lanes@, n as int),
                forall|k: int|
                    0 <= k < i ==> models(lanes@)[#[trigger] around(start as int, k, n as int)]
                        == goal[around(start as int, k, n as int)],
                forall|k: int|
                    i <= k < n ==> models(lanes@)[#[trigger] around(start as int, k, n as int)]
                        == ms[around(start as int, k, n as int)],
                buf@ == b0 + joined(outs.subrange(0, i as int)),
                disconnected <= i,
                disconnected == i ==> forall|k: int|
                    0 <= k < i ==> ms[#[trigger] around(start as int, k, n as int)].drained(),
                disconnected < i ==> joined(outs.subrange(0, i as int)).len() > 0 || !all_drained(
                    ms,
                ),
            decreases n - i,
        {
            let idx: usize = step_round(start, i, n);
            let ghost mid = lanes@;
            let ghost m = ms[idx as int];
            proof {
                let p = outs.subrange(0, i + 1);
                assert(p.drop_last() =~= outs.subrange(0, i as int));
                assert(p.last() == taken_of(m, max));
                lemma_ready(m.pending);
                assert(models(lanes@)[around(start as int, i as int, n as int)] == m);
                assert(lanes@[idx as int].model() == m);
            }
            let (count, dc) = try_recv_batch(&mut lanes[idx], buf, max_per_shard);
            proof {
                assert(buf@ =~= b0 + joined(outs.subrange(0, i + 1)));
                assert(taken_of(m, max).len() == count);
                assert(models(lanes@) =~= models(mid).update(
                    idx as int,
                    lanes@[idx as int].model(),
                ));
                assert forall|k: int| 0 <= k < i + 1 implies models(lanes@)[#[trigger] around(
                    start as int,
                    k,
                    n as int,
                )] == goal[around(start as int, k, n as int)] by {
                    if k < i {
                        lemma_around_distinct(start as int, k, i as int, n as int);
                    }
                }
                assert forall|k: int| i + 1 <= k < n implies models(lanes@)[#[trigger] around(
                    start as int,
                    k,
                    n as int,
                )] == ms[around(start as int, k, n as int)] by {
                    lemma_around_distinct(start as int, i as int, k, n as int);
                }
            }
            if dc {
                disconnected = disconnected + 1;
            } else {
                proof {
                    if count == 0 {
                        assert(!m.drained());
                        assert(!ms[idx as int].drained());
                    }
                }
            }
            i = i + 1;
        }
        proof {
            assert(outs.subrange(0, n as int) =~= outs);
            assert forall|s: int| 0 <= s < n implies models(lanes@)[s] == goal[s] by {
                lemma_around_covers(start as int, s, n as int);
            }
            assert(models(lanes@) =~= goal);
            if disconnected == n {
                assert forall|s: int| 0 <= s < n implies (#[trigger] ms[s]).drained() by {
                    lemma_around_covers(start as int, s, n as int);
                }
            }
            assert forall|s: int| 0 <= s < n implies (#[trigger] models(lanes@)[s]).pending
                == ms[s].pending.subrange(
                taken_of(ms[s], max).len() as int,
                ms[s].pending.len() as int,
            ) by {
                lemma_ready(ms[s].pending);
                assert(models(lanes@)[s] == goal[s]);
            }
        }
        let total: usize = buf.len() - before;
        if total > 0 {
            self.cursor = step_round(start, 1, n);
        }
        (total, total == 0 && disconnected == n)
    }

    /// Gives the right up on every shard.
    pub fn close(self, lanes: &mut Vec<SeqInner<T, CAP, W>>)
        requires
            self.wf(),
            lanes_wf(old(lanes)@, self.count()),
        ensures
            lanes_wf(final(lanes)@, self.count()),
            models(final(lanes)@) == models(old(lanes)@).map_values(
                |m: ChannelModel<T, W>| m.receiver_gone(true),
            ),
    {
        super::lanes::drop_receivers(lanes);
    }
}

/// No shard starves: a receive from any shard looks first at the shard after the last hit,
/// so that shards which all have items are received from in turn.
pub proof fn law_busy_shards_take_turns<T, W>(
    ms: Seq<ChannelModel<T, W>>,
    cursor: int,
    ms2: Seq<ChannelModel<T, W>>,
    cursor2: int,
    r: Result<Option<(usize, T)>, ShardRecvAnyError>,
)
    requires
        0 <= cursor < ms.len(),
        forall|s: int| 0 <= s < ms.len() ==> (#[trigger] ms[s]).can_pop(),
        received_any(ms, cursor, ms2, cursor2, r),
    ensures
        r is Ok,
        r->Ok_0 is Some,
        r->Ok_0->Some_0.0 == cursor,
        cursor2 == around(cursor, 1, ms.len() as int),
{
    let n = ms.len() as int;
    lemma_small_mod(cursor as nat, n as nat);
    assert(ms[cursor].can_pop());
    assert(around(cursor, 0, n) == cursor);
    match r {
        Ok(Some((i, v))) => {
            let k = choose|k: int| #[trigger]
                first_hit(ms, cursor, k) && i == around(cursor, k, n);
            if k > 0 {
                assert(!ms[around(cursor, 0, n)].can_pop());
            }
        },
        _ => {},
    }
}

} // verus!
