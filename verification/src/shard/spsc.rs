use super::errors::{ShardTryBatchSendError, ShardTryRecvError, ShardTrySendError};
use super::mpmc::hash::cpu_count;
use super::recv::{ShardRecvFuture, ShardRecvOp};
use crate::internal_channel::errors::TryRecvError;
use crate::internal_channel::handles::{Sender, SingleReceiver, SingleSender};
use crate::internal_channel::inner::SingleInner;
use crate::internal_channel::model::ChannelModel;
use crate::internal_channel::receiver::try_received;
use crate::internal_channel::recv_batch::{RecvBatchFuture, RecvBatchOp};
use crate::internal_channel::sender::{
    batch_began, try_sent, BatchStart, GenericSendFuture, SendBatchOp, SendOp,
};
use crate::internal_channel::traits::InnerChannel;
use crate::pow2::is_pow2;
use vstd::prelude::*;

verus! {

/// One shard: its sender, its receiver and its state.
pub struct SpscPair<T, const CAP: usize, W> {
    pub tx: SingleSender<T, CAP, W>,
    pub rx: SingleReceiver<T, CAP, W>,
    pub inner: SingleInner<T, CAP, W>,
}

impl<T, const CAP: usize, W> SpscPair<T, CAP, W> {
    /// The shard is new.
    pub open spec fn fresh(&self) -> bool {
        self.inner.wf() && self.inner.model() == ChannelModel::<T, W>::initial()
    }
}

/// Independent channels with one sender and one receiver each, to be handed out.
pub struct SpscShard<T, const CAP: usize, W> {
    pairs: Vec<Option<SpscPair<T, CAP, W>>>,
}

/// The shards that have not been handed out, in order.
pub open spec fn left_ids(there: Seq<bool>) -> Seq<usize>
    decreases there.len(),
{
    if there.len() == 0 {
        Seq::empty()
    } else if there.last() {
        left_ids(there.drop_last()).push((there.len() - 1) as usize)
    } else {
        left_ids(there.drop_last())
    }
}

impl<T, const CAP: usize, W> SpscShard<T, CAP, W> {
    /// Which shards have not been handed out.
    pub closed spec fn there(&self) -> Seq<bool> {
        self.pairs@.map_values(|p: Option<SpscPair<T, CAP, W>>| p is Some)
    }

    /// What has not been handed out is new.
    pub closed spec fn wf(&self) -> bool {
        forall|i: int|
            0 <= i < self.pairs@.len() && (#[trigger] self.pairs@[i]) is Some
                ==> self.pairs@[i]->Some_0.fresh()
    }

    /// `num_shards` independent channels; their number need not be a power of two.
    pub fn new(num_shards: usize) -> (s: Self)
        requires
            num_shards > 0,
            is_pow2(CAP as int),
        ensures
            s.wf(),
            s.there() == Seq::new(num_shards as nat, |i: int| true),
    {
        let mut pairs: Vec<Option<SpscPair<T, CAP, W>>> = Vec::with_capacity(num_shards);
        let mut i: usize = 0;
        while i < num_shards
            invariant
                is_pow2(CAP as int),
                i <= num_shards,
                pairs@.len() == i,
                forall|k: int|
                    0 <= k < i ==> (#[trigger] pairs@[k]) is Some && pairs@[k]->Some_0.fresh(),
            decreases num_shards - i,
        {
            pairs.push(
                Some(
                    SpscPair {
                        tx: Sender::new(),
                        rx: SingleReceiver::new(),
                        inner: SingleInner::new(),
                    },
                ),
            );
            i = i + 1;
        }
        let s = SpscShard { pairs };
        assert(s.there() =~= Seq::new(num_shards as nat, |i: int| true));
        s
    }

    pub fn shards(&self) -> (n: usize)
        ensures
            n == self.there().len(),
    {
        self.pairs.len()
    }

    /// Hands out a shard; `None` if it has been handed out before or does not exist.
    pub fn take_pair(&mut self, shard: usize) -> (r: Option<SpscPair<T, CAP, W>>)
        requires
            old(self).wf(),
        ensures
            final(self).wf(),
            r is Some <==> shard < old(self).there().len() && old(self).there()[shard as int],
            r is Some ==> r->Some_0.fresh(),
            final(self).there() == if r is Some {
                old(self).there().update(shard as int, false)
            } else {
                old(self).there()
            },
    {
        let ghost pre = self.pairs@;
        if shard >= self.pairs.len() {
            return None;
        }
        let r = self.pairs[shard].take();
        proof {
            if r is Some {
                assert(self.there() =~= old(self).there().update(shard as int, false));
            } else {
                assert(self.there() =~= old(self).there());
            }
        }
        r
    }

    /// Every shard has been handed out.
    pub fn is_empty(&self) -> (b: bool)
        ensures
            b == (forall|i: int| 0 <= i < self.there().len() ==> !#[trigger] self.there()[i]),
    {
        let mut i: usize = 0;
        while i < self.pairs.len()
            invariant
                i <= self.pairs@.len(),
                forall|k: int| 0 <= k < i ==> !#[trigger] self.there()[k],
            decreases self.pairs@.len() - i,
        {
            if self.pairs[i].is_some() {
                assert(self.there()[i as int]);
                return false;
            }
            i = i + 1;
        }
        true
    }

    /// The shards that have not been handed out, in order.
    pub fn remaining(&self) -> (r: Vec<usize>)
        ensures
            r@ == left_ids(self.there()),
    {
        let ghost th = self.there();
        let mut r: Vec<usize> = Vec::new();
        let mut i: usize = 0;
        assert(th.subrange(0, 0) =~= Seq::empty());
        while i < self.pairs.len()
            invariant
                i <= self.pairs@.len(),
                th == self.there(),
                r@ == left_ids(th.subrange(0, i as int)),
            decreases self.pairs@.len() - i,
        {
            proof {
                let p = th.subrange(0, i + 1);
                assert(p.drop_last() =~= th.subrange(0, i as int));
                assert(p.last() == th[i as int]);
            }
            if self.pairs[i].is_some() {
                r.push(i);
            }
            i = i + 1;
        }
        assert(th.subrange(0, i as int) =~= th);
        r
    }

    /// All shards that have not been handed out, with their numbers, in order.
    pub fn into_pairs(self) -> (r: Vec<(usize, SpscPair<T, CAP, W>)>)
        requires
            self.wf(),
        ensures
            r@.map_values(|p: (usize, SpscPair<T, CAP, W>)| p.0) == left_ids(self.there()),
            forall|i: int| 0 <= i < r@.len() ==> (#[trigger] r@[i]).1.fresh(),
    {
        let ghost th = self.there();
        let mut this = self;
        let n: usize = this.pairs.len();
        let mut r: Vec<(usize, SpscPair<T, CAP, W>)> = Vec::new();
        let mut i: usize = 0;
        proof {
            assert(th.subrange(0, 0) =~= Seq::empty());
            assert(r@.map_values(|p: (usize, SpscPair<T, CAP, W>)| p.0) =~= Seq::empty());
        }
        while i < n
            invariant
                i <= n,
                n == th.len(),
                this.wf(),
                this.there().len() == n,
                forall|k: int| i <= k < n ==> #[trigger] this.there()[k] == th[k],
                r@.map_values(|p: (usize, SpscPair<T, CAP, W>)| p.0) == left_ids(
                    th.subrange(0, i as int),
                ),
                forall|k: int| 0 <= k < r@.len() ==> (#[trigger] r@[k]).1.fresh(),
            decreases n - i,
        {
            proof {
                let p = th.subrange(0, i + 1);
                assert(p.drop_last() =~= th.subrange(0, i as int));
                assert(p.last() == th[i as int]);
                assert(this.there()[i as int] == th[i as int]);
            }
            let ghost before = r@;
            match this.take_pair(i) {
                Some(p) => {
                    r.push((i, p));
                    assert(r@.map_values(|p: (usize, SpscPair<T, CAP, W>)| p.0)
                        =~= before.map_values(|p: (usize, SpscPair<T, CAP, W>)| p.0).push(i));
                },
                None => {},
            }
            i = i + 1;
        }
        assert(th.subrange(0, n as int) =~= th);
        r
    }

    /// Like [`SpscShard::into_pairs`], with handles that know their shard.
    pub fn into_wrapped_pairs(self) -> (r: Vec<
        (SpscSender<T, CAP, W>, SpscReceiver<T, CAP, W>, SingleInner<T, CAP, W>),
    >)
        requires
            self.wf(),
        ensures
            r@.len() == left_ids(self.there()).len(),
            forall|i: int|
                0 <= i < r@.len() ==> {
                    &&& (#[trigger] r@[i]).0.shard_id() == left_ids(self.there())[i]
                    &&& r@[i].1.shard_id() == left_ids(self.there())[i]
                    &&& r@[i].2.wf()
                    &&& r@[i].2.model() == ChannelModel::<T, W>::initial()
                },
    {
        let ghost ids = left_ids(self.there());
        let mut pairs = self.into_pairs();
        let ghost all = pairs@;
        assert forall|i: int| 0 <= i < all.len() implies (#[trigger] all[i]).0 == ids[i] by {
            assert(all.map_values(|p: (usize, SpscPair<T, CAP, W>)| p.0)[i] == ids[i]);
        }
        let mut stack: Vec<(usize, SpscPair<T, CAP, W>)> = Vec::with_capacity(pairs.len());
        while pairs.len() > 0
            invariant
                pairs@.len() + stack@.len() == all.len(),
                pairs@ == all.subrange(0, pairs@.len() as int),
                forall|i: int|
                    0 <= i < stack@.len() ==> #[trigger] stack@[i] == all[all.len() - 1 - i],
            decreases pairs@.len(),
        {
            match pairs.pop() {
                Some(p) => {
                    assert(pairs@ =~= all.subrange(0, pairs@.len() as int));
                    stack.push(p);
                },
                None => {},
            }
        }
        let mut r: Vec<
            (SpscSender<T, CAP, W>, SpscReceiver<T, CAP, W>, SingleInner<T, CAP, W>),
        > = Vec::with_capacity(stack.len());
        while stack.len() > 0
            invariant
                stack@.len() + r@.len() == all.len(),
                all.len() == ids.len(),
                forall|i: int| 0 <= i < all.len() ==> (#[trigger] all[i]).0 == ids[i],
                forall|i: int| 0 <= i < all.len() ==> (#[trigger] all[i]).1.fresh(),
                forall|i: int|
                    0 <= i < stack@.len() ==> #[trigger] stack@[i] == all[all.len() - 1 - i],
                forall|i: int|
                    0 <= i < r@.len() ==> {
                        &&& (#[trigger] r@[i]).0.shard_id() == ids[i]
                        &&& r@[i].1.shard_id() == ids[i]
                        &&& r@[i].2.wf()
                        &&& r@[i].2.model() == ChannelModel::<T, W>::initial()
                    },
            decreases stack@.len(),
        {
            match stack.pop() {
                Some((shard_id, p)) => {
                    assert(all[r@.len() as int].1.fresh());
                    r.push(
                        (
                            SpscSender { shard_id, inner: p.tx },
                            SpscReceiver { shard_id, inner: p.rx },
                            p.inner,
                        ),
                    );
                },
                None => {},
            }
        }
        r
    }
}

/// The sender of a shard, which knows its number.
pub struct SpscSender<T, const CAP: usize, W> {
    shard_id: usize,
    inner: SingleSender<T, CAP, W>,
}

impl<T, const CAP: usize, W> SpscSender<T, CAP, W> {
    pub closed spec fn shard_id(&self) -> usize {
        self.shard_id
    }

    /// Gives a sender the number of its shard.
    pub fn new(shard_id: usize, inner: SingleSender<T, CAP, W>) -> (s: Self)
        ensures
            s.shard_id() == shard_id,
    {
        SpscSender { shard_id, inner }
    }

    /// The number of the shard.
    pub fn id(&self) -> (n: usize)
        ensures
            n == self.shard_id(),
    {
        self.shard_id
    }

    /// Sends `v` without waiting.
    pub fn try_send(&self, inner: &mut SingleInner<T, CAP, W>, v: T) -> (r: Result<
        (),
        ShardTrySendError<T>,
    >)
        requires
            old(inner).wf(),
        ensures
            final(inner).wf(),
            ({
                let (m, a) = try_sent(old(inner).model(), CAP as int, v);
                &&& final(inner).model() == m
                &&& match r {
                    Ok(()) => a is Ok,
                    Err(e) => a == Err::<(), _>(e.err) && e.shard == self.shard_id(),
                }
            }),
    {
        match self.inner.try_send(inner, v) {
            Ok(()) => Ok(()),
            Err(err) => Err(ShardTrySendError { shard: self.shard_id, err }),
        }
    }

    /// A send that waits for room.
    pub fn send(&self, v: T) -> (op: SendOp<T>)
        ensures
            op.value() == Some(v),
            op.phase() is Begin,
            !op.timed(),
    {
        SendOp::new(v)
    }

    /// A send for a task to await.
    pub fn send_async(&self, v: T) -> (f: GenericSendFuture<T>)
        ensures
            f.value() == Some(v),
            f.slot() is None,
    {
        GenericSendFuture::new(v)
    }

    /// Sets out to send a batch with waiting.
    pub fn send_batch(&self, inner: &mut SingleInner<T, CAP, W>, buf: &mut Vec<T>) -> (r: BatchStart<
        T,
    >)
        requires
            old(inner).wf(),
        ensures
            final(inner).wf(),
            batch_began(
                old(inner).model(),
                CAP as int,
                old(buf)@,
                false,
                final(inner).model(),
                final(buf)@,
                r,
            ),
    {
        SendBatchOp::begin(inner, buf, false)
    }

    /// Sends a batch without waiting; what did not fit stays in `buf`.
    pub fn try_send_batch(&self, inner: &mut SingleInner<T, CAP, W>, buf: &mut Vec<T>) -> (r:
        Result<usize, ShardTryBatchSendError>)
        requires
            old(inner).wf(),
        ensures
            final(inner).wf(),
            ({
                let m = old(inner).model();
                let n = m.room(CAP as int, old(buf)@.len() as int);
                &&& final(inner).model() == m.pushed_all(
                    old(buf)@.subrange(0, n),
                ).receivers_notified(n as nat)
                &&& final(buf)@ == old(buf)@.subrange(n, old(buf)@.len() as int)
                &&& match r {
                    Ok(k) => k == n && n == old(buf)@.len() && !m.rx_closed,
                    Err(e) => {
                        &&& e.shard == self.shard_id()
                        &&& e.sent == n
                        &&& e.reason == super::mpmc::batch::short_reason(m)
                        &&& m.rx_closed || n < old(buf)@.len()
                    },
                }
            }),
            r is Ok ==> final(buf)@.len() == 0,
            r is Err && r->Err_0.reason is Full ==> final(buf)@.len() > 0 && final(inner).model().pending.len() >= CAP,
    {
        match self.inner.try_send_batch(inner, buf) {
            Ok(n) => Ok(n),
            Err(e) => Err(
                ShardTryBatchSendError { shard: self.shard_id, sent: e.sent, reason: e.err },
            ),
        }
    }
}

/// The receiver of a shard, which knows its number.
pub struct SpscReceiver<T, const CAP: usize, W> {
    shard_id: usize,
    inner: SingleReceiver<T, CAP, W>,
}

impl<T, const CAP: usize, W> SpscReceiver<T, CAP, W> {
    pub closed spec fn shard_id(&self) -> usize {
        self.shard_id
    }

    /// Gives a receiver the number of its shard.
    pub fn new(shard_id: usize, inner: SingleReceiver<T, CAP, W>) -> (s: Self)
        ensures
            s.shard_id() == shard_id,
    {
        SpscReceiver { shard_id, inner }
    }

    /// The number of the shard.
    pub fn id(&self) -> (n: usize)
        ensures
            n == self.shard_id(),
    {
        self.shard_id
    }

    /// Receives without waiting.
    pub fn try_recv(&mut self, inner: &mut SingleInner<T, CAP, W>) -> (r: Result<
        T,
        ShardTryRecvError,
    >)
        requires
            old(inner).wf(),
        ensures
            final(inner).wf(),
            final(self).shard_id() == old(self).shard_id(),
            ({
                let (m, a) = try_received(old(inner).model());
                &&& final(inner).model() == m
                &&& match r {
                    Ok(v) => a == Ok::<T, TryRecvError>(v),
                    Err(e) => a == Err::<T, _>(e.err) && e.shard == old(self).shard_id(),
                }
            }),
    {
        match self.inner.try_recv(inner) {
            Ok(v) => Ok(v),
            Err(err) => Err(ShardTryRecvError { shard: self.shard_id, err }),
        }
    }

    /// A receive that waits for an item.
    pub fn recv(&mut self) -> (op: ShardRecvOp)
        ensures
            op.shard() == old(self).shard_id(),
            op.op().phase() is Attempt,
            !op.op().timed(),
            op.op().spins(),
            final(self).shard_id() == old(self).shard_id(),
    {
        ShardRecvOp::new(self.shard_id, false)
    }

    /// A receive of up to `max` items that waits for the first.
    pub fn recv_batch(&mut self, max: usize) -> (op: RecvBatchOp)
        ensures
            op.max() == max,
            op.first().phase() is Attempt,
            !op.first().timed(),
            op.first().spins(),
            final(self).shard_id() == old(self).shard_id(),
    {
        RecvBatchOp::new(max, false)
    }

    /// A receive of up to `max` items for a task to await.
    pub fn recv_batch_async(&mut self, max: usize) -> (f: RecvBatchFuture)
        ensures
            f.max() == max,
            f.first().slot() is None,
            final(self).shard_id() == old(self).shard_id(),
    {
        RecvBatchFuture::new(max)
    }

    /// A receive for a task to await.
    pub fn recv_async(&mut self) -> (f: ShardRecvFuture)
        ensures
            f.shard() == old(self).shard_id(),
            f.recv().slot() is None,
            final(self).shard_id() == old(self).shard_id(),
    {
        ShardRecvFuture::new(self.shard_id)
    }
}

/// `num_shards` independent channels with one sender and one receiver each.
pub fn shard_spsc<T, const CAP: usize, W>(num_shards: usize) -> (s: SpscShard<T, CAP, W>)
    requires
        num_shards > 0,
        is_pow2(CAP as int),
    ensures
        s.wf(),
        s.there() == Seq::new(num_shards as nat, |i: int| true),
{
    SpscShard::new(num_shards)
}

/// As many independent channels as there are processors.
pub fn shard_spsc_auto<T, const CAP: usize, W>() -> (s: SpscShard<T, CAP, W>)
    requires
        is_pow2(CAP as int),
    ensures
        s.wf(),
        s.there().len() >= 1,
        s.there() == Seq::new(s.there().len(), |i: int| true),
{
    let s = shard_spsc(cpu_count());
    assert(s.there() =~= Seq::new(s.there().len(), |i: int| true));
    s
}

/// The shards that are left are exactly those that have not been handed out, in order.
pub proof fn law_every_shard_is_handed_out_once(there: Seq<bool>)
    requires
        there.len() <= usize::MAX,
    ensures
        forall|i: int|
            0 <= i < there.len() ==> (there[i] <==> #[trigger] left_ids(there).contains(
                i as usize,
            )),
        forall|a: int, b: int|
            0 <= a < b < left_ids(there).len() ==> left_ids(there)[a] < left_ids(there)[b],
        forall|a: int| 0 <= a < left_ids(there).len() ==> #[trigger] left_ids(there)[a] < there.len(),
    decreases there.len(),
{
    if there.len() > 0 {
        let t = there.drop_last();
        law_every_shard_is_handed_out_once(t);
        let l = left_ids(there);
        let lt = left_ids(t);
        let last = (there.len() - 1) as usize;
        assert forall|i: int| 0 <= i < there.len() implies (there[i] <==> #[trigger] l.contains(
            i as usize,
        )) by {
            if i < t.len() {
                assert(t[i] == there[i]);
                assert(t[i] <==> lt.contains(i as usize));
                if lt.contains(i as usize) {
                    let k = choose|k: int| 0 <= k < lt.len() && lt[k] == i as usize;
                    assert(l[k] == i as usize);
                }
                if l.contains(i as usize) {
                    let k = choose|k: int| 0 <= k < l.len() && l[k] == i as usize;
                    if k < lt.len() {
                        assert(lt[k] == i as usize);
                    }
                }
            } else {
                if there[i] {
                    assert(l[lt.len() as int] == i as usize);
                }
                if l.contains(i as usize) {
                    let k = choose|k: int| 0 <= k < l.len() && l[k] == i as usize;
                    if k < lt.len() {
                        assert(lt[k] < t.len());
                    }
                }
            }
        }
    }
}

} // verus!
