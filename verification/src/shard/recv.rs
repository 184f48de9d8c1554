use super::errors::{ShardAsyncRecvError, ShardRecvError};
use super::mpmc::lanes::{lanes_wf, models};
use crate::internal_channel::inner::SeqInner;
use crate::internal_channel::model::ChannelModel;
use crate::internal_channel::receiver::{
    poll_received, GenericRecvFuture, RecvEvent, RecvOp, RecvPoll, RecvStep,
};
use crate::internal_channel::recv_batch::{
    as_poll, RecvBatchFuture, RecvBatchOp, RecvBatchStep,
};
use crate::internal_channel::traits::InnerChannel;
use vstd::prelude::*;

verus! {

/// What a receive from a shard asks of its thread before the next step.
pub enum ShardRecvStep<T> {
    /// The receive is over.
    Done(Result<T, ShardRecvError>),
    /// The receive asks for this; it is never `Done`.
    Wait(RecvStep<T>),
}

/// The request of a receive as that of a receive from `shard`: an error names the shard.
pub open spec fn of_shard<T>(s: RecvStep<T>, shard: usize) -> ShardRecvStep<T> {
    match s {
        RecvStep::Done(Ok(v)) => ShardRecvStep::Done(Ok(v)),
        RecvStep::Done(Err(err)) => ShardRecvStep::Done(Err(ShardRecvError { shard, err })),
        s => ShardRecvStep::Wait(s),
    }
}

/// A receive from one shard that waits for an item, one step at a time.
pub struct ShardRecvOp {
    shard: usize,
    op: RecvOp,
}

impl ShardRecvOp {
    /// The shard to receive from.
    pub closed spec fn shard(&self) -> usize {
        self.shard
    }

    pub closed spec fn op(&self) -> RecvOp {
        self.op
    }

    /// A receive from `shard`, with a deadline if `timed`.
    pub fn new(shard: usize, timed: bool) -> (op: Self)
        ensures
            op.shard() == shard,
            op.op().phase() is Attempt,
            op.op().timed() == timed,
            op.op().spins(),
    {
        ShardRecvOp { shard, op: RecvOp::new(timed) }
    }

    /// What one step does: from the operation `pre` and the shard `m`, told `ev`, to this
    /// operation, the shard `m2` and the request `r`.
    pub open spec fn stepped<T, W>(
        &self,
        pre: &Self,
        m: ChannelModel<T, W>,
        ev: RecvEvent<W>,
        m2: ChannelModel<T, W>,
        r: ShardRecvStep<T>,
    ) -> bool {
        &&& self.shard() == pre.shard()
        &&& exists|s: RecvStep<T>| #[trigger]
            self.op().stepped(&pre.op(), m, ev, m2, s) && r == of_shard(s, pre.shard())
    }

    /// One step of the receive, on the channel of its shard.
    pub fn step<T, const CAP: usize, W, I: InnerChannel<T, CAP, W>>(
        &mut self,
        inner: &mut I,
        ev: RecvEvent<W>,
    ) -> (r: ShardRecvStep<T>)
        requires
            old(inner).wf(),
            old(self).op().fits(old(inner).model()),
            old(self).op().expects(ev),
        ensures
            final(inner).wf(),
            final(self).op().fits(final(inner).model()),
            final(self).stepped(old(self), old(inner).model(), ev, final(inner).model(), r),
    {
        let ghost m = inner.model();
        let s = self.op.step(inner, ev);
        assert(self.op().stepped(&old(self).op(), m, ev, inner.model(), s));
        match s {
            RecvStep::Done(Ok(v)) => ShardRecvStep::Done(Ok(v)),
            RecvStep::Done(Err(err)) => ShardRecvStep::Done(
                Err(ShardRecvError { shard: self.shard, err }),
            ),
            s => ShardRecvStep::Wait(s),
        }
    }

    /// One step of the receive, among the channels of all shards: only its own changes.
    pub fn step_in<T, const CAP: usize, W>(
        &mut self,
        lanes: &mut Vec<SeqInner<T, CAP, W>>,
        ev: RecvEvent<W>,
    ) -> (r: ShardRecvStep<T>)
        requires
            lanes_wf(old(lanes)@, old(lanes)@.len() as int),
            old(self).shard() < old(lanes)@.len(),
            old(self).op().fits(models(old(lanes)@)[old(self).shard() as int]),
            old(self).op().expects(ev),
        ensures
            lanes_wf(final(lanes)@, old(lanes)@.len() as int),
            ({
                let s = old(self).shard() as int;
                let ms = models(old(lanes)@);
                let ms2 = models(final(lanes)@);
                &&& ms2 == ms.update(s, ms2[s])
                &&& final(self).op().fits(ms2[s])
                &&& final(self).stepped(old(self), ms[s], ev, ms2[s], r)
            }),
    {
        let ghost pre = lanes@;
        let s: usize = self.shard;
        let r = self.step(&mut lanes[s], ev);
        assert(models(lanes@) =~= models(pre).update(s as int, lanes@[s as int].model()));
        r
    }
}

/// A receive from one shard that a task awaits.
pub struct ShardRecvFuture {
    shard: usize,
    recv: GenericRecvFuture,
}

/// The answer of a poll of a receive from `shard` as that of the receive itself; an error
/// names the shard.
pub open spec fn answers<T>(
    r: Option<Result<T, ShardAsyncRecvError>>,
    p: RecvPoll<T>,
    shard: usize,
) -> bool {
    match r {
        None => p is Pending,
        Some(Ok(v)) => p == RecvPoll::Ready(Ok(v)),
        Some(Err(e)) => p == RecvPoll::<T>::Ready(Err(e.err)) && e.shard == shard,
    }
}

impl ShardRecvFuture {
    /// The shard to receive from.
    pub closed spec fn shard(&self) -> usize {
        self.shard
    }

    pub closed spec fn recv(&self) -> GenericRecvFuture {
        self.recv
    }

    /// A receive from `shard`.
    pub fn new(shard: usize) -> (f: Self)
        ensures
            f.shard() == shard,
            f.recv().slot() is None,
    {
        ShardRecvFuture { shard, recv: GenericRecvFuture::new() }
    }

    /// What one poll does: from the receive `pre` and the shard `m` to this receive, the
    /// shard `m2` and the answer `r`.
    pub open spec fn polled<T, W>(
        &self,
        pre: &Self,
        m: ChannelModel<T, W>,
        waker: W,
        m2: ChannelModel<T, W>,
        r: Option<Result<T, ShardAsyncRecvError>>,
    ) -> bool {
        &&& self.shard() == pre.shard()
        &&& exists|p: RecvPoll<T>| #[trigger]
            poll_received(m, pre.recv().slot(), waker, m2, self.recv().slot(), p) && answers(
                r,
                p,
                pre.shard(),
            )
    }

    /// `None` while the receive is pending. On the channel of its shard.
    pub fn poll<T, const CAP: usize, W, I: InnerChannel<T, CAP, W>>(
        &mut self,
        inner: &mut I,
        waker: W,
    ) -> (r: Option<Result<T, ShardAsyncRecvError>>)
        requires
            old(inner).wf(),
            old(self).recv().fits(old(inner).model()),
        ensures
            final(inner).wf(),
            final(self).recv().fits(final(inner).model()),
            final(self).polled(old(self), old(inner).model(), waker, final(inner).model(), r),
    {
        let ghost m = inner.model();
        let a = self.recv.poll(inner, waker);
        let ghost p = as_poll(a);
        assert(poll_received(
            m,
            old(self).recv().slot(),
            waker,
            inner.model(),
            self.recv().slot(),
            p,
        ));
        let r = match a {
            None => None,
            Some(Ok(v)) => Some(Ok(v)),
            Some(Err(err)) => Some(Err(ShardAsyncRecvError { shard: self.shard, err })),
        };
        assert(answers(r, p, old(self).shard()));
        r
    }

    /// `None` while the receive is pending. Among the channels of all shards only its own
    /// changes.
    pub fn poll_in<T, const CAP: usize, W>(
        &mut self,
        lanes: &mut Vec<SeqInner<T, CAP, W>>,
        waker: W,
    ) -> (r: Option<Result<T, ShardAsyncRecvError>>)
        requires
            lanes_wf(old(lanes)@, old(lanes)@.len() as int),
            old(self).shard() < old(lanes)@.len(),
            old(self).recv().fits(models(old(lanes)@)[old(self).shard() as int]),
        ensures
            lanes_wf(final(lanes)@, old(lanes)@.len() as int),
            ({
                let s = old(self).shard() as int;
                let ms = models(old(lanes)@);
                let ms2 = models(final(lanes)@);
                &&& ms2 == ms.update(s, ms2[s])
                &&& final(self).recv().fits(ms2[s])
                &&& final(self).polled(old(self), ms[s], waker, ms2[s], r)
            }),
    {
        let ghost pre = lanes@;
        let s: usize = self.shard;
        let r = self.poll(&mut lanes[s], waker);
        assert(models(lanes@) =~= models(pre).update(s as int, lanes@[s as int].model()));
        r
    }

    /// Gives the receive up, on the channel of its shard.
    pub fn cancel<T, const CAP: usize, W, I: InnerChannel<T, CAP, W>>(self, inner: &mut I)
        requires
            old(inner).wf(),
            self.recv().fits(old(inner).model()),
        ensures
            final(inner).wf(),
            final(inner).model() == if self.recv().slot() is Some {
                old(inner).model().recv_task_gone(self.recv().slot()).receiver_notified()
            } else {
                old(inner).model()
            },
    {
        self.recv.cancel(inner);
    }

    /// Gives the receive up, among the channels of all shards.
    pub fn cancel_in<T, const CAP: usize, W>(self, lanes: &mut Vec<SeqInner<T, CAP, W>>)
        requires
            lanes_wf(old(lanes)@, old(lanes)@.len() as int),
            self.shard() < old(lanes)@.len(),
            self.recv().fits(models(old(lanes)@)[self.shard() as int]),
        ensures
            lanes_wf(final(lanes)@, old(lanes)@.len() as int),
            ({
                let m = models(old(lanes)@)[self.shard() as int];
                models(final(lanes)@) == models(old(lanes)@).update(
                    self.shard() as int,
                    if self.recv().slot() is Some {
                        m.recv_task_gone(self.recv().slot()).receiver_notified()
                    } else {
                        m
                    },
                )
            }),
    {
        let ghost pre = lanes@;
        let s: usize = self.shard;
        self.cancel(&mut lanes[s]);
        assert(models(lanes@) =~= models(pre).update(s as int, lanes@[s as int].model()));
    }
}

/// A batch receive from one shard that waits for its first item, one step at a time.
pub struct ShardRecvBatchOp {
    shard: usize,
    op: RecvBatchOp,
}

impl ShardRecvBatchOp {
    /// The shard to receive from.
    pub closed spec fn shard(&self) -> usize {
        self.shard
    }

    pub closed spec fn op(&self) -> RecvBatchOp {
        self.op
    }

    /// A receive of up to `max` items from `shard`.
    pub fn new(shard: usize, max: usize) -> (op: Self)
        ensures
            op.shard() == shard,
            op.op().max() == max,
            op.op().first().phase() is Attempt,
            !op.op().first().timed(),
            op.op().first().spins(),
    {
        ShardRecvBatchOp { shard, op: RecvBatchOp::new(max, false) }
    }

    /// One step of the receive. Among the channels of all shards only its own changes.
    pub fn step_in<T, const CAP: usize, W>(
        &mut self,
        lanes: &mut Vec<SeqInner<T, CAP, W>>,
        buf: &mut Vec<T>,
        ev: RecvEvent<W>,
    ) -> (r: RecvBatchStep<T>)
        requires
            lanes_wf(old(lanes)@, old(lanes)@.len() as int),
            old(self).shard() < old(lanes)@.len(),
            old(self).op().first().fits(models(old(lanes)@)[old(self).shard() as int]),
            old(self).op().first().expects(ev),
        ensures
            lanes_wf(final(lanes)@, old(lanes)@.len() as int),
            final(self).shard() == old(self).shard(),
            final(self).op().max() == old(self).op().max(),
            ({
                let s = old(self).shard() as int;
                let ms = models(old(lanes)@);
                let ms2 = models(final(lanes)@);
                &&& ms2 == ms.update(s, ms2[s])
                &&& r is Wait ==> final(self).op().first().fits(ms2[s])
                &&& final(self).op().stepped(
                    &old(self).op(),
                    ms[s],
                    old(buf)@,
                    ev,
                    ms2[s],
                    final(buf)@,
                    r,
                )
            }),
    {
        let ghost pre = lanes@;
        let s: usize = self.shard;
        let r = self.op.step(&mut lanes[s], buf, ev);
        assert(models(lanes@) =~= models(pre).update(s as int, lanes@[s as int].model()));
        r
    }
}

/// A batch receive from one shard that a task awaits.
pub struct ShardRecvBatchFuture {
    shard: usize,
    recv: RecvBatchFuture,
}

impl ShardRecvBatchFuture {
    /// The shard to receive from.
    pub closed spec fn shard(&self) -> usize {
        self.shard
    }

    pub closed spec fn recv(&self) -> RecvBatchFuture {
        self.recv
    }

    /// A receive of up to `max` items from `shard`.
    pub fn new(shard: usize, max: usize) -> (f: Self)
        ensures
            f.shard() == shard,
            f.recv().max() == max,
            f.recv().first().slot() is None,
    {
        ShardRecvBatchFuture { shard, recv: RecvBatchFuture::new(max) }
    }

    /// `None` while the receive is pending. Among the channels of all shards only its own
    /// changes.
    pub fn poll_in<T, const CAP: usize, W>(
        &mut self,
        lanes: &mut Vec<SeqInner<T, CAP, W>>,
        buf: &mut Vec<T>,
        waker: W,
    ) -> (r: Option<(usize, bool)>)
        requires
            lanes_wf(old(lanes)@, old(lanes)@.len() as int),
            old(self).shard() < old(lanes)@.len(),
            old(self).recv().first().fits(models(old(lanes)@)[old(self).shard() as int]),
        ensures
            lanes_wf(final(lanes)@, old(lanes)@.len() as int),
            final(self).shard() == old(self).shard(),
            final(self).recv().max() == old(self).recv().max(),
            ({
                let s = old(self).shard() as int;
                let ms = models(old(lanes)@);
                let ms2 = models(final(lanes)@);
                &&& ms2 == ms.update(s, ms2[s])
                &&& r is None ==> final(self).recv().first().fits(ms2[s])
                &&& final(self).recv().polled(
                    &old(self).recv(),
                    ms[s],
                    old(buf)@,
                    waker,
                    ms2[s],
                    final(buf)@,
                    r,
                )
            }),
    {
        let ghost pre = lanes@;
        let s: usize = self.shard;
        let r = self.recv.poll(&mut lanes[s], buf, waker);
        assert(models(lanes@) =~= models(pre).update(s as int, lanes@[s as int].model()));
        r
    }

    /// Gives the receive up.
    pub fn cancel_in<T, const CAP: usize, W>(self, lanes: &mut Vec<SeqInner<T, CAP, W>>)
        requires
            lanes_wf(old(lanes)@, old(lanes)@.len() as int),
            self.shard() < old(lanes)@.len(),
            self.recv().first().fits(models(old(lanes)@)[self.shard() as int]),
        ensures
            lanes_wf(final(lanes)@, old(lanes)@.len() as int),
            ({
                let m = models(old(lanes)@)[self.shard() as int];
                let slot = self.recv().first().slot();
                models(final(lanes)@) == models(old(lanes)@).update(
                    self.shard() as int,
                    if slot is Some {
                        m.recv_task_gone(slot).receiver_notified()
                    } else {
                        m
                    },
                )
            }),
    {
        let ghost pre = lanes@;
        let s: usize = self.shard;
        self.recv.cancel(&mut lanes[s]);
        assert(models(lanes@) =~= models(pre).update(s as int, lanes@[s as int].model()));
    }
}

} // verus!
