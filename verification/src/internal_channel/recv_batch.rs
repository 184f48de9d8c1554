use super::errors::{AsyncRecvError, RecvError};
use super::model::ChannelModel;
use super::receiver::{
    batch_received, poll_received, recv_batch, recv_batch_begin, GenericRecvFuture, RecvEvent,
    RecvOp, RecvPoll, RecvStep,
};
use super::traits::InnerChannel;
use vstd::prelude::*;

verus! {

/// What a batch receive asks of its thread before the next step.
pub enum RecvBatchStep<T> {
    /// The receive is over: how many items came, and whether, after the first if it came,
    /// there were none and none will come.
    Done(usize, bool),
    /// The wait for the first item asks for this; it is never `Done`.
    Wait(RecvStep<T>),
}

/// A batch receive that waits for its first item, one step at a time, and takes the rest
/// without waiting. A deadline bounds the wait for the first item.
pub struct RecvBatchOp {
    first: RecvOp,
    max: usize,
}

impl RecvBatchOp {
    /// The receive of the first item.
    pub closed spec fn first(&self) -> RecvOp {
        self.first
    }

    /// The most items to receive.
    pub closed spec fn max(&self) -> usize {
        self.max
    }

    /// A receive of at most `max` items, with a deadline if `timed`.
    pub fn new(max: usize, timed: bool) -> (op: Self)
        ensures
            op.max() == max,
            op.first().phase() is Attempt,
            op.first().timed() == timed,
            op.first().spins(),
    {
        RecvBatchOp { first: RecvOp::new(timed), max }
    }

    /// The same without spinning before it queues up.
    pub fn without_spin(max: usize, timed: bool) -> (op: Self)
        ensures
            op.max() == max,
            op.first().phase() is Attempt,
            op.first().timed() == timed,
            !op.first().spins(),
    {
        RecvBatchOp { first: RecvOp::without_spin(timed), max }
    }

    /// What one step does: from the operation `pre`, the channel `m` and the items `buf`,
    /// told `ev`, to this operation, the channel `m2`, the items `buf2` and the request
    /// `r`. A receive of no items is over at once.
    pub open spec fn stepped<T, W>(
        &self,
        pre: &Self,
        m: ChannelModel<T, W>,
        buf: Seq<T>,
        ev: RecvEvent<W>,
        m2: ChannelModel<T, W>,
        buf2: Seq<T>,
        r: RecvBatchStep<T>,
    ) -> bool {
        if pre.max() == 0 {
            &&& r == RecvBatchStep::<T>::Done(0, m.drained())
            &&& m2 == m
            &&& buf2 == buf
        } else {
            exists|mid: ChannelModel<T, W>, s: RecvStep<T>|
                #![trigger self.first().stepped(&pre.first(), m, ev, mid, s)]
                {
                    &&& self.first().stepped(&pre.first(), m, ev, mid, s)
                    &&& match s {
                        RecvStep::Done(first) => {
                            &&& r is Done
                            &&& batch_received(
                                mid,
                                buf,
                                pre.max() as int,
                                first,
                                m2,
                                buf2,
                                r->Done_0 as int,
                                r->Done_1,
                            )
                        },
                        _ => r == RecvBatchStep::Wait(s) && m2 == mid && buf2 == buf,
                    }
                }
        }
    }

    /// One step of the receive.
    pub fn step<T, const CAP: usize, W, I: InnerChannel<T, CAP, W>>(
        &mut self,
        inner: &mut I,
        buf: &mut Vec<T>,
        ev: RecvEvent<W>,
    ) -> (r: RecvBatchStep<T>)
        requires
            old(inner).wf(),
            old(self).first().fits(old(inner).model()),
            old(self).first().expects(ev),
        ensures
            final(inner).wf(),
            final(self).max() == old(self).max(),
            r is Wait ==> final(self).first().fits(final(inner).model()),
            final(self).stepped(
                old(self),
                old(inner).model(),
                old(buf)@,
                ev,
                final(inner).model(),
                final(buf)@,
                r,
            ),
    {
        match recv_batch_begin(inner, self.max) {
            Some((n, dc)) => return RecvBatchStep::Done(n, dc),
            None => {},
        }
        let ghost m = inner.model();
        let s = self.first.step(inner, ev);
        let ghost mid = inner.model();
        assert(self.first().stepped(&old(self).first(), m, ev, mid, s));
        match s {
            RecvStep::Done(first) => {
                let (n, dc) = recv_batch(inner, buf, self.max, first);
                RecvBatchStep::Done(n, dc)
            },
            s => RecvBatchStep::Wait(s),
        }
    }
}

/// The answer of an awaited receive as that of one that waits.
pub open spec fn as_waited<T>(a: Result<T, AsyncRecvError>) -> Result<T, RecvError> {
    match a {
        Ok(v) => Ok(v),
        Err(AsyncRecvError::Disconnected) => Err(RecvError::Disconnected),
    }
}

/// The answer of a poll, `None` for pending.
pub open spec fn as_poll<T>(p: Option<Result<T, AsyncRecvError>>) -> RecvPoll<T> {
    match p {
        None => RecvPoll::Pending,
        Some(a) => RecvPoll::Ready(a),
    }
}

/// A batch receive that a task awaits: it waits for its first item and takes the rest
/// without waiting.
pub struct RecvBatchFuture {
    first: GenericRecvFuture,
    max: usize,
}

impl RecvBatchFuture {
    /// The receive of the first item.
    pub closed spec fn first(&self) -> GenericRecvFuture {
        self.first
    }

    /// The most items to receive.
    pub closed spec fn max(&self) -> usize {
        self.max
    }

    pub fn new(max: usize) -> (f: Self)
        ensures
            f.max() == max,
            f.first().slot() is None,
    {
        RecvBatchFuture { first: GenericRecvFuture::new(), max }
    }

    /// What one poll does: from the receive `pre`, the channel `m` and the items `buf` to
    /// this receive, the channel `m2`, the items `buf2` and the answer `r`.
    pub open spec fn polled<T, W>(
        &self,
        pre: &Self,
        m: ChannelModel<T, W>,
        buf: Seq<T>,
        waker: W,
        m2: ChannelModel<T, W>,
        buf2: Seq<T>,
        r: Option<(usize, bool)>,
    ) -> bool {
        if pre.max() == 0 {
            &&& r == Some((0usize, m.drained()))
            &&& m2 == m
            &&& buf2 == buf
            &&& self.first() == pre.first()
        } else {
            exists|mid: ChannelModel<T, W>, p: RecvPoll<T>|
                #![trigger poll_received(
                    m,
                    pre.first().slot(),
                    waker,
                    mid,
                    self.first().slot(),
                    p,
                )]
                {
                    &&& poll_received(m, pre.first().slot(), waker, mid, self.first().slot(), p)
                    &&& match p {
                        RecvPoll::Ready(a) => {
                            &&& r is Some
                            &&& batch_received(
                                mid,
                                buf,
                                pre.max() as int,
                                as_waited(a),
                                m2,
                                buf2,
                                r->Some_0.0 as int,
                                r->Some_0.1,
                            )
                        },
                        RecvPoll::Pending => r is None && m2 == mid && buf2 == buf,
                    }
                }
        }
    }

    /// `None` while the receive is pending.
    pub fn poll<T, const CAP: usize, W, I: InnerChannel<T, CAP, W>>(
        &mut self,
        inner: &mut I,
        buf: &mut Vec<T>,
        waker: W,
    ) -> (r: Option<(usize, bool)>)
        requires
            old(inner).wf(),
            old(self).first().fits(old(inner).model()),
        ensures
            final(inner).wf(),
            final(self).max() == old(self).max(),
            r is None ==> final(self).first().fits(final(inner).model()),
            final(self).polled(
                old(self),
                old(inner).model(),
                old(buf)@,
                waker,
                final(inner).model(),
                final(buf)@,
                r,
            ),
    {
        match recv_batch_begin(inner, self.max) {
            Some(r) => return Some(r),
            None => {},
        }
        let ghost m = inner.model();
        let p = self.first.poll(inner, waker);
        let ghost mid = inner.model();
        proof {
            assert(poll_received(
                m,
                old(self).first().slot(),
                waker,
                mid,
                self.first().slot(),
                as_poll(p),
            ));
        }
        match p {
            None => None,
            Some(Ok(v)) => Some(recv_batch(inner, buf, self.max, Ok(v))),
            Some(Err(AsyncRecvError::Disconnected)) => Some(
                recv_batch(inner, buf, self.max, Err(RecvError::Disconnected)),
            ),
        }
    }

    /// Gives the receive up.
    pub fn cancel<T, const CAP: usize, W, I: InnerChannel<T, CAP, W>>(self, inner: &mut I)
        requires
            old(inner).wf(),
            self.first().fits(old(inner).model()),
        ensures
            final(inner).wf(),
            final(inner).model() == if self.first().slot() is Some {
                old(inner).model().recv_task_gone(self.first().slot()).receiver_notified()
            } else {
                old(inner).model()
            },
    {
        self.first.cancel(inner);
    }
}

} // verus!
