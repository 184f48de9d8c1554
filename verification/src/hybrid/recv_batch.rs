use super::errors::{AsyncRecvError, RecvError, ResultAsyncReceiver, ResultReceiver};
use super::inner::{Inner, LinkModel};
use super::receiver::{
    batch_joined, poll_received, recv_batch, recv_batch_begin, ReceiverFuture, RecvOp, RecvStep,
};
use super::sender::WaitEvent;
use vstd::prelude::*;

verus! {

/// What a batch receive asks of its thread before the next step.
pub enum RecvBatchStep<T> {
    /// The receive is over: how many items came, and whether, after the first if it came,
    /// there were none and none will come.
    Done(usize, bool),
    /// The wait for the first item asks for this; it is never `Done`.
    Wait(RecvStep<T>),
}

/// A batch receive that waits for its first item, one step at a time, and takes the rest
/// without waiting. A deadline bounds the wait for the first item.
pub struct RecvBatchOp {
    first: RecvOp,
    max: usize,
}

impl RecvBatchOp {
    /// The receive of the first item.
    pub closed spec fn first(&self) -> RecvOp {
        self.first
    }

    /// The most items to receive.
    pub closed spec fn max(&self) -> usize {
        self.max
    }

    /// A receive of at most `max` items, with a deadline if `timed`.
    pub fn new(max: usize, timed: bool) -> (op: Self)
        ensures
            op.max() == max,
            op.first().phase() is Attempt,
            op.first().timed() == timed,
    {
        RecvBatchOp { first: RecvOp::new(timed), max }
    }

    /// What one step does: from the operation `pre`, the channel `m` and the items `buf`,
    /// told `ev`, to this operation, the channel `m2`, the items `buf2` and the request
    /// `r`. A receive of no items is over at once.
    pub open spec fn stepped<T, W>(
        &self,
        pre: &Self,
        m: LinkModel<T, W>,
        buf: Seq<T>,
        ev: WaitEvent<W>,
        m2: LinkModel<T, W>,
        buf2: Seq<T>,
        r: RecvBatchStep<T>,
    ) -> bool {
        if pre.max() == 0 {
            &&& r == RecvBatchStep::<T>::Done(0, false)
            &&& m2 == m
            &&& buf2 == buf
        } else {
            exists|mid: LinkModel<T, W>, s: RecvStep<T>|
                #![trigger self.first().stepped(&pre.first(), m, ev, mid, s)]
                {
                    &&& self.first().stepped(&pre.first(), m, ev, mid, s)
                    &&& match s {
                        RecvStep::Done(first) => {
                            &&& r is Done
                            &&& batch_joined(
                                mid,
                                buf,
                                pre.max() as int,
                                first,
                                m2,
                                buf2,
                                r->Done_0 as int,
                                r->Done_1,
                            )
                        },
                        _ => r == RecvBatchStep::Wait(s) && m2 == mid && buf2 == buf,
                    }
                }
        }
    }

    /// One step of the receive.
    pub fn step<T, const CAP: usize, const MULTI: bool, W>(
        &mut self,
        inner: &mut Inner<T, CAP, MULTI, W>,
        buf: &mut Vec<T>,
        ev: WaitEvent<W>,
    ) -> (r: RecvBatchStep<T>)
        requires
            old(inner).wf(),
            old(self).first().fits(old(inner)@),
            old(self).first().expects(ev),
        ensures
            final(inner).wf(),
            final(self).max() == old(self).max(),
            r is Wait ==> final(self).first().fits(final(inner)@),
            final(self).stepped(
                old(self),
                old(inner)@,
                old(buf)@,
                ev,
                final(inner)@,
                final(buf)@,
                r,
            ),
    {
        match recv_batch_begin(self.max) {
            Some((n, dc)) => return RecvBatchStep::Done(n, dc),
            None => {},
        }
        let ghost m = inner@;
        let s = self.first.step(inner, ev);
        let ghost mid = inner@;
        assert(self.first().stepped(&old(self).first(), m, ev, mid, s));
        match s {
            RecvStep::Done(first) => {
                let (n, dc) = recv_batch(inner, buf, self.max, first);
                RecvBatchStep::Done(n, dc)
            },
            s => RecvBatchStep::Wait(s),
        }
    }
}

/// The answer of an awaited receive as that of one that waits.
pub open spec fn as_waited<T>(a: ResultAsyncReceiver<T>) -> ResultReceiver<T> {
    match a {
        Ok(v) => Ok(v),
        Err(AsyncRecvError::Disconnected) => Err(RecvError::Disconnected),
    }
}

/// A batch receive that a task awaits: it waits for its first item and takes the rest
/// without waiting.
pub struct RecvBatchFuture {
    first: ReceiverFuture,
    max: usize,
}

impl RecvBatchFuture {
    /// The receive of the first item.
    pub closed spec fn first(&self) -> ReceiverFuture {
        self.first
    }

    /// The most items to receive.
    pub closed spec fn max(&self) -> usize {
        self.max
    }

    pub fn new(max: usize) -> (f: Self)
        ensures
            f.max() == max,
            f.first().node() is None,
    {
        RecvBatchFuture { first: ReceiverFuture::new(), max }
    }

    /// What one poll does: from the receive `pre`, the channel `m` and the items `buf` to
    /// this receive, the channel `m2`, the items `buf2` and the answer `r`.
    pub open spec fn polled<T, W>(
        &self,
        pre: &Self,
        m: LinkModel<T, W>,
        buf: Seq<T>,
        waker: W,
        m2: LinkModel<T, W>,
        buf2: Seq<T>,
        r: Option<(usize, bool)>,
    ) -> bool {
        if pre.max() == 0 {
            &&& r == Some((0usize, false))
            &&& m2 == m
            &&& buf2 == buf
            &&& self.first() == pre.first()
        } else {
            exists|mid: LinkModel<T, W>, p: Option<ResultAsyncReceiver<T>>|
                #![trigger poll_received(
                    m,
                    pre.first().node(),
                    waker,
                    mid,
                    self.first().node(),
                    p,
                )]
                {
                    &&& poll_received(m, pre.first().node(), waker, mid, self.first().node(), p)
                    &&& match p {
                        Some(a) => {
                            &&& r is Some
                            &&& batch_joined(
                                mid,
                                buf,
                                pre.max() as int,
                                as_waited(a),
                                m2,
                                buf2,
                                r->Some_0.0 as int,
                                r->Some_0.1,
                            )
                        },
                        None => r is None && m2 == mid && buf2 == buf,
                    }
                }
        }
    }

    /// `None` while the receive is pending.
    pub fn poll<T, const CAP: usize, const MULTI: bool, W>(
        &mut self,
        inner: &mut Inner<T, CAP, MULTI, W>,
        buf: &mut Vec<T>,
        waker: W,
    ) -> (r: Option<(usize, bool)>)
        requires
            old(inner).wf(),
            old(self).first().fits(old(inner)@),
        ensures
            final(inner).wf(),
            final(self).max() == old(self).max(),
            r is None ==> final(self).first().fits(final(inner)@),
            final(self).polled(
                old(self),
                old(inner)@,
                old(buf)@,
                waker,
                final(inner)@,
                final(buf)@,
                r,
            ),
    {
        match recv_batch_begin(self.max) {
            Some(r) => return Some(r),
            None => {},
        }
        let ghost m = inner@;
        let p = self.first.poll(inner, waker);
        let ghost mid = inner@;
        proof {
            assert(poll_received(
                m,
                old(self).first().node(),
                waker,
                mid,
                self.first().node(),
                p,
            ));
        }
        match p {
            None => None,
            Some(Ok(v)) => Some(recv_batch(inner, buf, self.max, Ok(v))),
            Some(Err(AsyncRecvError::Disconnected)) => Some(
                recv_batch(inner, buf, self.max, Err(RecvError::Disconnected)),
            ),
        }
    }

    /// Gives the receive up.
    pub fn cancel<T, const CAP: usize, const MULTI: bool, W>(self, inner: &mut Inner<T, CAP, MULTI, W>)
        requires
            old(inner).wf(),
            self.first().fits(old(inner)@),
        ensures
            final(inner).wf(),
            final(inner)@ == if self.first().node() is Some {
                old(inner)@.recv_wait_left(self.first().node()).receiver_notified()
            } else {
                old(inner)@
            },
    {
        self.first.cancel(inner);
    }
}

} // verus!
