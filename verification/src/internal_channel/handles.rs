use super::batch_future::SendBatchFuture;
use super::errors::{BatchSendError, TryRecvError, TrySendBatchError, TrySendError};
use super::inner::SingleInner;
use super::model::ChannelModel;
use super::recv_batch::{RecvBatchFuture, RecvBatchOp};
use super::receiver::{try_received, GenericRecvFuture, GenericRecvStream, RecvOp};
use super::sender::{
    try_sent, BatchStart, GenericSendFuture, SendBatchOp, SendOp, SendPending,
};
use super::traits::{InnerChannel, MultiConsumer, MultiProducer};
use crate::ring::values;
use std::marker::PhantomData;
use vstd::prelude::*;

verus! {

/// The right to send on a channel with state `I`. The state counts its senders.
pub struct Sender<I> {
    channel: PhantomData<I>,
}

/// The sender of a channel with one sender and one receiver; it cannot be cloned.
pub type SingleSender<T, const CAP: usize, W> = Sender<SingleInner<T, CAP, W>>;

impl<I> Sender<I> {
    /// The first sender of a new channel.
    pub fn new() -> (s: Self) {
        Sender { channel: PhantomData }
    }

    /// Sends `value` if there is room and somebody to receive it.
    pub fn try_send<T, const CAP: usize, W>(&self, inner: &mut I, value: T) -> (r: Result<
        (),
        TrySendError<T>,
    >) where I: InnerChannel<T, CAP, W>
        requires
            old(inner).wf(),
        ensures
            final(inner).wf(),
            (final(inner).model(), r) == try_sent(old(inner).model(), CAP as int, value),
    {
        super::sender::try_send(inner, value)
    }

    /// A send that waits for room as long as it takes.
    pub fn send<T>(&self, value: T) -> (op: SendOp<T>)
        ensures
            op.value() == Some(value),
            op.phase() is Begin,
            !op.timed(),
    {
        SendOp::new(value)
    }

    /// A send that waits for room until a deadline.
    pub fn send_timeout<T>(&self, value: T) -> (op: SendOp<T>)
        ensures
            op.value() == Some(value),
            op.phase() is Attempt,
            op.timed(),
    {
        SendOp::with_deadline(value)
    }

    /// Sends items off the front of `buf` without waiting; what was not sent stays in
    /// `buf`.
    pub fn try_send_batch<T, const CAP: usize, W>(&self, inner: &mut I, buf: &mut Vec<T>) -> (r:
        Result<usize, BatchSendError<TrySendBatchError>>) where I: InnerChannel<T, CAP, W>
        requires
            old(inner).wf(),
        ensures
            final(inner).wf(),
            ({
                let m = old(inner).model();
                let n = m.room(CAP as int, old(buf)@.len() as int);
                &&& final(inner).model() == m.pushed_all(
                    old(buf)@.subrange(0, n),
                ).receivers_notified(n as nat)
                &&& final(buf)@ == old(buf)@.subrange(n, old(buf)@.len() as int)
                &&& if m.rx_closed {
                    r == Err::<usize, _>(
                        BatchSendError { sent: 0, err: TrySendBatchError::Disconnected },
                    )
                } else if n == old(buf)@.len() {
                    r == Ok::<usize, BatchSendError<TrySendBatchError>>(n as usize)
                } else {
                    r == Err::<usize, _>(
                        BatchSendError { sent: n as usize, err: TrySendBatchError::Full },
                    )
                }
            }),
    {
        super::sender::try_send_batch(inner, buf)
    }

    /// Sends what there is room for, and sets out to send the rest with waiting, until a
    /// deadline if `timed`.
    pub fn send_batch<T, const CAP: usize, W>(
        &self,
        inner: &mut I,
        buf: &mut Vec<T>,
        timed: bool,
    ) -> (r: BatchStart<T>) where I: InnerChannel<T, CAP, W>
        requires
            old(inner).wf(),
        ensures
            final(inner).wf(),
            super::sender::batch_began(
                old(inner).model(),
                CAP as int,
                old(buf)@,
                timed,
                final(inner).model(),
                final(buf)@,
                r,
            ),
    {
        SendBatchOp::begin(inner, buf, timed)
    }

    /// A send for a task to await; it owns its item.
    pub fn send_async<T>(&self, value: T) -> (f: GenericSendFuture<T>)
        ensures
            f.value() == Some(value),
            f.slot() is None,
    {
        GenericSendFuture::new(value)
    }

    /// A send for a task to await; the item stays with the caller until it is sent.
    pub fn send_ref_async(&self) -> (f: SendPending)
        ensures
            f.slot() is None,
    {
        SendPending::new()
    }

    /// Sends what there is room for; the rest is left for a task to send item by item.
    pub fn send_batch_async<T, const CAP: usize, W>(&self, inner: &mut I, buf: &mut Vec<T>) -> (f:
        SendBatchFuture<T>) where I: InnerChannel<T, CAP, W>
        requires
            old(inner).wf(),
        ensures
            final(inner).wf(),
            final(buf)@.len() == 0,
            f.wf(),
            ({
                let m = old(inner).model();
                let n = m.room(CAP as int, old(buf)@.len() as int);
                &&& final(inner).model() == m.pushed_all(
                    old(buf)@.subrange(0, n),
                ).receivers_notified(n as nat)
                &&& f.sent() == n
                &&& f.remaining() == old(buf)@.subrange(n, old(buf)@.len() as int)
                &&& !f.on_its_way()
                &&& f.slot() is None
            }),
    {
        let most: usize = buf.len();
        let n: usize = inner.push_batch(buf);
        inner.notify_receivers_n(n);
        assert(n + buf@.len() == most);
        SendBatchFuture::new(n, buf)
    }

    /// One more sender.
    pub fn clone<T, const CAP: usize, W>(&self, inner: &mut I) -> (s: Self) where
        I: InnerChannel<T, CAP, W> + MultiProducer,

        requires
            old(inner).wf(),
        ensures
            final(inner).wf(),
            final(inner).model() == old(inner).model().senders_changed(I::multi(), 1),
    {
        let _ = inner.sender_add();
        Sender { channel: PhantomData }
    }

    /// Gives the right up. With the last sender the channel closes, and everybody who
    /// waits to receive is woken.
    pub fn close<T, const CAP: usize, W>(self, inner: &mut I) where I: InnerChannel<T, CAP, W>
        requires
            old(inner).wf(),
        ensures
            final(inner).wf(),
            final(inner).model() == old(inner).model().sender_gone(I::multi()),
    {
        if inner.sender_sub() == 1 {
            inner.tx_close();
            inner.notify_all_on_tx_close();
        }
    }
}

/// The right to receive from a channel with state `I`. The state counts its receivers.
pub struct Receiver<I> {
    shard: usize,
    channel: PhantomData<I>,
}

impl<I> Receiver<I> {
    /// Which shard of a sharded channel is received from; 0 if the channel has one only.
    pub closed spec fn shard(&self) -> usize {
        self.shard
    }

    /// The first receiver of a new channel.
    pub fn new() -> (s: Self)
        ensures
            s.shard() == 0,
    {
        Receiver { shard: 0, channel: PhantomData }
    }

    /// The first receiver of a shard.
    pub fn of_shard(shard: usize) -> (s: Self)
        ensures
            s.shard() == shard,
    {
        Receiver { shard, channel: PhantomData }
    }

    /// The shard that is received from.
    pub fn shard_id(&self) -> (s: usize)
        ensures
            s == self.shard(),
    {
        self.shard
    }

    /// Receives the oldest item if there is one.
    pub fn try_recv<T, const CAP: usize, W>(&self, inner: &mut I) -> (r: Result<
        T,
        TryRecvError,
    >) where I: InnerChannel<T, CAP, W>
        requires
            old(inner).wf(),
        ensures
            final(inner).wf(),
            (final(inner).model(), r) == try_received(old(inner).model()),
    {
        super::receiver::try_recv(inner)
    }

    /// A receive that waits for an item as long as it takes.
    pub fn recv(&self) -> (op: RecvOp)
        ensures
            op.phase() is Attempt,
            !op.timed(),
            op.spins(),
    {
        RecvOp::new(false)
    }

    /// A receive that waits for an item until a deadline.
    pub fn recv_timeout(&self) -> (op: RecvOp)
        ensures
            op.phase() is Attempt,
            op.timed(),
            op.spins(),
    {
        RecvOp::new(true)
    }

    /// Receives up to `max` items into `buf` without waiting. The flag says that there
    /// were none and none will come.
    pub fn try_recv_batch<T, const CAP: usize, W>(
        &self,
        inner: &mut I,
        buf: &mut Vec<T>,
        max: usize,
    ) -> (r: (usize, bool)) where I: InnerChannel<T, CAP, W>
        requires
            old(inner).wf(),
        ensures
            final(inner).wf(),
            ({
                let m = old(inner).model();
                let n = m.available(max as int);
                &&& r.0 == n
                &&& r.1 == (n == 0 && m.drained())
                &&& final(buf)@ == old(buf)@ + values(m.pending.subrange(0, n))
                &&& final(inner).model() == m.popped_n(n).senders_notified(n as nat)
            }),
    {
        super::receiver::try_recv_batch(inner, buf, max)
    }

    /// A receive of up to `max` items that waits for the first as long as it takes.
    pub fn recv_batch(&self, max: usize) -> (op: RecvBatchOp)
        ensures
            op.max() == max,
            op.first().phase() is Attempt,
            !op.first().timed(),
            op.first().spins(),
    {
        RecvBatchOp::new(max, false)
    }

    /// A receive of up to `max` items that waits for the first until a deadline.
    pub fn recv_batch_timeout(&self, max: usize) -> (op: RecvBatchOp)
        ensures
            op.max() == max,
            op.first().phase() is Attempt,
            op.first().timed(),
            op.first().spins(),
    {
        RecvBatchOp::new(max, true)
    }

    /// A receive of up to `max` items for a task to await.
    pub fn recv_batch_async(&self, max: usize) -> (f: RecvBatchFuture)
        ensures
            f.max() == max,
            f.first().slot() is None,
    {
        RecvBatchFuture::new(max)
    }

    /// A receive for a task to await.
    pub fn recv_async(&self) -> (f: GenericRecvFuture)
        ensures
            f.slot() is None,
    {
        GenericRecvFuture::new()
    }

    /// The items as a task sees them come in.
    pub fn stream(&self) -> (f: GenericRecvStream)
        ensures
            f.slot() is None,
    {
        GenericRecvStream::new()
    }

    /// How many items are on their way.
    pub fn queued<T, const CAP: usize, W>(&self, inner: &I) -> (n: usize) where
        I: InnerChannel<T, CAP, W>,

        requires
            inner.wf(),
        ensures
            n == inner.model().pending.len(),
    {
        inner.queued()
    }

    /// No item is on its way.
    pub fn is_queued_empty<T, const CAP: usize, W>(&self, inner: &I) -> (b: bool) where
        I: InnerChannel<T, CAP, W>,

        requires
            inner.wf(),
        ensures
            b == (inner.model().pending.len() == 0),
    {
        inner.queued() == 0
    }

    /// How many items the channel can hold.
    pub fn capacity<T, const CAP: usize, W>(&self) -> (n: usize) where I: InnerChannel<T, CAP, W>
        ensures
            n == CAP,
    {
        CAP
    }

    /// One more receiver.
    pub fn clone<T, const CAP: usize, W>(&self, inner: &mut I) -> (s: Self) where
        I: InnerChannel<T, CAP, W> + MultiConsumer,

        requires
            old(inner).wf(),
        ensures
            final(inner).wf(),
            final(inner).model() == old(inner).model().receivers_changed(I::multi(), 1),
            s.shard() == self.shard(),
    {
        let _ = inner.receiver_add();
        Receiver { shard: self.shard, channel: PhantomData }
    }

    /// Gives the right up. With the last receiver the channel refuses further items, and
    /// everybody who waits to send is woken.
    pub fn close<T, const CAP: usize, W>(self, inner: &mut I) where I: InnerChannel<T, CAP, W>
        requires
            old(inner).wf(),
        ensures
            final(inner).wf(),
            final(inner).model() == old(inner).model().receiver_gone(I::multi()),
    {
        if inner.receiver_sub() == 1 {
            inner.rx_close();
            inner.notify_all_on_rx_close();
        }
    }
}

/// The receiver of a channel with one sender and one receiver; it cannot be cloned.
pub struct SingleReceiver<T, const CAP: usize, W> {
    inner: Receiver<SingleInner<T, CAP, W>>,
}

impl<T, const CAP: usize, W> SingleReceiver<T, CAP, W> {
    pub fn new() -> (s: Self) {
        SingleReceiver { inner: Receiver::new() }
    }

    /// Receives the oldest item if there is one.
    pub fn try_recv(&mut self, inner: &mut SingleInner<T, CAP, W>) -> (r: Result<T, TryRecvError>)
        requires
            old(inner).wf(),
        ensures
            final(inner).wf(),
            (final(inner).model(), r) == try_received(old(inner).model()),
    {
        super::receiver::try_recv(inner)
    }

    /// A receive that waits for an item as long as it takes.
    pub fn recv(&mut self) -> (op: RecvOp)
        ensures
            op.phase() is Attempt,
            !op.timed(),
            op.spins(),
    {
        RecvOp::new(false)
    }

    /// A receive that waits for an item until a deadline.
    pub fn recv_timeout(&mut self) -> (op: RecvOp)
        ensures
            op.phase() is Attempt,
            op.timed(),
            op.spins(),
    {
        RecvOp::new(true)
    }

    /// Receives up to `max` items into `buf` without waiting. The flag says that there
    /// were none and none will come.
    pub fn try_recv_batch(
        &mut self,
        inner: &mut SingleInner<T, CAP, W>,
        buf: &mut Vec<T>,
        max: usize,
    ) -> (r: (usize, bool))
        requires
            old(inner).wf(),
        ensures
            final(inner).wf(),
            ({
                let m = old(inner).model();
                let n = m.available(max as int);
                &&& r.0 == n
                &&& r.1 == (n == 0 && m.drained())
                &&& final(buf)@ == old(buf)@ + values(m.pending.subrange(0, n))
                &&& final(inner).model() == m.popped_n(n).senders_notified(n as nat)
            }),
    {
        super::receiver::try_recv_batch(inner, buf, max)
    }

    /// A receive of up to `max` items that waits for the first as long as it takes.
    pub fn recv_batch(&mut self, max: usize) -> (op: RecvBatchOp)
        ensures
            op.max() == max,
            op.first().phase() is Attempt,
            !op.first().timed(),
            op.first().spins(),
    {
        RecvBatchOp::new(max, false)
    }

    /// A receive of up to `max` items that waits for the first until a deadline.
    pub fn recv_batch_timeout(&mut self, max: usize) -> (op: RecvBatchOp)
        ensures
            op.max() == max,
            op.first().phase() is Attempt,
            op.first().timed(),
            op.first().spins(),
    {
        RecvBatchOp::new(max, true)
    }

    /// A receive of up to `max` items for a task to await.
    pub fn recv_batch_async(&mut self, max: usize) -> (f: RecvBatchFuture)
        ensures
            f.max() == max,
            f.first().slot() is None,
    {
        RecvBatchFuture::new(max)
    }

    /// A receive for a task to await.
    pub fn recv_async(&mut self) -> (f: GenericRecvFuture)
        ensures
            f.slot() is None,
    {
        GenericRecvFuture::new()
    }

    /// The items as a task sees them come in.
    pub fn stream(&mut self) -> (f: GenericRecvStream)
        ensures
            f.slot() is None,
    {
        GenericRecvStream::new()
    }

    /// How many items are on their way.
    pub fn queued(&self, inner: &SingleInner<T, CAP, W>) -> (n: usize)
        requires
            inner.wf(),
        ensures
            n == inner.model().pending.len(),
    {
        inner.queued()
    }

    /// No item is on its way.
    pub fn is_queued_empty(&self, inner: &SingleInner<T, CAP, W>) -> (b: bool)
        requires
            inner.wf(),
        ensures
            b == (inner.model().pending.len() == 0),
    {
        inner.queued() == 0
    }

    /// How many items the channel can hold.
    pub fn capacity(&self) -> (n: usize)
        ensures
            n == CAP,
    {
        CAP
    }

    /// Gives the right up: the channel refuses further items, and a sender that waits is
    /// woken.
    pub fn close(self, inner: &mut SingleInner<T, CAP, W>)
        requires
            old(inner).wf(),
        ensures
            final(inner).wf(),
            final(inner).model() == (ChannelModel {
                rx_closed: true,
                ..old(inner).model()
            }).all_senders_notified(),
    {
        inner.rx_close();
        inner.notify_all_on_rx_close();
    }
}

} // verus!
