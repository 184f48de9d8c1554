use super::errors::{
    AsyncSendError, AsyncSendRefError, BatchSendError, SendBatchError, SendError,
    TrySendBatchError, TrySendError,
};
use super::inner::{SENDER_SPIN_COUNT, YIELD_UNTIL};
use super::model::ChannelModel;
use super::traits::{InnerChannel, Pushed};
use crate::pow2::word;
use crate::ring::{lemma_offset, offset, written};
use crate::stack::{stacked, turned, unstacked};
use std::time::Duration;
use vstd::prelude::*;

verus! {

/// What one attempt to send `v` gives: the channel afterwards, and the answer.
pub open spec fn try_sent<T, W>(m: ChannelModel<T, W>, cap: int, v: T) -> (
    ChannelModel<T, W>,
    Result<(), TrySendError<T>>,
) {
    if m.rx_closed {
        (m, Err(TrySendError::Disconnected(v)))
    } else if m.can_push(cap) {
        (m.sent(v), Ok(()))
    } else {
        (m, Err(TrySendError::Full(v)))
    }
}

/// Sends `value` if there is room and somebody to receive it.
pub fn try_send<T, const CAP: usize, W, I: InnerChannel<T, CAP, W>>(
    inner: &mut I,
    value: T,
) -> (r: Result<(), TrySendError<T>>)
    requires
        old(inner).wf(),
    ensures
        final(inner).wf(),
        (final(inner).model(), r) == try_sent(old(inner).model(), CAP as int, value),
        r is Ok <==> !old(inner).model().rx_closed && old(inner).model().pending.len() < CAP,
        r is Ok ==> final(inner).model().pending == old(inner).model().pending.push(Some(value)),
        r matches Err(e) ==> e.item() == value && final(inner).model() == old(inner).model(),
{
    if inner.is_rx_closed() {
        return Err(TrySendError::Disconnected(value));
    }
    match inner.push(value) {
        Ok(()) => {
            inner.notify_receivers();
            Ok(())
        },
        Err(v) => Err(TrySendError::Full(v)),
    }
}

/// Sends items off the front of `buf` without waiting; what was not sent stays in `buf`.
/// One receiver is woken for each item sent.
pub fn try_send_batch<T, const CAP: usize, W, I: InnerChannel<T, CAP, W>>(
    inner: &mut I,
    buf: &mut Vec<T>,
) -> (r: Result<usize, BatchSendError<TrySendBatchError>>)
    requires
        old(inner).wf(),
    ensures
        final(inner).wf(),
        ({
            let m = old(inner).model();
            let n = m.room(CAP as int, old(buf)@.len() as int);
            &&& final(inner).model() == m.pushed_all(old(buf)@.subrange(0, n)).receivers_notified(
                n as nat,
            )
            &&& final(buf)@ == old(buf)@.subrange(n, old(buf)@.len() as int)
            &&& if m.rx_closed {
                r == Err::<usize, _>(
                    BatchSendError { sent: 0, err: TrySendBatchError::Disconnected },
                )
            } else if n == old(buf)@.len() {
                r == Ok::<usize, BatchSendError<TrySendBatchError>>(n as usize)
            } else {
                r == Err::<usize, _>(
                    BatchSendError { sent: n as usize, err: TrySendBatchError::Full },
                )
            }
        }),
        r is Ok ==> final(buf)@.len() == 0,
        r matches Err(e) && e.err is Full ==> final(buf)@.len() > 0
            && final(inner).model().pending.len() >= CAP,
{
    let ghost m = inner.model();
    let ghost b = buf@;
    if inner.is_rx_closed() {
        proof {
            assert(written(b.subrange(0, 0)) =~= Seq::empty());
            assert(m.pending + written(b.subrange(0, 0)) =~= m.pending);
            assert(b.subrange(0, b.len() as int) =~= b);
            assert(m.woken + Seq::<W>::empty() =~= m.woken);
        }
        return Err(BatchSendError { sent: 0, err: TrySendBatchError::Disconnected });
    }
    let sent: usize = inner.push_batch(buf);
    inner.notify_receivers_n(sent);
    if buf.len() == 0 {
        Ok(sent)
    } else {
        Err(BatchSendError { sent, err: TrySendBatchError::Full })
    }
}

/// Where a blocking send stands.
#[derive(Clone, Copy)]
pub enum SendPhase {
    /// Not begun; no deadline.
    Begin,
    /// Waits for the cell of its reserved position, and how often it has looked.
    Reserved {
        pos: usize,
        waits: u32,
    },
    /// About to look for room.
    Attempt,
    /// Found no room; has to know whether its time is up.
    Clock,
    /// Looks for room again, so many times.
    Spin {
        left: u32,
    },
    /// Has to queue up, and needs to know whom to wake for that.
    Enlist,
    /// Queued up and parked.
    Parked {
        node: usize,
    },
    /// Over.
    Finished,
}

/// What a blocking send asks of its thread before the next step.
pub enum SendStep<T> {
    /// The send is over.
    Done(Result<(), SendError<T>>),
    /// Go on at once.
    Again,
    /// Pause for an instant.
    Spin,
    /// Give way to other threads.
    Yield,
    /// Sleep for a short while.
    Sleep,
    /// Look at the clock; the next event is `TimeLeft` or `Expired`.
    AskClock,
    /// The next event is `Thread`.
    AskThread,
    /// Park until woken, or until the deadline.
    Park,
}

/// What a blocking send is told with the next step.
pub enum SendEvent<W> {
    /// What it asked for has been done.
    Go,
    /// The deadline is still ahead.
    TimeLeft,
    /// The deadline passed so long ago.
    Expired(Duration),
    /// Whom to wake.
    Thread(W),
}

/// The pause after looking at a reserved position for the `waits`th time: an instant at
/// first, then giving way, then a sleep.
pub open spec fn pause_after<T>(waits: u32) -> SendStep<T> {
    if waits < SENDER_SPIN_COUNT {
        SendStep::Spin
    } else if waits < YIELD_UNTIL {
        SendStep::Yield
    } else {
        SendStep::Sleep
    }
}

fn pause<T>(waits: u32) -> (s: SendStep<T>)
    ensures
        s == pause_after::<T>(waits),
{
    if waits < SENDER_SPIN_COUNT {
        SendStep::Spin
    } else if waits < YIELD_UNTIL {
        SendStep::Yield
    } else {
        SendStep::Sleep
    }
}

/// A send that waits for room, one step at a time.
///
/// Between two steps other parties may use the channel. The item stays in the operation
/// until it is in the channel or handed back.
pub struct SendOp<T> {
    value: Option<T>,
    phase: SendPhase,
    timed: bool,
}

impl<T> SendOp<T> {
    pub closed spec fn value(&self) -> Option<T> {
        self.value
    }

    pub closed spec fn phase(&self) -> SendPhase {
        self.phase
    }

    pub closed spec fn timed(&self) -> bool {
        self.timed
    }

    /// The operation fits the channel: it has its item until it is over, and what it
    /// holds of the channel is there.
    pub open spec fn fits<W>(&self, m: ChannelModel<T, W>) -> bool {
        match self.phase() {
            SendPhase::Finished => self.value() is None,
            SendPhase::Begin => self.value() is Some && !self.timed(),
            SendPhase::Clock => self.value() is Some && self.timed(),
            SendPhase::Reserved { pos, waits } => self.value() is Some && m.is_reserved(pos),
            SendPhase::Parked { node } => self.value() is Some && m.send_waiters.blocking.holds(
                node,
            ),
            SendPhase::Spin { left } => self.value() is Some && left > 0,
            _ => self.value() is Some,
        }
    }

    /// The event is what the operation asked for.
    pub open spec fn expects<W>(&self, ev: SendEvent<W>) -> bool {
        match self.phase() {
            SendPhase::Finished => false,
            SendPhase::Clock => ev is TimeLeft || ev is Expired,
            SendPhase::Enlist => ev is Thread,
            _ => ev is Go,
        }
    }

    /// A send of `value` without a deadline.
    pub fn new(value: T) -> (op: Self)
        ensures
            op.value() == Some(value),
            op.phase() is Begin,
            !op.timed(),
    {
        SendOp { value: Some(value), phase: SendPhase::Begin, timed: false }
    }

    /// A send of `value` that gives up at a deadline.
    pub fn with_deadline(value: T) -> (op: Self)
        ensures
            op.value() == Some(value),
            op.phase() is Attempt,
            op.timed(),
    {
        SendOp { value: Some(value), phase: SendPhase::Attempt, timed: true }
    }

    /// The operation went on to `phase` with its item, and asked for `step`.
    pub open spec fn moved(
        &self,
        pre: &Self,
        phase: SendPhase,
        r: SendStep<T>,
        step: SendStep<T>,
    ) -> bool {
        &&& self.value() == pre.value()
        &&& self.timed() == pre.timed()
        &&& self.phase() == phase
        &&& r == step
    }

    /// The operation is over with `answer`.
    pub open spec fn over(&self, r: SendStep<T>, answer: Result<(), SendError<T>>) -> bool {
        &&& self.phase() is Finished
        &&& self.value() is None
        &&& r == SendStep::Done(answer)
    }

    /// The operation looked for room, or, finding none and nobody gone, went on to
    /// `phase`.
    pub open spec fn attempted<W>(
        &self,
        pre: &Self,
        m: ChannelModel<T, W>,
        m2: ChannelModel<T, W>,
        cap: int,
        phase: SendPhase,
        r: SendStep<T>,
        step: SendStep<T>,
    ) -> bool {
        let v = pre.value()->Some_0;
        if m.rx_closed {
            m2 == m && self.over(r, Err(SendError::Disconnected(v)))
        } else if m.can_push(cap) {
            m2 == m.sent(v) && self.over(r, Ok(()))
        } else {
            m2 == m && self.moved(pre, phase, r, step)
        }
    }

    /// What one step does: from the operation `pre` and the channel `m`, told `ev`, to
    /// this operation, the channel `m2` and the request `r`.
    pub open spec fn stepped<W>(
        &self,
        pre: &Self,
        m: ChannelModel<T, W>,
        ev: SendEvent<W>,
        cap: int,
        multi: bool,
        m2: ChannelModel<T, W>,
        r: SendStep<T>,
    ) -> bool {
        let v = pre.value()->Some_0;
        match pre.phase() {
            SendPhase::Begin => if !m.rx_closed && !m.can_push(cap) && multi {
                &&& m2 == m.reserved()
                &&& self.phase() is Reserved
                &&& offset(m.head, self.phase()->pos) == m.pending.len()
                &&& self.moved(
                    pre,
                    SendPhase::Reserved { pos: self.phase()->pos, waits: 1 },
                    r,
                    SendStep::Spin,
                )
            } else {
                self.attempted(
                    pre,
                    m,
                    m2,
                    cap,
                    SendPhase::Attempt,
                    r,
                    SendStep::Again,
                )
            },
            SendPhase::Reserved { pos, waits } => if offset(m.head, pos) < cap {
                m2 == m.filled(pos, v).receiver_notified() && self.over(r, Ok(()))
            } else if m.rx_closed {
                m2 == m && self.over(r, Err(SendError::Disconnected(v)))
            } else {
                let w: u32 = if waits == u32::MAX { waits } else { (waits + 1) as u32 };
                m2 == m && self.moved(
                    pre,
                    SendPhase::Reserved { pos, waits: w },
                    r,
                    pause_after(w),
                )
            },
            SendPhase::Attempt => if pre.timed() {
                self.attempted(
                    pre,
                    m,
                    m2,
                    cap,
                    SendPhase::Clock,
                    r,
                    SendStep::AskClock,
                )
            } else {
                self.attempted(
                    pre,
                    m,
                    m2,
                    cap,
                    SendPhase::Spin { left: SENDER_SPIN_COUNT },
                    r,
                    SendStep::Spin,
                )
            },
            SendPhase::Clock => match ev {
                SendEvent::Expired(d) => m2 == m && self.over(
                    r,
                    Err(SendError::TimeOut((v, d))),
                ),
                _ => m2 == m && self.moved(
                    pre,
                    SendPhase::Spin { left: SENDER_SPIN_COUNT },
                    r,
                    SendStep::Spin,
                ),
            },
            SendPhase::Spin { left } => if left > 1 {
                self.attempted(
                    pre,
                    m,
                    m2,
                    cap,
                    SendPhase::Spin { left: (left - 1) as u32 },
                    r,
                    SendStep::Spin,
                )
            } else {
                self.attempted(
                    pre,
                    m,
                    m2,
                    cap,
                    SendPhase::Enlist,
                    r,
                    SendStep::AskThread,
                )
            },
            SendPhase::Enlist => if m.rx_closed {
                m2 == m && self.over(r, Err(SendError::Disconnected(v)))
            } else if m.can_push(cap) {
                m2 == m.sent(v) && self.over(r, Ok(()))
            } else {
                &&& self.phase() is Parked
                &&& self.moved(pre, self.phase(), r, SendStep::Park)
                &&& !m.send_waiters.blocking.holds(self.phase()->node)
                &&& m2 == m.sender_parked(self.phase()->node, ev->Thread_0)
            },
            SendPhase::Parked { node } => {
                &&& m2 == m.sender_unparked(node)
                &&& self.moved(pre, SendPhase::Attempt, r, SendStep::Again)
            },
            SendPhase::Finished => true,
        }
    }

    /// One step of the send.
    pub fn step<const CAP: usize, W, I: InnerChannel<T, CAP, W>>(
        &mut self,
        inner: &mut I,
        ev: SendEvent<W>,
    ) -> (r: SendStep<T>)
        requires
            old(inner).wf(),
            old(self).fits(old(inner).model()),
            old(self).expects(ev),
            old(self).phase() is Begin ==> old(inner).model().pending.len() + CAP < word(),
        ensures
            final(inner).wf(),
            final(self).fits(final(inner).model()),
            final(self).stepped(
                old(self),
                old(inner).model(),
                ev,
                CAP as int,
                I::multi(),
                final(inner).model(),
                r,
            ),
    {
        let ghost m = inner.model();
        proof {
            // only a state whose positions can be reserved has one that is reserved
            if self.phase is Reserved {
                inner.lemma_sound();
                lemma_offset(m.head, self.phase->pos);
                assert(I::multi());
            }
        }
        match self.value.take() {
            None => SendStep::Again,
            Some(v) => match self.phase {
                SendPhase::Begin => {
                    if inner.is_rx_closed() {
                        self.phase = SendPhase::Finished;
                        return SendStep::Done(Err(SendError::Disconnected(v)));
                    }
                    match inner.push_blocking(v) {
                        Pushed::Done => {
                            inner.notify_receivers();
                            self.phase = SendPhase::Finished;
                            SendStep::Done(Ok(()))
                        },
                        Pushed::Refused(v) => {
                            self.value = Some(v);
                            self.phase = SendPhase::Attempt;
                            SendStep::Again
                        },
                        Pushed::Waiting { value, pos } => {
                            self.value = Some(value);
                            self.phase = SendPhase::Reserved { pos, waits: 1 };
                            SendStep::Spin
                        },
                    }
                },
                SendPhase::Reserved { pos, waits } => match inner.push_reserved(pos, v) {
                    Pushed::Done => {
                        inner.notify_receivers();
                        self.phase = SendPhase::Finished;
                        SendStep::Done(Ok(()))
                    },
                    Pushed::Refused(v) => {
                        self.phase = SendPhase::Finished;
                        SendStep::Done(Err(SendError::Disconnected(v)))
                    },
                    Pushed::Waiting { value, pos } => {
                        let waits: u32 = waits.saturating_add(1);
                        self.value = Some(value);
                        self.phase = SendPhase::Reserved { pos, waits };
                        pause(waits)
                    },
                },
                SendPhase::Attempt => {
                    if self.timed {
                        self.settle(try_send(inner, v), SendPhase::Clock, SendStep::AskClock)
                    } else {
                        self.settle(
                            try_send(inner, v),
                            SendPhase::Spin { left: SENDER_SPIN_COUNT },
                            SendStep::Spin,
                        )
                    }
                },
                SendPhase::Clock => match ev {
                    SendEvent::Expired(d) => {
                        self.phase = SendPhase::Finished;
                        SendStep::Done(Err(SendError::TimeOut((v, d))))
                    },
                    _ => {
                        self.value = Some(v);
                        self.phase = SendPhase::Spin { left: SENDER_SPIN_COUNT };
                        SendStep::Spin
                    },
                },
                SendPhase::Spin { left } => {
                    if left > 1 {
                        self.settle(
                            try_send(inner, v),
                            SendPhase::Spin { left: left - 1 },
                            SendStep::Spin,
                        )
                    } else {
                        self.settle(try_send(inner, v), SendPhase::Enlist, SendStep::AskThread)
                    }
                },
                SendPhase::Enlist => match ev {
                    SendEvent::Thread(w) => {
                        let node: usize = inner.sender_waiters().push_blocking(w);
                        proof {
                            let l = m.send_waiters.blocking.linked;
                            assert(l.push((node, w)).drop_last() =~= l);
                            let b = inner.model().send_waiters.blocking;
                            assert(b.at(node, l.len() as int));
                        }
                        match try_send(inner, v) {
                            Err(TrySendError::Full(v)) => {
                                self.value = Some(v);
                                self.phase = SendPhase::Parked { node };
                                SendStep::Park
                            },
                            r => {
                                inner.sender_waiters().remove(node);
                                proof {
                                    let a = inner.model().send_waiters.blocking;
                                    let b = m.send_waiters.blocking;
                                    assert(a.idle =~= b.idle);
                                    assert(a.linked =~= b.linked);
                                }
                                self.settle(r, SendPhase::Attempt, SendStep::Again)
                            },
                        }
                    },
                    _ => SendStep::Again,
                },
                SendPhase::Parked { node } => {
                    inner.sender_waiters().remove(node);
                    self.value = Some(v);
                    self.phase = SendPhase::Attempt;
                    SendStep::Again
                },
                SendPhase::Finished => SendStep::Again,
            },
        }
    }

    /// Turns the answer of one attempt into the next phase.
    fn settle(
        &mut self,
        r: Result<(), TrySendError<T>>,
        phase: SendPhase,
        step: SendStep<T>,
    ) -> (s: SendStep<T>)
        ensures
            final(self).timed == old(self).timed,
            match r {
                Ok(()) => {
                    &&& final(self).phase is Finished
                    &&& final(self).value == old(self).value
                    &&& s == SendStep::<T>::Done(Ok(()))
                },
                Err(TrySendError::Disconnected(v)) => {
                    &&& final(self).phase is Finished
                    &&& final(self).value == old(self).value
                    &&& s == SendStep::Done(Err(SendError::Disconnected(v)))
                },
                Err(TrySendError::Full(v)) => {
                    &&& final(self).phase == phase
                    &&& final(self).value == Some(v)
                    &&& s == step
                },
            },
    {
        match r {
            Ok(()) => {
                self.phase = SendPhase::Finished;
                SendStep::Done(Ok(()))
            },
            Err(TrySendError::Disconnected(v)) => {
                self.phase = SendPhase::Finished;
                SendStep::Done(Err(SendError::Disconnected(v)))
            },
            Err(TrySendError::Full(v)) => {
                self.value = Some(v);
                self.phase = phase;
                step
            },
        }
    }
}

/// A batch send that waits for room, one step at a time.
///
/// What has not been sent yet stays in the operation, in order.
pub struct SendBatchOp<T> {
    /// The items after the current one, last first.
    stack: Vec<T>,
    current: SendOp<T>,
    sent: usize,
}

/// What a batch send asks of its thread before the next step.
pub enum BatchStep<T> {
    /// The send is over.
    Done(Result<usize, BatchSendError<SendBatchError>>),
    /// The current item asks for this; it is never `Done`.
    Wait(SendStep<T>),
}

/// How a batch send began.
pub enum BatchStart<T> {
    /// It is over already.
    Done(Result<usize, BatchSendError<SendBatchError>>),
    /// There was no room for all items; the rest goes one by one.
    Wait(SendBatchOp<T>),
}

/// How a batch send of `buf` begins: from the channel `m` to the channel `m2`, with
/// `buf2` left in the buffer and answer `r`.
pub open spec fn batch_began<T, W>(
    m: ChannelModel<T, W>,
    cap: int,
    buf: Seq<T>,
    timed: bool,
    m2: ChannelModel<T, W>,
    buf2: Seq<T>,
    r: BatchStart<T>,
) -> bool {
    let n = m.room(cap, buf.len() as int);
    let rest = buf.subrange(n, buf.len() as int);
    &&& m2 == m.pushed_all(buf.subrange(0, n)).receivers_notified(n as nat)
    &&& if m.rx_closed {
        &&& r == BatchStart::<T>::Done(
            Err(BatchSendError { sent: 0, err: SendBatchError::Disconnected }),
        )
        &&& buf2 == rest
    } else if rest.len() == 0 {
        r == BatchStart::<T>::Done(Ok(n as usize)) && buf2 == rest
    } else {
        &&& r is Wait
        &&& buf2.len() == 0
        &&& r->Wait_0.remaining() == rest
        &&& r->Wait_0.sent() == n
        &&& r->Wait_0.fits(m2)
        &&& r->Wait_0.current().value() == Some(rest[0])
        &&& r->Wait_0.current().timed() == timed
        &&& if timed {
            r->Wait_0.current().phase() is Attempt
        } else {
            r->Wait_0.current().phase() is Begin
        }
    }
}

impl<T> SendBatchOp<T> {
    /// What has not been sent yet, in order.
    pub closed spec fn remaining(&self) -> Seq<T> {
        match self.current.value() {
            Some(v) => seq![v] + unstacked(self.stack@),
            None => unstacked(self.stack@),
        }
    }

    pub closed spec fn sent(&self) -> usize {
        self.sent
    }

    /// The send of the item whose turn it is.
    pub closed spec fn current(&self) -> SendOp<T> {
        self.current
    }

    /// The operation fits the channel, and it can count what it sends.
    pub open spec fn fits<W>(&self, m: ChannelModel<T, W>) -> bool {
        &&& self.current().fits(m)
        &&& self.sent() + self.remaining().len() <= usize::MAX
    }

    /// Sends what there is room for, and sets out to send the rest with waiting. If the
    /// send is over at once, `buf` holds what was not sent; otherwise the operation does.
    pub fn begin<const CAP: usize, W, I: InnerChannel<T, CAP, W>>(
        inner: &mut I,
        buf: &mut Vec<T>,
        timed: bool,
    ) -> (r: BatchStart<T>)
        requires
            old(inner).wf(),
        ensures
            final(inner).wf(),
            batch_began(
                old(inner).model(),
                CAP as int,
                old(buf)@,
                timed,
                final(inner).model(),
                final(buf)@,
                r,
            ),
    {
        let ghost b0 = buf@;
        let ghost len0 = buf.len();
        match try_send_batch(inner, buf) {
            Ok(n) => BatchStart::Done(Ok(n)),
            Err(e) => match e.err {
                TrySendBatchError::Disconnected => BatchStart::Done(
                    Err(BatchSendError { sent: 0, err: SendBatchError::Disconnected }),
                ),
                TrySendBatchError::Full => {
                    let ghost rest = buf@;
                    let mut stack = stacked(buf);
                    let ghost full = stack@;
                    match stack.pop() {
                        None => {
                            proof {
                                assert(full.len() == rest.len());
                                assert(false);
                            }
                            BatchStart::Done(Ok(e.sent))
                        },
                        Some(v) => {
                            let current = if timed {
                                SendOp::with_deadline(v)
                            } else {
                                SendOp::new(v)
                            };
                            let op = SendBatchOp { stack, current, sent: e.sent };
                            proof {
                                assert(full[full.len() - 1] == rest[0]);
                                assert forall|i: int| 0 <= i < rest.len() implies op.remaining()[i]
                                    == rest[i] by {
                                    if i > 0 {
                                        assert(unstacked(op.stack@)[i - 1] == full[full.len() - 1 - i]);
                                    }
                                }
                                assert(op.remaining() =~= rest);
                            }
                            BatchStart::Wait(op)
                        },
                    }
                },
            },
        }
    }

    /// What a step of the current item's send, to `mid` with request `s`, makes of the
    /// batch `pre`: this batch, with request `r`.
    pub open spec fn advanced(
        &self,
        pre: &Self,
        mid: SendOp<T>,
        s: SendStep<T>,
        r: BatchStep<T>,
    ) -> bool {
        match s {
            SendStep::Done(Ok(())) => {
                &&& self.sent() == pre.sent() + 1
                &&& self.remaining() == pre.remaining().drop_first()
                &&& if pre.remaining().len() == 1 {
                    r == BatchStep::<T>::Done(Ok(self.sent()))
                } else {
                    &&& r == BatchStep::<T>::Wait(SendStep::Again)
                    &&& self.current().timed() == pre.current().timed()
                    &&& self.current().value() == Some(pre.remaining()[1])
                    &&& if pre.current().timed() {
                        self.current().phase() is Attempt
                    } else {
                        self.current().phase() is Begin
                    }
                }
            },
            SendStep::Done(Err(e)) => {
                &&& self.sent() == pre.sent()
                &&& self.remaining() == pre.remaining()
                &&& r == BatchStep::<T>::Done(
                    Err(
                        BatchSendError {
                            sent: pre.sent(),
                            err: if e is TimeOut {
                                SendBatchError::TimeOut
                            } else {
                                SendBatchError::Disconnected
                            },
                        },
                    ),
                )
            },
            _ => {
                &&& self.sent() == pre.sent()
                &&& self.remaining() == pre.remaining()
                &&& self.current() == mid
                &&& r == BatchStep::Wait(s)
            },
        }
    }

    /// One step: the current item's send goes on; when it is over, the next item's turn
    /// comes. `sent` counts the items that went.
    pub fn step<const CAP: usize, W, I: InnerChannel<T, CAP, W>>(
        &mut self,
        inner: &mut I,
        ev: SendEvent<W>,
    ) -> (r: BatchStep<T>)
        requires
            old(inner).wf(),
            old(self).fits(old(inner).model()),
            old(self).current().expects(ev),
            old(self).current().phase() is Begin ==> old(inner).model().pending.len() + CAP
                < word(),
        ensures
            final(inner).wf(),
            final(self).fits(final(inner).model()),
            exists|mid: SendOp<T>, s: SendStep<T>| #[trigger]
                mid.stepped(
                    &old(self).current(),
                    old(inner).model(),
                    ev,
                    CAP as int,
                    I::multi(),
                    final(inner).model(),
                    s,
                ) && final(self).advanced(old(self), mid, s, r),
    {
        let ghost v0 = self.current.value()->Some_0;
        let ghost rem = self.remaining();
        assert(rem.drop_first() =~= unstacked(self.stack@));
        let timed = self.current.timed;
        let s = self.current.step(inner, ev);
        let ghost mid = self.current;
        let ghost s0 = s;
        assert(mid.stepped(
            &old(self).current(),
            old(inner).model(),
            ev,
            CAP as int,
            I::multi(),
            inner.model(),
            s0,
        ));
        match s {
            SendStep::Done(Ok(())) => {
                let ghost full = self.stack@;
                self.sent = self.sent + 1;
                match self.stack.pop() {
                    None => BatchStep::Done(Ok(self.sent)),
                    Some(v) => {
                        self.current = if timed {
                            SendOp::with_deadline(v)
                        } else {
                            SendOp::new(v)
                        };
                        proof {
                            assert forall|i: int| 0 <= i < full.len() implies self.remaining()[i]
                                == unstacked(full)[i] by {
                                if i > 0 {
                                    assert(unstacked(self.stack@)[i - 1] == full[full.len() - 1 - i]);
                                }
                            }
                            assert(self.remaining() =~= unstacked(full));
                        }
                        BatchStep::Wait(SendStep::Again)
                    },
                }
            },
            SendStep::Done(Err(e)) => {
                let err = if e.is_timeout() {
                    SendBatchError::TimeOut
                } else {
                    SendBatchError::Disconnected
                };
                let ghost full = self.stack@;
                self.stack.push(e.into_inner());
                proof {
                    assert(unstacked(self.stack@) =~= rem) by {
                        assert forall|i: int| 0 <= i < rem.len() implies unstacked(self.stack@)[i]
                            == rem[i] by {
                            if i > 0 {
                                assert(rem[i] == unstacked(full)[i - 1]);
                            }
                        }
                    }
                }
                BatchStep::Done(Err(BatchSendError { sent: self.sent, err }))
            },
            s => BatchStep::Wait(s),
        }
    }

    /// What was not sent, in order.
    pub fn into_remaining(self) -> (r: Vec<T>)
        ensures
            r@ == self.remaining(),
    {
        let SendBatchOp { stack, current, sent } = self;
        let mut stack = stack;
        let ghost full = stack@;
        let ghost held = current.value is Some;
        match current.value {
            Some(v) => stack.push(v),
            None => {},
        }
        let r = turned(stack);
        proof {
            if held {
                    assert forall|i: int| 0 <= i < r@.len() implies r@[i] == self.remaining()[i] by {
                        if i > 0 {
                            assert(unstacked(full)[i - 1] == full[full.len() - 1 - (i - 1)]);
                        }
                    }
                assert(r@ =~= self.remaining());
            }
        }
        r
    }
}

/// What a poll of a pending send says.
pub enum SendPoll<T> {
    /// The item is in the channel, or comes back because the receivers are gone.
    Ready(Result<(), T>),
    /// There is no room yet; the task will be woken.
    Pending,
}

/// One poll of a pending send.
///
/// The item is in `value` before, and again after a poll that stays pending; an empty
/// `value` means that the send is over, and is answered with success. `slot` is the task's
/// place in the queue, if it has one; a send that is over has none.
pub fn poll_send<T, const CAP: usize, W, I: InnerChannel<T, CAP, W>>(
    inner: &mut I,
    value: &mut Option<T>,
    slot: &mut Option<usize>,
    waker: W,
) -> (r: SendPoll<T>)
    requires
        old(inner).wf(),
        *old(slot) is Some ==> old(inner).model().send_waiters.tasks.holds((*old(slot))->Some_0),
    ensures
        final(inner).wf(),
        poll_sent(
            old(inner).model(),
            CAP as int,
            *old(value),
            *old(slot),
            waker,
            final(inner).model(),
            *final(value),
            *final(slot),
            r,
        ),
{
    let ghost m = inner.model();
    let s = slot.take();
    match value.take() {
        None => {
            inner.sender_waiters().cancel_slot(s);
            SendPoll::Ready(Ok(()))
        },
        Some(v) => match try_send(inner, v) {
            Ok(()) => {
                inner.sender_waiters().cancel_slot(s);
                SendPoll::Ready(Ok(()))
            },
            Err(TrySendError::Disconnected(v)) => {
                inner.sender_waiters().cancel_slot(s);
                SendPoll::Ready(Err(v))
            },
            Err(TrySendError::Full(v)) => {
                let id: usize = inner.sender_waiters().wait_async(s, waker);
                *slot = Some(id);
                *value = Some(v);
                SendPoll::Pending
            },
        },
    }
}

/// What a poll does: from the channel `m`, the item and the slot to the channel `m2`, the
/// item and the slot afterwards, with answer `r`.
pub open spec fn poll_sent<T, W>(
    m: ChannelModel<T, W>,
    cap: int,
    value: Option<T>,
    slot: Option<usize>,
    waker: W,
    m2: ChannelModel<T, W>,
    value2: Option<T>,
    slot2: Option<usize>,
    r: SendPoll<T>,
) -> bool {
    match value {
        None => {
            &&& r == SendPoll::<T>::Ready(Ok(()))
            &&& m2 == m.send_task_gone(slot)
            &&& value2 is None
            &&& slot2 is None
        },
        Some(v) => if m.rx_closed {
            &&& r == SendPoll::Ready(Err(v))
            &&& m2 == m.send_task_gone(slot)
            &&& value2 is None
            &&& slot2 is None
        } else if m.can_push(cap) {
            &&& r == SendPoll::<T>::Ready(Ok(()))
            &&& m2 == m.sent(v).send_task_gone(slot)
            &&& value2 is None
            &&& slot2 is None
        } else {
            &&& r is Pending
            &&& value2 == value
            &&& slot2 is Some
            &&& m.send_waiters.task_waits(slot, waker, slot2->Some_0, m2.send_waiters)
            &&& m2 == (ChannelModel { send_waiters: m2.send_waiters, ..m })
        },
    }
}

/// Gives up a pending send. If it leaves without having sent, the wake-up that it may have
/// used up goes to the next sender.
pub fn drop_send_state<T, const CAP: usize, W, I: InnerChannel<T, CAP, W>>(
    inner: &mut I,
    value: &Option<T>,
    slot: &mut Option<usize>,
)
    requires
        old(inner).wf(),
        *old(slot) is Some ==> old(inner).model().send_waiters.tasks.holds((*old(slot))->Some_0),
    ensures
        final(inner).wf(),
        *final(slot) is None,
        final(inner).model() == if *old(slot) is Some && value is Some {
            old(inner).model().send_task_gone(*old(slot)).sender_notified()
        } else {
            old(inner).model().send_task_gone(*old(slot))
        },
        final(inner).model().pending == old(inner).model().pending,
{
    let s = slot.take();
    inner.sender_waiters().cancel_slot(s);
    if s.is_some() && value.is_some() {
        inner.notify_senders();
    }
}

/// A send that a task awaits, and that owns its item.
pub struct GenericSendFuture<T> {
    value: Option<T>,
    slot: Option<usize>,
}

impl<T> GenericSendFuture<T> {
    pub closed spec fn value(&self) -> Option<T> {
        self.value
    }

    pub closed spec fn slot(&self) -> Option<usize> {
        self.slot
    }

    /// The slot, if there is one, is in the channel.
    pub open spec fn fits<W>(&self, m: ChannelModel<T, W>) -> bool {
        self.slot() is Some ==> m.send_waiters.tasks.holds(self.slot()->Some_0)
    }

    pub fn new(value: T) -> (f: Self)
        ensures
            f.value() == Some(value),
            f.slot() is None,
    {
        GenericSendFuture { value: Some(value), slot: None }
    }

    /// `None` while the send is pending.
    pub fn poll<const CAP: usize, W, I: InnerChannel<T, CAP, W>>(
        &mut self,
        inner: &mut I,
        waker: W,
    ) -> (r: Option<Result<(), AsyncSendError<T>>>)
        requires
            old(inner).wf(),
            old(self).fits(old(inner).model()),
        ensures
            final(inner).wf(),
            final(self).fits(final(inner).model()),
            poll_sent(
                old(inner).model(),
                CAP as int,
                old(self).value(),
                old(self).slot(),
                waker,
                final(inner).model(),
                final(self).value(),
                final(self).slot(),
                match r {
                    None => SendPoll::Pending,
                    Some(Ok(())) => SendPoll::Ready(Ok(())),
                    Some(Err(AsyncSendError::Disconnected(v))) => SendPoll::Ready(Err(v)),
                },
            ),
            old(self).value() is Some && (r matches Some(Ok(_))) ==> final(inner).model().pending
                == old(inner).model().pending.push(old(self).value()),
            old(self).value() is None || !(r matches Some(Ok(_))) ==> final(inner).model().pending
                == old(inner).model().pending,
            r matches Some(Err(AsyncSendError::Disconnected(v))) ==> old(self).value() == Some(v),
    {
        match poll_send(inner, &mut self.value, &mut self.slot, waker) {
            SendPoll::Ready(Ok(())) => Some(Ok(())),
            SendPoll::Ready(Err(v)) => Some(Err(AsyncSendError::Disconnected(v))),
            SendPoll::Pending => None,
        }
    }

    /// Gives the send up.
    pub fn cancel<const CAP: usize, W, I: InnerChannel<T, CAP, W>>(
        self,
        inner: &mut I,
    ) -> (r: Option<T>)
        requires
            old(inner).wf(),
            self.fits(old(inner).model()),
        ensures
            final(inner).wf(),
            r == self.value(),
            final(inner).model() == if self.slot() is Some && self.value() is Some {
                old(inner).model().send_task_gone(self.slot()).sender_notified()
            } else {
                old(inner).model().send_task_gone(self.slot())
            },
    {
        let GenericSendFuture { value, slot } = self;
        let mut slot = slot;
        drop_send_state(inner, &value, &mut slot);
        value
    }
}

/// A send that a task awaits, and whose item stays with the caller until it is sent.
pub struct SendPending {
    slot: Option<usize>,
}

impl SendPending {
    pub closed spec fn slot(&self) -> Option<usize> {
        self.slot
    }

    pub open spec fn fits<T, W>(&self, m: ChannelModel<T, W>) -> bool {
        self.slot() is Some ==> m.send_waiters.tasks.holds(self.slot()->Some_0)
    }

    pub fn new() -> (f: Self)
        ensures
            f.slot() is None,
    {
        SendPending { slot: None }
    }

    /// `None` while the send is pending. After any outcome but success the item is in
    /// `value`.
    pub fn poll<T, const CAP: usize, W, I: InnerChannel<T, CAP, W>>(
        &mut self,
        inner: &mut I,
        value: &mut Option<T>,
        waker: W,
    ) -> (r: Option<Result<(), AsyncSendRefError>>)
        requires
            old(inner).wf(),
            old(self).fits(old(inner).model()),
        ensures
            final(inner).wf(),
            final(self).fits(final(inner).model()),
            ({
                let m = old(inner).model();
                let m2 = final(inner).model();
                match *old(value) {
                    None => {
                        &&& r == Some(Ok::<(), AsyncSendRefError>(()))
                        &&& *final(value) is None
                        &&& final(self).slot() is None
                        &&& m2 == m.send_task_gone(old(self).slot())
                    },
                    Some(v) => if m.rx_closed {
                        &&& r == Some(Err::<(), _>(AsyncSendRefError::Disconnected))
                        &&& *final(value) == Some(v)
                        &&& final(self).slot() is None
                        &&& m2 == m.send_task_gone(old(self).slot())
                    } else if m.can_push(CAP as int) {
                        &&& r == Some(Ok::<(), AsyncSendRefError>(()))
                        &&& *final(value) is None
                        &&& final(self).slot() is None
                        &&& m2 == m.sent(v).send_task_gone(old(self).slot())
                    } else {
                        &&& r is None
                        &&& *final(value) == Some(v)
                        &&& final(self).slot() is Some
                        &&& m.send_waiters.task_waits(
                            old(self).slot(),
                            waker,
                            final(self).slot()->Some_0,
                            m2.send_waiters,
                        )
                        &&& m2 == (ChannelModel { send_waiters: m2.send_waiters, ..m })
                    },
                }
            }),
            *old(value) is Some && (r matches Some(Ok(_))) ==> final(inner).model().pending
                == old(inner).model().pending.push(*old(value)),
            *old(value) is None || !(r matches Some(Ok(_))) ==> final(inner).model().pending
                == old(inner).model().pending && *final(value) == *old(value),
    {
        match poll_send(inner, value, &mut self.slot, waker) {
            SendPoll::Ready(Ok(())) => Some(Ok(())),
            SendPoll::Ready(Err(v)) => {
                *value = Some(v);
                Some(Err(AsyncSendRefError::Disconnected))
            },
            SendPoll::Pending => None,
        }
    }

    /// Gives the send up; the item stays in `value`.
    pub fn cancel<T, const CAP: usize, W, I: InnerChannel<T, CAP, W>>(
        self,
        inner: &mut I,
        value: &Option<T>,
    )
        requires
            old(inner).wf(),
            self.fits(old(inner).model()),
        ensures
            final(inner).wf(),
            final(inner).model() == if self.slot() is Some && value is Some {
                old(inner).model().send_task_gone(self.slot()).sender_notified()
            } else {
                old(inner).model().send_task_gone(self.slot())
            },
    {
        let SendPending { slot } = self;
        let mut slot = slot;
        drop_send_state(inner, value, &mut slot);
    }
}

/// A batch that is sent item by item: the items to come in a stack, and the one on its way.
///
/// However the send ends, `restore` gives back what was not sent, in order.
pub struct Restore<T> {
    stack: Vec<T>,
    pending: Option<T>,
}

impl<T> Restore<T> {
    /// The item on its way.
    pub closed spec fn pending(&self) -> Option<T> {
        self.pending
    }

    /// The items to come, in order.
    pub closed spec fn rest(&self) -> Seq<T> {
        unstacked(self.stack@)
    }

    /// What `restore` gives back.
    pub open spec fn remaining(&self) -> Seq<T> {
        match self.pending() {
            Some(v) => seq![v] + self.rest(),
            None => self.rest(),
        }
    }

    pub fn new(buf: &mut Vec<T>) -> (g: Self)
        ensures
            g.rest() == old(buf)@,
            g.pending() is None,
            final(buf)@.len() == 0,
    {
        Restore { stack: stacked(buf), pending: None }
    }

    /// The place of the item on its way.
    pub fn slot(&mut self) -> (r: &mut Option<T>)
        ensures
            *r == old(self).pending(),
            final(self).pending() == *final(r),
            final(self).rest() == old(self).rest(),
    {
        &mut self.pending
    }

    /// There is an item on its way.
    pub fn is_pending(&self) -> (b: bool)
        ensures
            b == (self.pending() is Some),
    {
        self.pending.is_some()
    }

    /// Sets out to send the next item; `false` if there is none.
    pub fn next(&mut self) -> (b: bool)
        requires
            old(self).pending() is None,
        ensures
            b == (old(self).rest().len() > 0),
            b ==> {
                &&& final(self).pending() == Some(old(self).rest()[0])
                &&& final(self).rest() == old(self).rest().drop_first()
            },
            !b ==> final(self).pending() is None && final(self).rest() == old(self).rest(),
    {
        let ghost full = self.stack@;
        match self.stack.pop() {
            None => false,
            Some(v) => {
                self.pending = Some(v);
                assert(unstacked(self.stack@) =~= unstacked(full).drop_first());
                true
            },
        }
    }

    /// Puts what was not sent in front of what `buf` holds now, which is nothing unless
    /// the caller put something there.
    pub fn restore(self, buf: &mut Vec<T>)
        ensures
            final(buf)@ == self.remaining() + old(buf)@,
    {
        let ghost b = buf@;
        let ghost rem = self.remaining();
        let Restore { stack, pending } = self;
        let mut stack = stack;
        let ghost full = stack@;
        let ghost held = pending is Some;
        match pending {
            Some(v) => stack.push(v),
            None => {},
        }
        let mut r = turned(stack);
        proof {
            if held {
                assert forall|i: int| 0 <= i < r@.len() implies r@[i] == rem[i] by {
                    if i > 0 {
                        assert(unstacked(full)[i - 1] == full[full.len() - 1 - (i - 1)]);
                    }
                }
            }
            assert(r@ =~= rem);
        }
        r.append(buf);
        buf.append(&mut r);
        assert(buf@ =~= rem + b);
    }
}

} // verus!
