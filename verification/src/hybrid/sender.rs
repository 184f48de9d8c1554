use super::errors::{AsyncSendError, ResultAsyncSender, ResultSender, SendError};
use super::inner::{line_waits, Inner, LinkModel};
use crate::stack::{stacked, turned, unstacked};
use std::time::Duration;
use vstd::prelude::*;

verus! {

/// What one attempt to send `v` gives: the channel afterwards, and the answer.
pub open spec fn try_sent<T, W>(m: LinkModel<T, W>, cap: int, v: T) -> (
    LinkModel<T, W>,
    ResultSender<(), T>,
) {
    if m.rx_closed {
        (m, Err(SendError::Disconnected(v)))
    } else if m.items.len() < cap {
        (m.sent(v), Ok(()))
    } else {
        (m, Err(SendError::Full(v)))
    }
}

/// Sends `value` if there is room and somebody to receive it.
pub fn try_send<T, const CAP: usize, const MULTI: bool, W>(
    inner: &mut Inner<T, CAP, MULTI, W>,
    value: T,
) -> (r: ResultSender<(), T>)
    requires
        old(inner).wf(),
    ensures
        final(inner).wf(),
        (final(inner)@, r) == try_sent(old(inner)@, CAP as int, value),
        r is Ok <==> !old(inner)@.rx_closed && old(inner)@.items.len() < CAP,
        r is Ok ==> final(inner)@.items == old(inner)@.items.push(value),
        r matches Err(e) ==> e.item() == value && final(inner)@ == old(inner)@,
{
    if inner.is_rx_closed() {
        return Err(SendError::Disconnected(value));
    }
    match inner.push(value) {
        Ok(()) => {
            inner.notify_receivers();
            Ok(())
        },
        Err(v) => Err(SendError::Full(v)),
    }
}

/// Where a blocking send stands.
#[derive(Clone, Copy)]
pub enum SendPhase {
    /// About to look for room.
    Attempt,
    /// Found none; has to know whether its time is up.
    Clock,
    /// Has to queue up, and needs to know whom to wake for that.
    Enlist,
    /// Queued up and parked.
    Parked {
        node: usize,
    },
    /// Over.
    Finished,
}

/// What a blocking send asks of its thread before the next step.
pub enum SendStep<T> {
    /// The send is over.
    Done(ResultSender<(), T>),
    /// Go on at once.
    Again,
    /// Look at the clock; the next event is `TimeLeft` or `Expired`.
    AskClock,
    /// The next event is `Thread`.
    AskThread,
    /// Park until woken, or until the deadline.
    Park,
}

/// What a blocking operation is told with the next step.
pub enum WaitEvent<W> {
    /// What it asked for has been done.
    Go,
    /// The deadline is still ahead.
    TimeLeft,
    /// The deadline passed so long ago.
    Expired(Duration),
    /// Whom to wake.
    Thread(W),
}

/// A send that waits for room, one step at a time. The item stays in the operation until
/// it is in the channel or handed back.
pub struct SendOp<T> {
    value: Option<T>,
    phase: SendPhase,
    timed: bool,
}

impl<T> SendOp<T> {
    pub closed spec fn value(&self) -> Option<T> {
        self.value
    }

    pub closed spec fn phase(&self) -> SendPhase {
        self.phase
    }

    pub closed spec fn timed(&self) -> bool {
        self.timed
    }

    /// The operation has its item until it is over, and its node is in the line.
    pub open spec fn fits<W>(&self, m: LinkModel<T, W>) -> bool {
        match self.phase() {
            SendPhase::Finished => self.value() is None,
            SendPhase::Parked { node } => self.value() is Some && m.send_waiters.holds(node),
            _ => self.value() is Some,
        }
    }

    /// The event is what the operation asked for.
    pub open spec fn expects<W>(&self, ev: WaitEvent<W>) -> bool {
        match self.phase() {
            SendPhase::Finished => false,
            SendPhase::Clock => ev is TimeLeft || ev is Expired,
            SendPhase::Enlist => ev is Thread,
            _ => ev is Go,
        }
    }

    /// A send of `value`, with a deadline if `timed`.
    pub fn new(value: T, timed: bool) -> (op: Self)
        ensures
            op.value() == Some(value),
            op.phase() is Attempt,
            op.timed() == timed,
    {
        SendOp { value: Some(value), phase: SendPhase::Attempt, timed }
    }

    pub open spec fn moved(
        &self,
        pre: &Self,
        phase: SendPhase,
        r: SendStep<T>,
        step: SendStep<T>,
    ) -> bool {
        &&& self.value() == pre.value()
        &&& self.timed() == pre.timed()
        &&& self.phase() == phase
        &&& r == step
    }

    pub open spec fn over(&self, r: SendStep<T>, answer: ResultSender<(), T>) -> bool {
        &&& self.phase() is Finished
        &&& self.value() is None
        &&& r == SendStep::Done(answer)
    }

    /// What one step does: from the operation `pre` and the channel `m`, told `ev`, to
    /// this operation, the channel `m2` and the request `r`.
    pub open spec fn stepped<W>(
        &self,
        pre: &Self,
        m: LinkModel<T, W>,
        ev: WaitEvent<W>,
        cap: int,
        m2: LinkModel<T, W>,
        r: SendStep<T>,
    ) -> bool {
        let v = pre.value()->Some_0;
        match pre.phase() {
            SendPhase::Attempt => if m.rx_closed {
                m2 == m && self.over(r, Err(SendError::Disconnected(v)))
            } else if m.items.len() < cap {
                m2 == m.sent(v) && self.over(r, Ok(()))
            } else if pre.timed() {
                m2 == m && self.moved(pre, SendPhase::Clock, r, SendStep::AskClock)
            } else {
                m2 == m && self.moved(pre, SendPhase::Enlist, r, SendStep::AskThread)
            },
            SendPhase::Clock => match ev {
                WaitEvent::Expired(d) => m2 == m && self.over(r, Err(SendError::TimeOut((v, d)))),
                _ => m2 == m && self.moved(pre, SendPhase::Enlist, r, SendStep::AskThread),
            },
            SendPhase::Enlist => if m.rx_closed {
                m2 == m && self.over(r, Err(SendError::Disconnected(v)))
            } else if m.items.len() < cap {
                m2 == m.sent(v) && self.over(r, Ok(()))
            } else {
                &&& self.phase() is Parked
                &&& self.moved(pre, self.phase(), r, SendStep::Park)
                &&& !m.send_waiters.holds(self.phase()->node)
                &&& m2 == (LinkModel {
                    send_waiters: m.send_waiters.joined_by(self.phase()->node, ev->Thread_0),
                    ..m
                })
            },
            SendPhase::Parked { node } => {
                &&& m2 == m.send_wait_left(Some(node))
                &&& self.moved(pre, SendPhase::Attempt, r, SendStep::Again)
            },
            SendPhase::Finished => true,
        }
    }

    /// One step of the send.
    pub fn step<const CAP: usize, const MULTI: bool, W>(
        &mut self,
        inner: &mut Inner<T, CAP, MULTI, W>,
        ev: WaitEvent<W>,
    ) -> (r: SendStep<T>)
        requires
            old(inner).wf(),
            old(self).fits(old(inner)@),
            old(self).expects(ev),
        ensures
            final(inner).wf(),
            final(self).fits(final(inner)@),
            final(self).stepped(old(self), old(inner)@, ev, CAP as int, final(inner)@, r),
    {
        let ghost m = inner@;
        match self.value.take() {
            None => SendStep::Again,
            Some(v) => match self.phase {
                SendPhase::Attempt => match try_send(inner, v) {
                    Err(SendError::Full(v)) => {
                        self.value = Some(v);
                        if self.timed {
                            self.phase = SendPhase::Clock;
                            SendStep::AskClock
                        } else {
                            self.phase = SendPhase::Enlist;
                            SendStep::AskThread
                        }
                    },
                    r => {
                        self.phase = SendPhase::Finished;
                        SendStep::Done(r)
                    },
                },
                SendPhase::Clock => match ev {
                    WaitEvent::Expired(d) => {
                        self.phase = SendPhase::Finished;
                        SendStep::Done(Err(SendError::TimeOut((v, d))))
                    },
                    _ => {
                        self.value = Some(v);
                        self.phase = SendPhase::Enlist;
                        SendStep::AskThread
                    },
                },
                SendPhase::Enlist => match ev {
                    WaitEvent::Thread(w) => {
                        let node: usize = inner.sender_waiters().push_blocking(w);
                        proof {
                            let l = m.send_waiters.linked;
                            assert(l.push((node, w)).drop_last() =~= l);
                        }
                        match try_send(inner, v) {
                            Err(SendError::Full(v)) => {
                                self.value = Some(v);
                                self.phase = SendPhase::Parked { node };
                                SendStep::Park
                            },
                            r => {
                                inner.sender_waiters().remove(node);
                                proof {
                                    assert(inner@.send_waiters.idle =~= m.send_waiters.idle);
                                    assert(inner@.send_waiters.linked =~= m.send_waiters.linked);
                                }
                                self.phase = SendPhase::Finished;
                                SendStep::Done(r)
                            },
                        }
                    },
                    _ => SendStep::Again,
                },
                SendPhase::Parked { node } => {
                    inner.sender_waiters().remove(node);
                    self.value = Some(v);
                    self.phase = SendPhase::Attempt;
                    SendStep::Again
                },
                SendPhase::Finished => SendStep::Again,
            },
        }
    }
}

/// A batch that is sent item by item, with waiting.
pub struct SendBatchOp<T> {
    /// The items after the current one, last first.
    stack: Vec<T>,
    sent: usize,
}

impl<T> SendBatchOp<T> {
    /// The items that have not been set on their way, in order.
    pub closed spec fn rest(&self) -> Seq<T> {
        unstacked(self.stack@)
    }

    pub closed spec fn sent(&self) -> usize {
        self.sent
    }

    /// A send of all items in `buf`.
    pub fn new(buf: &mut Vec<T>) -> (b: Self)
        ensures
            b.rest() == old(buf)@,
            b.sent() == 0,
            final(buf)@.len() == 0,
    {
        SendBatchOp { stack: stacked(buf), sent: 0 }
    }

    /// The next item to send.
    pub fn next(&mut self) -> (r: Option<T>)
        ensures
            final(self).sent() == old(self).sent(),
            r is Some <==> old(self).rest().len() > 0,
            r is Some ==> {
                &&& r == Some(old(self).rest()[0])
                &&& final(self).rest() == old(self).rest().drop_first()
            },
            r is None ==> final(self).rest() == old(self).rest(),
    {
        let ghost pre = self.rest();
        let r = self.stack.pop();
        proof {
            if r is Some {
                assert(self.rest() =~= pre.drop_first());
            } else {
                assert(self.rest() =~= pre);
            }
        }
        r
    }

    /// Notes what became of the item: `true` if the batch goes on. An item that was not sent
    /// goes back to the front, and the batch is over.
    pub fn settle(&mut self, r: ResultSender<(), T>) -> (more: bool)
        requires
            old(self).sent() < usize::MAX,
        ensures
            more == (r is Ok),
            match r {
                Ok(()) => {
                    &&& final(self).sent() == old(self).sent() + 1
                    &&& final(self).rest() == old(self).rest()
                },
                Err(e) => {
                    &&& final(self).sent() == old(self).sent()
                    &&& final(self).rest() == seq![e.item()] + old(self).rest()
                },
            },
    {
        let ghost pre = self.rest();
        match r {
            Ok(()) => {
                self.sent = self.sent + 1;
                true
            },
            Err(e) => {
                let ghost v = e.item();
                self.stack.push(e.into_inner());
                assert(self.rest() =~= seq![v] + pre);
                false
            },
        }
    }

    /// The same for an item whose send a task awaited.
    pub fn settle_async(&mut self, r: ResultAsyncSender<(), T>) -> (more: bool)
        requires
            old(self).sent() < usize::MAX,
        ensures
            more == (r is Ok),
            match r {
                Ok(()) => {
                    &&& final(self).sent() == old(self).sent() + 1
                    &&& final(self).rest() == old(self).rest()
                },
                Err(AsyncSendError::Disconnected(v)) => {
                    &&& final(self).sent() == old(self).sent()
                    &&& final(self).rest() == seq![v] + old(self).rest()
                },
            },
    {
        match r {
            Ok(()) => self.settle(Ok(())),
            Err(AsyncSendError::Disconnected(v)) => self.settle(Err(SendError::Disconnected(v))),
        }
    }

    /// Puts what was not sent into `buf`, in order, and says how many items were.
    pub fn finish(self, buf: &mut Vec<T>) -> (n: usize)
        ensures
            n == self.sent(),
            final(buf)@ == old(buf)@ + self.rest(),
    {
        let SendBatchOp { stack, sent } = self;
        let mut rest = turned(stack);
        buf.append(&mut rest);
        sent
    }
}

/// A send that a task awaits.
pub struct SenderFuture<T> {
    value: Option<T>,
    node: Option<usize>,
}

impl<T> SenderFuture<T> {
    pub closed spec fn value(&self) -> Option<T> {
        self.value
    }

    /// The task's node in the line, while it waits.
    pub closed spec fn node(&self) -> Option<usize> {
        self.node
    }

    pub open spec fn fits<W>(&self, m: LinkModel<T, W>) -> bool {
        self.node() is Some ==> m.send_waiters.holds(self.node()->Some_0)
    }

    pub fn new(value: T) -> (f: Self)
        ensures
            f.value() == Some(value),
            f.node() is None,
    {
        SenderFuture { value: Some(value), node: None }
    }

    /// Leaves the line, if the task is in it.
    fn leave<const CAP: usize, const MULTI: bool, W>(&mut self, inner: &mut Inner<T, CAP, MULTI, W>)
        requires
            old(inner).wf(),
            old(self).fits(old(inner)@),
        ensures
            final(inner).wf(),
            final(inner)@ == old(inner)@.send_wait_left(old(self).node()),
            final(self).node() is None,
            final(self).value() == old(self).value(),
    {
        match self.node.take() {
            Some(id) => inner.sender_waiters().remove(id),
            None => {},
        }
    }

    /// `None` while the send is pending, and forever once it has been answered.
    pub fn poll<const CAP: usize, const MULTI: bool, W>(
        &mut self,
        inner: &mut Inner<T, CAP, MULTI, W>,
        waker: W,
    ) -> (r: Option<ResultAsyncSender<(), T>>)
        requires
            old(inner).wf(),
            old(self).fits(old(inner)@),
        ensures
            final(inner).wf(),
            final(self).fits(final(inner)@),
            ({
                let m = old(inner)@;
                let m2 = final(inner)@;
                match old(self).value() {
                    None => {
                        &&& r is None
                        &&& m2 == m.send_wait_left(old(self).node())
                        &&& final(self).value() is None
                        &&& final(self).node() is None
                    },
                    Some(v) => if m.rx_closed {
                        &&& r == Some(Err::<(), _>(AsyncSendError::Disconnected(v)))
                        &&& m2 == m.send_wait_left(old(self).node())
                        &&& final(self).value() is None
                        &&& final(self).node() is None
                    } else if m.items.len() < CAP {
                        &&& r == Some(Ok::<(), AsyncSendError<T>>(()))
                        &&& m2 == m.sent(v).send_wait_left(old(self).node())
                        &&& final(self).value() is None
                        &&& final(self).node() is None
                    } else {
                        &&& r is None
                        &&& final(self).value() == Some(v)
                        &&& final(self).node() is Some
                        &&& line_waits(
                            m.send_waiters,
                            old(self).node(),
                            waker,
                            final(self).node()->Some_0,
                            m2.send_waiters,
                        )
                        &&& m2 == (LinkModel { send_waiters: m2.send_waiters, ..m })
                    },
                }
            }),
            r matches Some(Ok(_)) ==> final(inner)@.items == old(inner)@.items.push(
                old(self).value()->Some_0,
            ),
            !(r matches Some(Ok(_))) ==> final(inner)@.items == old(inner)@.items && final(inner)@.woken == old(inner)@.woken,
            r matches Some(Err(AsyncSendError::Disconnected(v))) ==> old(self).value() == Some(v)
                && old(inner)@.rx_closed,
            old(self).value() is Some && !old(inner)@.rx_closed && old(inner)@.items.len() < CAP
                ==> r matches Some(Ok(_)),
            r is None ==> final(self).value() == old(self).value(),
    {
        match self.value.take() {
            None => {
                self.leave(inner);
                None
            },
            Some(v) => match try_send(inner, v) {
                Ok(()) => {
                    self.leave(inner);
                    Some(Ok(()))
                },
                Err(SendError::Full(v)) => {
                    match self.node {
                        None => {
                            let id: usize = inner.sender_waiters().push_async(waker);
                            self.node = Some(id);
                        },
                        Some(id) => {
                            inner.sender_waiters().update_or_repush_async(id, waker);
                        },
                    }
                    self.value = Some(v);
                    None
                },
                Err(e) => {
                    self.leave(inner);
                    Some(Err(AsyncSendError::Disconnected(e.into_inner())))
                },
            },
        }
    }

    /// Gives the send up. If it leaves the line without having sent, the wake-up that it
    /// may have used up goes to the next sender.
    pub fn cancel<const CAP: usize, const MULTI: bool, W>(
        self,
        inner: &mut Inner<T, CAP, MULTI, W>,
    ) -> (r: Option<T>)
        requires
            old(inner).wf(),
            self.fits(old(inner)@),
        ensures
            final(inner).wf(),
            r == self.value(),
            final(inner)@ == if self.node() is Some && self.value() is Some {
                old(inner)@.send_wait_left(self.node()).sender_notified()
            } else {
                old(inner)@.send_wait_left(self.node())
            },
            final(inner)@.items == old(inner)@.items,
            final(inner)@.recv_waiters == old(inner)@.recv_waiters,
    {
        let waited = self.node.is_some();
        let mut this = self;
        this.leave(inner);
        if waited && this.value.is_some() {
            inner.notify_senders();
        }
        this.value
    }
}

} // verus!
