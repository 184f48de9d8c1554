use super::errors::{AsyncRecvError, RecvError, TryRecvError};
use super::model::ChannelModel;
use super::traits::InnerChannel;
use crate::ring::values;
use std::time::Duration;
use vstd::prelude::*;

verus! {

/// How often a receiver looks again before it stops burning its core.
pub const SPIN_COUNT: u32 = 128;

/// What one attempt to receive gives: the channel afterwards, and the answer.
pub open spec fn try_received<T, W>(m: ChannelModel<T, W>) -> (
    ChannelModel<T, W>,
    Result<T, TryRecvError>,
) {
    if m.can_pop() {
        (m.received(), Ok(m.pending[0]->Some_0))
    } else if m.drained() {
        (m, Err(TryRecvError::Disconnected))
    } else {
        (m, Err(TryRecvError::Empty))
    }
}

/// Receives the oldest item if there is one.
pub fn try_recv<T, const CAP: usize, W, I: InnerChannel<T, CAP, W>>(inner: &mut I) -> (r: Result<
    T,
    TryRecvError,
>)
    requires
        old(inner).wf(),
    ensures
        final(inner).wf(),
        (final(inner).model(), r) == try_received(old(inner).model()),
        r is Ok <==> old(inner).model().pending.len() > 0 && old(inner).model().pending[0] is Some,
        r matches Ok(v) ==> old(inner).model().pending[0] == Some(v) && final(inner).model().pending == old(inner).model().pending.drop_first(),
        r is Err ==> final(inner).model() == old(inner).model(),
{
    match inner.pop() {
        Some(v) => {
            inner.notify_senders();
            Ok(v)
        },
        None => {
            if inner.is_tx_closed() && inner.is_empty() {
                Err(TryRecvError::Disconnected)
            } else {
                Err(TryRecvError::Empty)
            }
        },
    }
}

/// Receives up to `max` items into `buf` and wakes a sender for each. The flag says that
/// there were none and none will come.
pub fn batch<T, const CAP: usize, W, I: InnerChannel<T, CAP, W>>(
    inner: &mut I,
    buf: &mut Vec<T>,
    max: usize,
) -> (r: (usize, bool))
    requires
        old(inner).wf(),
    ensures
        final(inner).wf(),
        ({
            let m = old(inner).model();
            let n = m.available(max as int);
            &&& r.0 == n
            &&& r.1 == (n == 0 && m.drained())
            &&& final(buf)@ == old(buf)@ + values(m.pending.subrange(0, n))
            &&& final(inner).model() == m.popped_n(n).senders_notified(n as nat)
        }),
{
    let (n, dc) = inner.pop_batch(buf, max);
    inner.notify_senders_n(n);
    (n, dc)
}

/// Receives up to `max` items into `buf` without waiting.
pub fn try_recv_batch<T, const CAP: usize, W, I: InnerChannel<T, CAP, W>>(
    inner: &mut I,
    buf: &mut Vec<T>,
    max: usize,
) -> (r: (usize, bool))
    requires
        old(inner).wf(),
    ensures
        final(inner).wf(),
        ({
            let m = old(inner).model();
            let n = m.available(max as int);
            &&& r.0 == n
            &&& r.1 == (n == 0 && m.drained())
            &&& final(buf)@ == old(buf)@ + values(m.pending.subrange(0, n))
            &&& final(inner).model() == m.popped_n(n).senders_notified(n as nat)
        }),
{
    batch(inner, buf, max)
}

/// Where a blocking receive stands.
#[derive(Clone, Copy)]
pub enum RecvPhase {
    /// About to look for an item.
    Attempt,
    /// Found none; has to know whether its time is up.
    Clock,
    /// Looks for an item again, so many times.
    Spin {
        left: u32,
    },
    /// Looks once more before it queues up.
    Recheck,
    /// Has to queue up, and needs to know whom to wake for that.
    Enlist,
    /// Queued up and parked.
    Parked {
        node: usize,
    },
    /// Over.
    Finished,
}

/// What a blocking receive asks of its thread before the next step.
pub enum RecvStep<T> {
    /// The receive is over.
    Done(Result<T, RecvError>),
    /// Go on at once.
    Again,
    /// Pause for an instant.
    Spin,
    /// Give way to other threads.
    Yield,
    /// Look at the clock; the next event is `TimeLeft` or `Expired`.
    AskClock,
    /// The next event is `Thread`.
    AskThread,
    /// Park until woken, or until the deadline.
    Park,
}

/// What a blocking receive is told with the next step.
pub enum RecvEvent<W> {
    /// What it asked for has been done.
    Go,
    /// The deadline is still ahead.
    TimeLeft,
    /// The time is up; so long was the wait.
    Expired(Duration),
    /// Whom to wake.
    Thread(W),
}

/// A receive that waits for an item, one step at a time.
pub struct RecvOp {
    phase: RecvPhase,
    timed: bool,
    spins: bool,
}

impl RecvOp {
    pub closed spec fn phase(&self) -> RecvPhase {
        self.phase
    }

    pub closed spec fn timed(&self) -> bool {
        self.timed
    }

    /// The operation spins and gives way before it queues up.
    pub closed spec fn spins(&self) -> bool {
        self.spins
    }

    /// What the operation holds of the channel is there.
    pub open spec fn fits<T, W>(&self, m: ChannelModel<T, W>) -> bool {
        match self.phase() {
            RecvPhase::Clock => self.timed(),
            RecvPhase::Spin { left } => left > 0,
            RecvPhase::Parked { node } => m.recv_waiters.blocking.holds(node),
            _ => true,
        }
    }

    /// The event is what the operation asked for.
    pub open spec fn expects<W>(&self, ev: RecvEvent<W>) -> bool {
        match self.phase() {
            RecvPhase::Finished => false,
            RecvPhase::Clock => ev is TimeLeft || ev is Expired,
            RecvPhase::Enlist => ev is Thread,
            _ => ev is Go,
        }
    }

    /// A receive, with a deadline if `timed`.
    pub fn new(timed: bool) -> (op: Self)
        ensures
            op.phase() is Attempt,
            op.timed() == timed,
            op.spins(),
    {
        RecvOp { phase: RecvPhase::Attempt, timed, spins: true }
    }

    /// A receive that queues up at once when there is no item, for systems on which waiting
    /// with a busy processor does not pay.
    pub fn without_spin(timed: bool) -> (op: Self)
        ensures
            op.phase() is Attempt,
            op.timed() == timed,
            !op.spins(),
    {
        RecvOp { phase: RecvPhase::Attempt, timed, spins: false }
    }

    /// Where a receive that found nothing goes on: it spins, or looks once more and queues
    /// up.
    pub open spec fn patience(&self) -> RecvPhase {
        if self.spins() {
            RecvPhase::Spin { left: SPIN_COUNT }
        } else {
            RecvPhase::Recheck
        }
    }

    /// What it asks for then.
    pub open spec fn pause<T>(&self) -> RecvStep<T> {
        if self.spins() {
            RecvStep::Spin
        } else {
            RecvStep::Again
        }
    }

    pub open spec fn moved<T>(
        &self,
        pre: &Self,
        phase: RecvPhase,
        r: RecvStep<T>,
        step: RecvStep<T>,
    ) -> bool {
        &&& self.timed() == pre.timed()
        &&& self.spins() == pre.spins()
        &&& self.phase() == phase
        &&& r == step
    }

    pub open spec fn over<T>(&self, r: RecvStep<T>, answer: Result<T, RecvError>) -> bool {
        self.phase() is Finished && r == RecvStep::Done(answer)
    }

    /// The operation looked for an item, or, finding none but more to come, went on to
    /// `phase`.
    pub open spec fn attempted<T, W>(
        &self,
        pre: &Self,
        m: ChannelModel<T, W>,
        m2: ChannelModel<T, W>,
        phase: RecvPhase,
        r: RecvStep<T>,
        step: RecvStep<T>,
    ) -> bool {
        if m.can_pop() {
            m2 == m.received() && self.over(r, Ok(m.pending[0]->Some_0))
        } else if m.drained() {
            m2 == m && self.over(r, Err(RecvError::Disconnected))
        } else {
            m2 == m && self.moved(pre, phase, r, step)
        }
    }

    /// What one step does: from the operation `pre` and the channel `m`, told `ev`, to
    /// this operation, the channel `m2` and the request `r`.
    pub open spec fn stepped<T, W>(
        &self,
        pre: &Self,
        m: ChannelModel<T, W>,
        ev: RecvEvent<W>,
        m2: ChannelModel<T, W>,
        r: RecvStep<T>,
    ) -> bool {
        match pre.phase() {
            RecvPhase::Attempt => if pre.timed() {
                self.attempted(pre, m, m2, RecvPhase::Clock, r, RecvStep::AskClock)
            } else {
                self.attempted(pre, m, m2, pre.patience(), r, pre.pause())
            },
            RecvPhase::Clock => match ev {
                RecvEvent::Expired(d) => m2 == m && self.over(r, Err(RecvError::TimeOut(d))),
                _ => m2 == m && self.moved(pre, pre.patience(), r, pre.pause()),
            },
            RecvPhase::Spin { left } => if m.can_pop() {
                m2 == m.received() && self.over(r, Ok(m.pending[0]->Some_0))
            } else if left > 1 {
                m2 == m && self.moved(
                    pre,
                    RecvPhase::Spin { left: (left - 1) as u32 },
                    r,
                    RecvStep::Spin,
                )
            } else {
                m2 == m && self.moved(pre, RecvPhase::Recheck, r, RecvStep::Yield)
            },
            RecvPhase::Recheck => self.attempted(
                pre,
                m,
                m2,
                RecvPhase::Enlist,
                r,
                RecvStep::AskThread,
            ),
            RecvPhase::Enlist => if m.can_pop() {
                m2 == m.received() && self.over(r, Ok(m.pending[0]->Some_0))
            } else if m.drained() {
                m2 == m && self.over(r, Err(RecvError::Disconnected))
            } else {
                &&& self.phase() is Parked
                &&& self.moved(pre, self.phase(), r, RecvStep::Park)
                &&& !m.recv_waiters.blocking.holds(self.phase()->node)
                &&& m2 == m.receiver_parked(self.phase()->node, ev->Thread_0)
            },
            RecvPhase::Parked { node } => {
                &&& m2 == m.receiver_unparked(node)
                &&& self.moved(pre, RecvPhase::Attempt, r, RecvStep::Again)
            },
            RecvPhase::Finished => true,
        }
    }

    /// One step of the receive.
    pub fn step<T, const CAP: usize, W, I: InnerChannel<T, CAP, W>>(
        &mut self,
        inner: &mut I,
        ev: RecvEvent<W>,
    ) -> (r: RecvStep<T>)
        requires
            old(inner).wf(),
            old(self).fits(old(inner).model()),
            old(self).expects(ev),
        ensures
            final(inner).wf(),
            final(self).fits(final(inner).model()),
            final(self).stepped(old(self), old(inner).model(), ev, final(inner).model(), r),
    {
        let ghost m = inner.model();
        match self.phase {
            RecvPhase::Attempt => {
                if self.timed {
                    self.settle(try_recv(inner), RecvPhase::Clock, RecvStep::AskClock)
                } else if self.spins {
                    self.settle(
                        try_recv(inner),
                        RecvPhase::Spin { left: SPIN_COUNT },
                        RecvStep::Spin,
                    )
                } else {
                    self.settle(try_recv(inner), RecvPhase::Recheck, RecvStep::Again)
                }
            },
            RecvPhase::Clock => match ev {
                RecvEvent::Expired(d) => {
                    self.phase = RecvPhase::Finished;
                    RecvStep::Done(Err(RecvError::TimeOut(d)))
                },
                _ => {
                    if self.spins {
                        self.phase = RecvPhase::Spin { left: SPIN_COUNT };
                        RecvStep::Spin
                    } else {
                        self.phase = RecvPhase::Recheck;
                        RecvStep::Again
                    }
                },
            },
            RecvPhase::Spin { left } => match inner.pop() {
                Some(v) => {
                    inner.notify_senders();
                    self.phase = RecvPhase::Finished;
                    RecvStep::Done(Ok(v))
                },
                None => {
                    if left > 1 {
                        self.phase = RecvPhase::Spin { left: left - 1 };
                        RecvStep::Spin
                    } else {
                        self.phase = RecvPhase::Recheck;
                        RecvStep::Yield
                    }
                },
            },
            RecvPhase::Recheck => {
                self.settle(try_recv(inner), RecvPhase::Enlist, RecvStep::AskThread)
            },
            RecvPhase::Enlist => match ev {
                RecvEvent::Thread(w) => {
                    let node: usize = inner.receiver_waiters().push_blocking(w);
                    proof {
                        let l = m.recv_waiters.blocking.linked;
                        assert(l.push((node, w)).drop_last() =~= l);
                        assert(inner.model().recv_waiters.blocking.at(node, l.len() as int));
                    }
                    match try_recv(inner) {
                        Err(TryRecvError::Empty) => {
                            self.phase = RecvPhase::Parked { node };
                            RecvStep::Park
                        },
                        r => {
                            inner.receiver_waiters().remove(node);
                            proof {
                                let a = inner.model().recv_waiters.blocking;
                                let b = m.recv_waiters.blocking;
                                assert(a.idle =~= b.idle);
                                assert(a.linked =~= b.linked);
                            }
                            self.settle(r, RecvPhase::Attempt, RecvStep::Again)
                        },
                    }
                },
                _ => RecvStep::Again,
            },
            RecvPhase::Parked { node } => {
                inner.receiver_waiters().remove(node);
                self.phase = RecvPhase::Attempt;
                RecvStep::Again
            },
            RecvPhase::Finished => RecvStep::Again,
        }
    }

    /// Turns the answer of one attempt into the next phase.
    fn settle<T>(
        &mut self,
        r: Result<T, TryRecvError>,
        phase: RecvPhase,
        step: RecvStep<T>,
    ) -> (s: RecvStep<T>)
        ensures
            final(self).timed == old(self).timed,
            final(self).spins == old(self).spins,
            match r {
                Ok(v) => final(self).phase is Finished && s == RecvStep::Done(Ok(v)),
                Err(TryRecvError::Disconnected) => {
                    &&& final(self).phase is Finished
                    &&& s == RecvStep::<T>::Done(Err(RecvError::Disconnected))
                },
                Err(TryRecvError::Empty) => final(self).phase == phase && s == step,
            },
    {
        match r {
            Ok(v) => {
                self.phase = RecvPhase::Finished;
                RecvStep::Done(Ok(v))
            },
            Err(TryRecvError::Disconnected) => {
                self.phase = RecvPhase::Finished;
                RecvStep::Done(Err(RecvError::Disconnected))
            },
            Err(TryRecvError::Empty) => {
                self.phase = phase;
                step
            },
        }
    }
}

/// The answer to a batch receive of at most `max` items if it need not wait for a first
/// one.
pub fn recv_batch_begin<T, const CAP: usize, W, I: InnerChannel<T, CAP, W>>(
    inner: &I,
    max: usize,
) -> (r: Option<(usize, bool)>)
    requires
        inner.wf(),
    ensures
        r == if max == 0 {
            Some((0usize, inner.model().drained()))
        } else {
            None
        },
{
    if max == 0 {
        Some((0, inner.is_tx_closed() && inner.is_empty()))
    } else {
        None
    }
}

/// What a batch receive does after the wait for the first item ended with `first`: from the
/// channel `m` and the items `buf` to the channel `m2` and the items `buf2`. So many items
/// came; `dc` says that after the first item, if it came, there were none and none will come.
pub open spec fn batch_received<T, W>(
    m: ChannelModel<T, W>,
    buf: Seq<T>,
    max: int,
    first: Result<T, RecvError>,
    m2: ChannelModel<T, W>,
    buf2: Seq<T>,
    count: int,
    dc: bool,
) -> bool {
    match first {
        Ok(v) => {
            let n = m.available(max - 1);
            &&& count == 1 + n
            &&& dc == (n == 0 && m.drained())
            &&& buf2 == buf.push(v) + values(m.pending.subrange(0, n))
            &&& m2 == m.popped_n(n).senders_notified(n as nat)
        },
        Err(e) => {
            &&& count == 0
            &&& dc == (e is Disconnected)
            &&& buf2 == buf
            &&& m2 == m
        },
    }
}

/// A batch receive of at most `max` items, after the wait for the first one ended with
/// `first`: the rest is taken without waiting.
pub fn recv_batch<T, const CAP: usize, W, I: InnerChannel<T, CAP, W>>(
    inner: &mut I,
    buf: &mut Vec<T>,
    max: usize,
    first: Result<T, RecvError>,
) -> (r: (usize, bool))
    requires
        old(inner).wf(),
        max > 0,
    ensures
        final(inner).wf(),
        batch_received(
            old(inner).model(),
            old(buf)@,
            max as int,
            first,
            final(inner).model(),
            final(buf)@,
            r.0 as int,
            r.1,
        ),
{
    match first {
        Ok(v) => {
            buf.push(v);
            let (n, dc) = batch(inner, buf, max - 1);
            (1 + n, dc)
        },
        Err(RecvError::Disconnected) => (0, true),
        Err(RecvError::TimeOut(_)) => (0, false),
    }
}

/// What a poll of a pending receive says.
pub enum RecvPoll<T> {
    /// An item, or that none will come.
    Ready(Result<T, AsyncRecvError>),
    /// There is none yet; the task will be woken.
    Pending,
}

/// What a poll does: from the channel `m` and the slot to the channel `m2` and the slot
/// afterwards, with answer `r`.
pub open spec fn poll_received<T, W>(
    m: ChannelModel<T, W>,
    slot: Option<usize>,
    waker: W,
    m2: ChannelModel<T, W>,
    slot2: Option<usize>,
    r: RecvPoll<T>,
) -> bool {
    if m.can_pop() {
        &&& r == RecvPoll::Ready(Ok(m.pending[0]->Some_0))
        &&& m2 == m.received().recv_task_gone(slot)
        &&& slot2 is None
    } else if m.drained() {
        &&& r == RecvPoll::<T>::Ready(Err(AsyncRecvError::Disconnected))
        &&& m2 == m.recv_task_gone(slot)
        &&& slot2 is None
    } else {
        &&& r is Pending
        &&& slot2 is Some
        &&& m.recv_waiters.task_waits(slot, waker, slot2->Some_0, m2.recv_waiters)
        &&& m2 == (ChannelModel { recv_waiters: m2.recv_waiters, ..m })
    }
}

/// One poll of a pending receive. `slot` is the task's place in the queue, if it has one.
pub fn poll_recv<T, const CAP: usize, W, I: InnerChannel<T, CAP, W>>(
    inner: &mut I,
    slot: &mut Option<usize>,
    waker: W,
) -> (r: RecvPoll<T>)
    requires
        old(inner).wf(),
        *old(slot) is Some ==> old(inner).model().recv_waiters.tasks.holds((*old(slot))->Some_0),
    ensures
        final(inner).wf(),
        poll_received(
            old(inner).model(),
            *old(slot),
            waker,
            final(inner).model(),
            *final(slot),
            r,
        ),
{
    let s = slot.take();
    match try_recv(inner) {
        Ok(v) => {
            inner.receiver_waiters().cancel_slot(s);
            RecvPoll::Ready(Ok(v))
        },
        Err(TryRecvError::Disconnected) => {
            inner.receiver_waiters().cancel_slot(s);
            RecvPoll::Ready(Err(AsyncRecvError::Disconnected))
        },
        Err(TryRecvError::Empty) => {
            let id: usize = inner.receiver_waiters().wait_async(s, waker);
            *slot = Some(id);
            RecvPoll::Pending
        },
    }
}

/// Gives up a pending receive; the wake-up that it may have used up goes to the next
/// receiver.
pub fn drop_recv_state<T, const CAP: usize, W, I: InnerChannel<T, CAP, W>>(
    inner: &mut I,
    slot: Option<usize>,
)
    requires
        old(inner).wf(),
        slot is Some ==> old(inner).model().recv_waiters.tasks.holds(slot->Some_0),
    ensures
        final(inner).wf(),
        final(inner).model() == if slot is Some {
            old(inner).model().recv_task_gone(slot).receiver_notified()
        } else {
            old(inner).model()
        },
{
    if slot.is_some() {
        inner.receiver_waiters().cancel_slot(slot);
        inner.notify_receivers();
    }
}

/// A receive that a task awaits.
pub struct GenericRecvFuture {
    slot: Option<usize>,
}

impl GenericRecvFuture {
    pub closed spec fn slot(&self) -> Option<usize> {
        self.slot
    }

    /// The slot, if there is one, is in the channel.
    pub open spec fn fits<T, W>(&self, m: ChannelModel<T, W>) -> bool {
        self.slot() is Some ==> m.recv_waiters.tasks.holds(self.slot()->Some_0)
    }

    pub fn new() -> (f: Self)
        ensures
            f.slot() is None,
    {
        GenericRecvFuture { slot: None }
    }

    /// `None` while the receive is pending.
    pub fn poll<T, const CAP: usize, W, I: InnerChannel<T, CAP, W>>(
        &mut self,
        inner: &mut I,
        waker: W,
    ) -> (r: Option<Result<T, AsyncRecvError>>)
        requires
            old(inner).wf(),
            old(self).fits(old(inner).model()),
        ensures
            final(inner).wf(),
            final(self).fits(final(inner).model()),
            poll_received(
                old(inner).model(),
                old(self).slot(),
                waker,
                final(inner).model(),
                final(self).slot(),
                match r {
                    None => RecvPoll::Pending,
                    Some(a) => RecvPoll::Ready(a),
                },
            ),
    {
        match poll_recv(inner, &mut self.slot, waker) {
            RecvPoll::Ready(a) => Some(a),
            RecvPoll::Pending => None,
        }
    }

    /// Gives the receive up.
    pub fn cancel<T, const CAP: usize, W, I: InnerChannel<T, CAP, W>>(self, inner: &mut I)
        requires
            old(inner).wf(),
            self.fits(old(inner).model()),
        ensures
            final(inner).wf(),
            final(inner).model() == if self.slot() is Some {
                old(inner).model().recv_task_gone(self.slot()).receiver_notified()
            } else {
                old(inner).model()
            },
    {
        drop_recv_state(inner, self.slot);
    }
}

/// The items of a channel as a task sees them come in.
pub struct GenericRecvStream {
    slot: Option<usize>,
}

impl GenericRecvStream {
    pub closed spec fn slot(&self) -> Option<usize> {
        self.slot
    }

    /// The slot, if there is one, is in the channel.
    pub open spec fn fits<T, W>(&self, m: ChannelModel<T, W>) -> bool {
        self.slot() is Some ==> m.recv_waiters.tasks.holds(self.slot()->Some_0)
    }

    pub fn new() -> (f: Self)
        ensures
            f.slot() is None,
    {
        GenericRecvStream { slot: None }
    }

    /// `None` while the next item is pending, `Some(None)` at the end.
    pub fn poll_next<T, const CAP: usize, W, I: InnerChannel<T, CAP, W>>(
        &mut self,
        inner: &mut I,
        waker: W,
    ) -> (r: Option<Option<T>>)
        requires
            old(inner).wf(),
            old(self).fits(old(inner).model()),
        ensures
            final(inner).wf(),
            final(self).fits(final(inner).model()),
            poll_received(
                old(inner).model(),
                old(self).slot(),
                waker,
                final(inner).model(),
                final(self).slot(),
                match r {
                    None => RecvPoll::Pending,
                    Some(Some(v)) => RecvPoll::Ready(Ok(v)),
                    Some(None) => RecvPoll::Ready(Err(AsyncRecvError::Disconnected)),
                },
            ),
    {
        match poll_recv(inner, &mut self.slot, waker) {
            RecvPoll::Ready(Ok(v)) => Some(Some(v)),
            RecvPoll::Ready(Err(_)) => Some(None),
            RecvPoll::Pending => None,
        }
    }

    /// Ends the stream.
    pub fn cancel<T, const CAP: usize, W, I: InnerChannel<T, CAP, W>>(self, inner: &mut I)
        requires
            old(inner).wf(),
            self.fits(old(inner).model()),
        ensures
            final(inner).wf(),
            final(inner).model() == if self.slot() is Some {
                old(inner).model().recv_task_gone(self.slot()).receiver_notified()
            } else {
                old(inner).model()
            },
    {
        drop_recv_state(inner, self.slot);
    }
}

} // verus!
