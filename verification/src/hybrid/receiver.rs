use super::errors::{AsyncRecvError, RecvError, ResultAsyncReceiver, ResultReceiver};
use super::inner::{line_waits, Inner, LinkModel};
use super::sender::WaitEvent;
use vstd::prelude::*;

verus! {

/// What one attempt to receive gives: the channel afterwards, and the answer.
pub open spec fn try_received<T, W>(m: LinkModel<T, W>) -> (LinkModel<T, W>, ResultReceiver<T>) {
    if m.items.len() > 0 {
        (m.received(), Ok(m.items[0]))
    } else if m.tx_closed {
        (m, Err(RecvError::Disconnected))
    } else {
        (m, Err(RecvError::Empty))
    }
}

/// Receives the oldest item if there is one.
pub fn try_recv<T, const CAP: usize, const MULTI: bool, W>(
    inner: &mut Inner<T, CAP, MULTI, W>,
) -> (r: ResultReceiver<T>)
    requires
        old(inner).wf(),
    ensures
        final(inner).wf(),
        (final(inner)@, r) == try_received(old(inner)@),
        r is Ok <==> old(inner)@.items.len() > 0,
        r matches Ok(v) ==> v == old(inner)@.items[0] && final(inner)@.items == old(
            inner,
        )@.items.drop_first(),
        r is Err ==> final(inner)@ == old(inner)@,
{
    match inner.pop() {
        Some(v) => {
            inner.notify_senders();
            Ok(v)
        },
        None => {
            if inner.is_tx_closed() && inner.is_empty() {
                Err(RecvError::Disconnected)
            } else {
                Err(RecvError::Empty)
            }
        },
    }
}

/// How many of `have` items a batch of at most `max` takes.
pub open spec fn batch_size(have: int, max: int) -> int {
    if max < have {
        max
    } else {
        have
    }
}

/// The channel after `n` items were received at once: one sender is woken for all of them.
pub open spec fn batch_received<T, W>(m: LinkModel<T, W>, n: int) -> LinkModel<T, W> {
    if n > 0 {
        m.popped_n(n).sender_notified()
    } else {
        m
    }
}

/// Receives up to `max` items into `buf` without waiting. The flag says that there were
/// none and none will come.
pub fn recv_batch_now<T, const CAP: usize, const MULTI: bool, W>(
    inner: &mut Inner<T, CAP, MULTI, W>,
    buf: &mut Vec<T>,
    max: usize,
) -> (r: (usize, bool))
    requires
        old(inner).wf(),
    ensures
        final(inner).wf(),
        ({
            let m = old(inner)@;
            let n = batch_size(m.items.len() as int, max as int);
            &&& r.0 == n
            &&& r.1 == (n == 0 && m.drained())
            &&& final(buf)@ == old(buf)@ + m.items.subrange(0, n)
            &&& final(inner)@ == batch_received(m, n)
        }),
        r.0 <= max,
        r.0 <= old(inner)@.items.len(),
        r.0 == max || final(inner)@.items.len() == 0,
        final(inner)@.items == old(inner)@.items.subrange(
            r.0 as int,
            old(inner)@.items.len() as int,
        ),
        final(buf)@.len() == old(buf)@.len() + r.0,
        r.1 ==> r.0 == 0 && old(inner)@.tx_closed && old(inner)@.items.len() == 0,
{
    let ghost m = inner@;
    let ghost b0 = buf@;
    let mut n: usize = 0;
    proof {
        assert(m.items.subrange(0, m.items.len() as int) =~= m.items);
        assert(b0 =~= b0 + m.items.subrange(0, 0));
    }
    let mut more = true;
    while n < max && more
        invariant
            n <= max,
            n <= m.items.len(),
            inner.wf(),
            inner@ == m.popped_n(n as int),
            buf@ == b0 + m.items.subrange(0, n as int),
            !more ==> n == m.items.len(),
        decreases
            max - n,
            (if more {
                1int
            } else {
                0int
            }),
    {
        let ghost q = inner@.items;
        match inner.pop() {
            Some(v) => {
                buf.push(v);
                proof {
                    assert(q.drop_first() =~= m.items.subrange(n + 1, m.items.len() as int));
                    assert(b0 + m.items.subrange(0, n + 1) =~= (b0 + m.items.subrange(
                        0,
                        n as int,
                    )).push(v));
                }
                n = n + 1;
            },
            None => {
                more = false;
            },
        }
    }
    if n > 0 {
        inner.notify_senders();
    } else {
        assert(m.popped_n(0).items =~= m.items);
    }
    let dc = n == 0 && inner.is_tx_closed() && inner.is_empty();
    (n, dc)
}

/// The answer of a batch receive of no items, which does not look at the channel; `None` if
/// it has to wait for an item.
pub fn recv_batch_begin(max: usize) -> (r: Option<(usize, bool)>)
    ensures
        r == if max == 0 {
            Some((0usize, false))
        } else {
            None
        },
{
    if max == 0 {
        Some((0, false))
    } else {
        None
    }
}

/// What a batch receive does after the wait for the first item ended with `first`: from the
/// channel `m` and the items `buf` to the channel `m2` and the items `buf2`. So many items
/// came; `dc` says that after the first item, if it came, there were none and none will come.
pub open spec fn batch_joined<T, W>(
    m: LinkModel<T, W>,
    buf: Seq<T>,
    max: int,
    first: ResultReceiver<T>,
    m2: LinkModel<T, W>,
    buf2: Seq<T>,
    count: int,
    dc: bool,
) -> bool {
    match first {
        Ok(v) => {
            let n = batch_size(m.items.len() as int, max - 1);
            &&& count == 1 + n
            &&& dc == (n == 0 && m.drained())
            &&& buf2 == buf.push(v) + m.items.subrange(0, n)
            &&& m2 == batch_received(m, n)
        },
        Err(e) => {
            &&& count == 0
            &&& dc == (e is Disconnected)
            &&& buf2 == buf
            &&& m2 == m
        },
    }
}

/// A batch receive of at most `max` items, after the wait for the first one ended with
/// `first`: the rest is taken without waiting.
pub fn recv_batch<T, const CAP: usize, const MULTI: bool, W>(
    inner: &mut Inner<T, CAP, MULTI, W>,
    buf: &mut Vec<T>,
    max: usize,
    first: ResultReceiver<T>,
) -> (r: (usize, bool))
    requires
        old(inner).wf(),
        max > 0,
    ensures
        final(inner).wf(),
        batch_joined(
            old(inner)@,
            old(buf)@,
            max as int,
            first,
            final(inner)@,
            final(buf)@,
            r.0 as int,
            r.1,
        ),
{
    match first {
        Ok(v) => {
            buf.push(v);
            let (n, dc) = recv_batch_now(inner, buf, max - 1);
            (1 + n, dc)
        },
        Err(RecvError::Disconnected) => (0, true),
        Err(_) => (0, false),
    }
}

/// Where a blocking receive stands.
#[derive(Clone, Copy)]
pub enum RecvPhase {
    /// About to look for an item.
    Attempt,
    /// Found none; has to know whether its time is up.
    Clock,
    /// Has to queue up, and needs to know whom to wake for that.
    Enlist,
    /// Queued up and parked.
    Parked {
        node: usize,
    },
    /// Over.
    Finished,
}

/// What a blocking receive asks of its thread before the next step.
pub enum RecvStep<T> {
    /// The receive is over.
    Done(ResultReceiver<T>),
    /// Go on at once.
    Again,
    /// Look at the clock; the next event is `TimeLeft` or `Expired`.
    AskClock,
    /// The next event is `Thread`.
    AskThread,
    /// Park until woken, or until the deadline.
    Park,
}

/// A receive that waits for an item, one step at a time.
pub struct RecvOp {
    phase: RecvPhase,
    timed: bool,
}

impl RecvOp {
    pub closed spec fn phase(&self) -> RecvPhase {
        self.phase
    }

    pub closed spec fn timed(&self) -> bool {
        self.timed
    }

    /// The operation's node is in the line.
    pub open spec fn fits<T, W>(&self, m: LinkModel<T, W>) -> bool {
        match self.phase() {
            RecvPhase::Parked { node } => m.recv_waiters.holds(node),
            _ => true,
        }
    }

    /// The event is what the operation asked for.
    pub open spec fn expects<W>(&self, ev: WaitEvent<W>) -> bool {
        match self.phase() {
            RecvPhase::Finished => false,
            RecvPhase::Clock => ev is TimeLeft || ev is Expired,
            RecvPhase::Enlist => ev is Thread,
            _ => ev is Go,
        }
    }

    /// A receive, with a deadline if `timed`.
    pub fn new(timed: bool) -> (op: Self)
        ensures
            op.phase() is Attempt,
            op.timed() == timed,
    {
        RecvOp { phase: RecvPhase::Attempt, timed }
    }

    pub open spec fn moved<T>(
        &self,
        pre: &Self,
        phase: RecvPhase,
        r: RecvStep<T>,
        step: RecvStep<T>,
    ) -> bool {
        self.timed() == pre.timed() && self.phase() == phase && r == step
    }

    pub open spec fn over<T>(&self, r: RecvStep<T>, answer: ResultReceiver<T>) -> bool {
        self.phase() is Finished && r == RecvStep::Done(answer)
    }

    /// What one step does: from the operation `pre` and the channel `m`, told `ev`, to
    /// this operation, the channel `m2` and the request `r`.
    pub open spec fn stepped<T, W>(
        &self,
        pre: &Self,
        m: LinkModel<T, W>,
        ev: WaitEvent<W>,
        m2: LinkModel<T, W>,
        r: RecvStep<T>,
    ) -> bool {
        match pre.phase() {
            RecvPhase::Attempt => if m.items.len() > 0 {
                m2 == m.received() && self.over(r, Ok(m.items[0]))
            } else if m.tx_closed {
                m2 == m && self.over(r, Err(RecvError::Disconnected))
            } else if pre.timed() {
                m2 == m && self.moved(pre, RecvPhase::Clock, r, RecvStep::AskClock)
            } else {
                m2 == m && self.moved(pre, RecvPhase::Enlist, r, RecvStep::AskThread)
            },
            RecvPhase::Clock => match ev {
                WaitEvent::Expired(d) => m2 == m && self.over(r, Err(RecvError::TimeOut(d))),
                _ => m2 == m && self.moved(pre, RecvPhase::Enlist, r, RecvStep::AskThread),
            },
            RecvPhase::Enlist => if m.items.len() > 0 {
                m2 == m.received() && self.over(r, Ok(m.items[0]))
            } else if m.tx_closed {
                m2 == m && self.over(r, Err(RecvError::Disconnected))
            } else {
                &&& self.phase() is Parked
                &&& self.moved(pre, self.phase(), r, RecvStep::Park)
                &&& !m.recv_waiters.holds(self.phase()->node)
                &&& m2 == (LinkModel {
                    recv_waiters: m.recv_waiters.joined_by(self.phase()->node, ev->Thread_0),
                    ..m
                })
            },
            RecvPhase::Parked { node } => {
                &&& m2 == m.recv_wait_left(Some(node))
                &&& self.moved(pre, RecvPhase::Attempt, r, RecvStep::Again)
            },
            RecvPhase::Finished => true,
        }
    }

    /// One step of the receive.
    pub fn step<T, const CAP: usize, const MULTI: bool, W>(
        &mut self,
        inner: &mut Inner<T, CAP, MULTI, W>,
        ev: WaitEvent<W>,
    ) -> (r: RecvStep<T>)
        requires
            old(inner).wf(),
            old(self).fits(old(inner)@),
            old(self).expects(ev),
        ensures
            final(inner).wf(),
            final(self).fits(final(inner)@),
            final(self).stepped(old(self), old(inner)@, ev, final(inner)@, r),
    {
        let ghost m = inner@;
        match self.phase {
            RecvPhase::Attempt => match try_recv(inner) {
                Err(RecvError::Empty) => {
                    if self.timed {
                        self.phase = RecvPhase::Clock;
                        RecvStep::AskClock
                    } else {
                        self.phase = RecvPhase::Enlist;
                        RecvStep::AskThread
                    }
                },
                r => {
                    self.phase = RecvPhase::Finished;
                    RecvStep::Done(r)
                },
            },
            RecvPhase::Clock => match ev {
                WaitEvent::Expired(d) => {
                    self.phase = RecvPhase::Finished;
                    RecvStep::Done(Err(RecvError::TimeOut(d)))
                },
                _ => {
                    self.phase = RecvPhase::Enlist;
                    RecvStep::AskThread
                },
            },
            RecvPhase::Enlist => match ev {
                WaitEvent::Thread(w) => {
                    let node: usize = inner.receiver_waiters().push_blocking(w);
                    proof {
                        let l = m.recv_waiters.linked;
                        assert(l.push((node, w)).drop_last() =~= l);
                    }
                    match try_recv(inner) {
                        Err(RecvError::Empty) => {
                            self.phase = RecvPhase::Parked { node };
                            RecvStep::Park
                        },
                        r => {
                            inner.receiver_waiters().remove(node);
                            proof {
                                assert(inner@.recv_waiters.idle =~= m.recv_waiters.idle);
                                assert(inner@.recv_waiters.linked =~= m.recv_waiters.linked);
                            }
                            self.phase = RecvPhase::Finished;
                            RecvStep::Done(r)
                        },
                    }
                },
                _ => RecvStep::Again,
            },
            RecvPhase::Parked { node } => {
                inner.receiver_waiters().remove(node);
                self.phase = RecvPhase::Attempt;
                RecvStep::Again
            },
            RecvPhase::Finished => RecvStep::Again,
        }
    }
}

/// What a poll does: from the channel `m` and the node to the channel `m2` and the node
/// afterwards, with answer `r` (`None` while it is pending).
pub open spec fn poll_received<T, W>(
    m: LinkModel<T, W>,
    node: Option<usize>,
    waker: W,
    m2: LinkModel<T, W>,
    node2: Option<usize>,
    r: Option<ResultAsyncReceiver<T>>,
) -> bool {
    if m.items.len() > 0 {
        &&& r == Some(Ok::<T, AsyncRecvError>(m.items[0]))
        &&& m2 == m.received().recv_wait_left(node)
        &&& node2 is None
    } else if m.tx_closed {
        &&& r == Some(Err::<T, _>(AsyncRecvError::Disconnected))
        &&& m2 == m.recv_wait_left(node)
        &&& node2 is None
    } else {
        &&& r is None
        &&& node2 is Some
        &&& line_waits(m.recv_waiters, node, waker, node2->Some_0, m2.recv_waiters)
        &&& m2 == (LinkModel { recv_waiters: m2.recv_waiters, ..m })
    }
}

fn poll_recv<T, const CAP: usize, const MULTI: bool, W>(
    inner: &mut Inner<T, CAP, MULTI, W>,
    node: &mut Option<usize>,
    waker: W,
) -> (r: Option<ResultAsyncReceiver<T>>)
    requires
        old(inner).wf(),
        *old(node) is Some ==> old(inner)@.recv_waiters.holds((*old(node))->Some_0),
    ensures
        final(inner).wf(),
        poll_received(old(inner)@, *old(node), waker, final(inner)@, *final(node), r),
{
    match try_recv(inner) {
        Ok(v) => {
            match node.take() {
                Some(id) => inner.receiver_waiters().remove(id),
                None => {},
            }
            Some(Ok(v))
        },
        Err(RecvError::Empty) => {
            match *node {
                None => {
                    let id: usize = inner.receiver_waiters().push_async(waker);
                    *node = Some(id);
                },
                Some(id) => {
                    inner.receiver_waiters().update_or_repush_async(id, waker);
                },
            }
            None
        },
        Err(_) => {
            match node.take() {
                Some(id) => inner.receiver_waiters().remove(id),
                None => {},
            }
            Some(Err(AsyncRecvError::Disconnected))
        },
    }
}

fn drop_recv<T, const CAP: usize, const MULTI: bool, W>(
    inner: &mut Inner<T, CAP, MULTI, W>,
    node: Option<usize>,
)
    requires
        old(inner).wf(),
        node is Some ==> old(inner)@.recv_waiters.holds(node->Some_0),
    ensures
        final(inner).wf(),
        final(inner)@ == if node is Some {
            old(inner)@.recv_wait_left(node).receiver_notified()
        } else {
            old(inner)@
        },
{
    match node {
        Some(id) => {
            inner.receiver_waiters().remove(id);
            inner.notify_receivers();
        },
        None => {},
    }
}

/// A receive that a task awaits.
pub struct ReceiverFuture {
    node: Option<usize>,
}

impl ReceiverFuture {
    /// The task's node in the line, while it waits.
    pub closed spec fn node(&self) -> Option<usize> {
        self.node
    }

    pub open spec fn fits<T, W>(&self, m: LinkModel<T, W>) -> bool {
        self.node() is Some ==> m.recv_waiters.holds(self.node()->Some_0)
    }

    pub fn new() -> (f: Self)
        ensures
            f.node() is None,
    {
        ReceiverFuture { node: None }
    }

    /// `None` while the receive is pending.
    pub fn poll<T, const CAP: usize, const MULTI: bool, W>(
        &mut self,
        inner: &mut Inner<T, CAP, MULTI, W>,
        waker: W,
    ) -> (r: Option<ResultAsyncReceiver<T>>)
        requires
            old(inner).wf(),
            old(self).fits(old(inner)@),
        ensures
            final(inner).wf(),
            final(self).fits(final(inner)@),
            poll_received(
                old(inner)@,
                old(self).node(),
                waker,
                final(inner)@,
                final(self).node(),
                r,
            ),
    {
        poll_recv(inner, &mut self.node, waker)
    }

    /// Gives the receive up; the wake-up that it may have used up goes to the next
    /// receiver.
    pub fn cancel<T, const CAP: usize, const MULTI: bool, W>(
        self,
        inner: &mut Inner<T, CAP, MULTI, W>,
    )
        requires
            old(inner).wf(),
            self.fits(old(inner)@),
        ensures
            final(inner).wf(),
            final(inner)@ == if self.node() is Some {
                old(inner)@.recv_wait_left(self.node()).receiver_notified()
            } else {
                old(inner)@
            },
    {
        drop_recv(inner, self.node);
    }
}

/// The items of a channel as a task sees them come in.
pub struct ReceiverStream {
    node: Option<usize>,
}

impl ReceiverStream {
    /// The task's node in the line, while it waits.
    pub closed spec fn node(&self) -> Option<usize> {
        self.node
    }

    pub open spec fn fits<T, W>(&self, m: LinkModel<T, W>) -> bool {
        self.node() is Some ==> m.recv_waiters.holds(self.node()->Some_0)
    }

    pub fn new() -> (f: Self)
        ensures
            f.node() is None,
    {
        ReceiverStream { node: None }
    }

    /// `None` while the next item is pending, `Some(None)` at the end.
    pub fn poll_next<T, const CAP: usize, const MULTI: bool, W>(
        &mut self,
        inner: &mut Inner<T, CAP, MULTI, W>,
        waker: W,
    ) -> (r: Option<Option<T>>)
        requires
            old(inner).wf(),
            old(self).fits(old(inner)@),
        ensures
            final(inner).wf(),
            final(self).fits(final(inner)@),
            poll_received(
                old(inner)@,
                old(self).node(),
                waker,
                final(inner)@,
                final(self).node(),
                match r {
                    None => None,
                    Some(Some(v)) => Some(Ok(v)),
                    Some(None) => Some(Err(AsyncRecvError::Disconnected)),
                },
            ),
    {
        match poll_recv(inner, &mut self.node, waker) {
            None => None,
            Some(Ok(v)) => Some(Some(v)),
            Some(Err(_)) => Some(None),
        }
    }

    /// Ends the stream.
    pub fn cancel<T, const CAP: usize, const MULTI: bool, W>(
        self,
        inner: &mut Inner<T, CAP, MULTI, W>,
    )
        requires
            old(inner).wf(),
            self.fits(old(inner)@),
        ensures
            final(inner).wf(),
            final(inner)@ == if self.node() is Some {
                old(inner)@.recv_wait_left(self.node()).receiver_notified()
            } else {
                old(inner)@
            },
    {
        drop_recv(inner, self.node);
    }
}

/// First in, first out: on an open channel with room, what is sent last is received after
/// all that was there before, and what is received is the oldest.
pub proof fn law_fifo<T, W>(m: LinkModel<T, W>, cap: int, v: T)
    requires
        !m.rx_closed,
        m.items.len() < cap,
    ensures
        super::sender::try_sent(m, cap, v).0.items == m.items.push(v),
        m.items.len() > 0 ==> {
            &&& try_received(m).1 == Ok::<T, RecvError>(m.items[0])
            &&& try_received(m).0.items == m.items.drop_first()
        },
        m.items.len() == 0 ==> try_received(super::sender::try_sent(m, cap, v).0).1 == Ok::<
            T,
            RecvError,
        >(v),
{
}

/// Threads and tasks stand in one line: each wake-up goes to the one that has waited
/// longest, and a send reaches somebody whenever anybody waits.
pub proof fn law_one_line<T, W>(m: LinkModel<T, W>, cap: int, v: T)
    requires
        !m.rx_closed,
        m.items.len() < cap,
        m.recv_waiters.linked.len() > 0,
    ensures
        super::sender::try_sent(m, cap, v).0.woken == m.woken.push(m.recv_waiters.linked[0].1),
        super::sender::try_sent(m, cap, v).0.recv_waiters.linked
            == m.recv_waiters.linked.drop_first(),
{
    let m2 = super::sender::try_sent(m, cap, v).0;
    assert(m2.woken =~= m.woken.push(m.recv_waiters.linked[0].1));
}

/// A send that is refused hands the item back and changes nothing; once the receivers are
/// gone every send is refused.
pub proof fn law_refusal_returns_the_item<T, W>(m: LinkModel<T, W>, cap: int, v: T)
    ensures
        super::sender::try_sent(m, cap, v).1 is Err ==> {
            &&& super::sender::try_sent(m, cap, v).1->Err_0.item() == v
            &&& super::sender::try_sent(m, cap, v).0 == m
        },
        m.rx_closed ==> super::sender::try_sent(m, cap, v).1 is Err,
{
}

/// Once the senders are gone, receivers still get every item that is left, and only then
/// learn that the channel is closed.
pub proof fn law_closed_channel_drains<T, W>(m: LinkModel<T, W>)
    requires
        m.tx_closed,
    ensures
        try_received(m).0.tx_closed,
        m.items.len() > 0 ==> try_received(m).1 is Ok,
        m.items.len() == 0 ==> try_received(m) == (
            m,
            Err::<T, RecvError>(RecvError::Disconnected),
        ),
{
}

} // verus!
