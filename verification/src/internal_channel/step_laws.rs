use super::errors::{RecvError, SendError, TryRecvError, TrySendError};
use super::laws::live_waiters;
use super::model::ChannelModel;
use super::receiver::{
    batch_received, poll_received, try_received, RecvEvent, RecvOp, RecvPhase, RecvPoll, RecvStep,
};
use super::sender::{
    batch_began, pause_after, poll_sent, try_sent, BatchStart, BatchStep, SendBatchOp, SendEvent,
    SendOp, SendPhase, SendPoll, SendStep,
};
use super::sync::WaitModel;
use crate::ring::{lemma_ready, offset, values};
use crate::waiters::others;
use vstd::prelude::*;

verus! {

/// An attempt to receive takes the oldest position if it is written, and nothing else. It
/// says that the channel is closed only when no sender is left and nothing is pending.
pub proof fn law_attempt_to_receive<T, W>(m: ChannelModel<T, W>)
    ensures
        ({
            let (m2, r) = try_received(m);
            &&& r is Ok <==> m.pending.len() > 0 && m.pending[0] is Some
            &&& r is Ok ==> m.pending[0] == Some(r->Ok_0) && m2.pending == m.pending.drop_first()
            &&& r is Err ==> m2 == m
            &&& r == Err::<T, _>(TryRecvError::Disconnected) <==> m.tx_closed && m.pending.len()
                == 0
            &&& m2.recv_waiters == m.recv_waiters
            &&& (m2.tx_closed, m2.rx_closed, m2.senders, m2.receivers) == (
                m.tx_closed,
                m.rx_closed,
                m.senders,
                m.receivers,
            )
        }),
{
}

/// An attempt to send adds the item behind all others if receivers are there and fewer than
/// `cap` positions are taken, and does nothing else. It says that the channel is full only
/// when it is, and that the receivers are gone only when they are.
pub proof fn law_attempt_to_send<T, W>(m: ChannelModel<T, W>, cap: int, v: T)
    ensures
        ({
            let (m2, r) = try_sent(m, cap, v);
            &&& r is Ok <==> !m.rx_closed && m.pending.len() < cap
            &&& r is Ok ==> m2.pending == m.pending.push(Some(v))
            &&& r is Err ==> m2 == m
            &&& r == Err::<(), _>(TrySendError::Disconnected(v)) <==> m.rx_closed
            &&& r == Err::<(), _>(TrySendError::Full(v)) <==> !m.rx_closed && m.pending.len() >= cap
            &&& m2.send_waiters == m.send_waiters
            &&& m2.head == m.head
            &&& (m2.tx_closed, m2.rx_closed, m2.senders, m2.receivers) == (
                m.tx_closed,
                m.rx_closed,
                m.senders,
                m.receivers,
            )
        }),
{
}

/// A blocking receive conserves items: a step either ends with the oldest item and takes
/// exactly that one out of the channel, or leaves what is pending as it is. Other than that
/// it changes nothing but the line of receivers; only a step that takes an item wakes anybody.
pub proof fn law_blocking_receive_conserves_items<T, W>(
    pre: RecvOp,
    m: ChannelModel<T, W>,
    ev: RecvEvent<W>,
    post: RecvOp,
    m2: ChannelModel<T, W>,
    r: RecvStep<T>,
)
    requires
        pre.fits(m),
        pre.expects(ev),
        post.stepped(&pre, m, ev, m2, r),
    ensures
        match r {
            RecvStep::Done(Ok(v)) => {
                &&& m.pending.len() > 0
                &&& m.pending[0] == Some(v)
                &&& m2.pending == m.pending.drop_first()
                &&& m2.recv_waiters == m.recv_waiters
                &&& live_waiters(m.send_waiters) > 0 ==> m2.woken.len() == m.woken.len() + 1
            },
            _ => {
                &&& m2.pending == m.pending
                &&& m2.head == m.head
                &&& m2.send_waiters == m.send_waiters
                &&& m2.woken == m.woken
            },
        },
        (m2.tx_closed, m2.rx_closed, m2.senders, m2.receivers) == (
            m.tx_closed,
            m.rx_closed,
            m.senders,
            m.receivers,
        ),
{
    super::laws::lemma_notified_count(m.send_waiters);
}

/// A blocking receive answers as soon as it can, and only what is so: an item whenever it
/// looks and the oldest position is written; that the channel is closed when it looks, no
/// sender is left and nothing is pending, and never otherwise; that the time is up exactly
/// when it was told so. It parks only when there is neither an item nor the end, and stands
/// at the back of the line then.
pub proof fn law_blocking_receive_answers<T, W>(
    pre: RecvOp,
    m: ChannelModel<T, W>,
    ev: RecvEvent<W>,
    post: RecvOp,
    m2: ChannelModel<T, W>,
    r: RecvStep<T>,
)
    requires
        pre.fits(m),
        pre.expects(ev),
        post.stepped(&pre, m, ev, m2, r),
    ensures
        !(pre.phase() is Clock || pre.phase() is Parked) && m.pending.len() > 0 && m.pending[0] is Some
            ==> r == RecvStep::Done(Ok::<T, RecvError>(m.pending[0]->Some_0)),
        (pre.phase() is Attempt || pre.phase() is Recheck || pre.phase() is Enlist) && m.tx_closed
            && m.pending.len() == 0 ==> r == RecvStep::<T>::Done(Err(RecvError::Disconnected)),
        r matches RecvStep::Done(Err(RecvError::Disconnected)) ==> m.tx_closed && m.pending.len() == 0,
        r matches RecvStep::Done(Err(RecvError::TimeOut(d))) ==> pre.timed() && ev
            == RecvEvent::<W>::Expired(d),
        ev matches RecvEvent::Expired(d) ==> r == RecvStep::<T>::Done(Err(RecvError::TimeOut(d))),
        r is Done ==> post.phase() is Finished,
        r is Park ==> {
            &&& m.pending.len() == 0 || m.pending[0] is None
            &&& !(m.tx_closed && m.pending.len() == 0)
            &&& ev is Thread
            &&& post.phase() is Parked
            &&& m2.recv_waiters.tasks == m.recv_waiters.tasks
            &&& m2.recv_waiters.blocking.linked == m.recv_waiters.blocking.linked.push(
                (post.phase()->node, ev->Thread_0),
            )
        },
        !(r is Park) && !(pre.phase() is Parked) ==> m2.recv_waiters == m.recv_waiters,
        pre.phase() is Parked ==> post.phase() is Attempt && r is Again,
        r is Done || (post.timed() == pre.timed() && post.spins() == pre.spins()),
{
}

/// How many looks and questions a receive has before it that finds nothing, until it parks.
pub open spec fn looks_left(op: RecvOp) -> int {
    match op.phase() {
        RecvPhase::Attempt => if op.timed() {
            132
        } else {
            131
        },
        RecvPhase::Clock => 131,
        RecvPhase::Spin { left } => left + 2,
        RecvPhase::Recheck => 2,
        RecvPhase::Enlist => 1,
        _ => 0,
    }
}

/// A receive that finds nothing does not spin for ever: it comes one step nearer to parking
/// with each step, and parks at the last. It looks 128 times before it stops burning its
/// processor, unless it was asked not to spin.
pub proof fn law_blocking_receive_parks_in_the_end<T, W>(
    pre: RecvOp,
    m: ChannelModel<T, W>,
    ev: RecvEvent<W>,
    post: RecvOp,
    m2: ChannelModel<T, W>,
    r: RecvStep<T>,
)
    requires
        pre.fits(m),
        pre.expects(ev),
        post.stepped(&pre, m, ev, m2, r),
        !(r is Done),
        !(pre.phase() is Parked),
    ensures
        r is Park <==> looks_left(pre) == 1,
        pre.spins() ==> looks_left(post) == looks_left(pre) - 1,
        0 <= looks_left(post) < looks_left(pre),
        pre.phase() is Enlist <==> looks_left(pre) == 1,
        !pre.spins() && !(pre.phase() is Spin) ==> !(post.phase() is Spin),
        r is Spin <==> post.phase() is Spin,
        r is AskClock <==> post.phase() is Clock,
        r is AskThread <==> post.phase() is Enlist,
{
}

/// A blocking send answers as soon as it can, and only what is so: with the item in the
/// channel whenever it looks, receivers are there and a position is free; with the item handed
/// back when it looks and the receivers are gone; with the time exactly when it was told that
/// it is up. Without a deadline it reserves the next position of a full channel, if there may
/// be other senders, and from then on sends to that position as soon as it is among the first
/// `cap`. It parks only when there is no room.
pub proof fn law_blocking_send_answers<T, W>(
    pre: SendOp<T>,
    m: ChannelModel<T, W>,
    ev: SendEvent<W>,
    cap: int,
    multi: bool,
    post: SendOp<T>,
    m2: ChannelModel<T, W>,
    r: SendStep<T>,
)
    requires
        pre.fits(m),
        pre.expects(ev),
        post.stepped(&pre, m, ev, cap, multi, m2, r),
    ensures
        ({
            let v = pre.value()->Some_0;
            let looks = pre.phase() is Begin || pre.phase() is Attempt || pre.phase() is Spin
                || pre.phase() is Enlist;
            let full = m.pending.len() >= cap;
            &&& looks && m.rx_closed ==> r == SendStep::<T>::Done(Err(SendError::Disconnected(v)))
            &&& looks && !m.rx_closed && !full ==> r == SendStep::<T>::Done(Ok(())) && m2.pending
                == m.pending.push(Some(v))
            &&& looks && !m.rx_closed && full ==> !(r is Done)
            &&& pre.phase() is Begin && !m.rx_closed && full && multi ==> {
                &&& m2.pending == m.pending.push(None)
                &&& post.phase() is Reserved
                &&& offset(m.head, post.phase()->pos) == m.pending.len()
            }
            &&& pre.phase() matches SendPhase::Reserved { pos, .. } ==> if offset(m.head, pos) < cap {
                &&& r == SendStep::<T>::Done(Ok(()))
                &&& m2.pending == m.pending.update(offset(m.head, pos), Some(v))
            } else if m.rx_closed {
                r == SendStep::<T>::Done(Err(SendError::Disconnected(v)))
            } else {
                !(r is Done) && post.phase() is Reserved && post.phase()->pos == pos
            }
            &&& r matches SendStep::Done(Err(SendError::TimeOut((u, d)))) ==> pre.timed() && u == v
                && ev == SendEvent::<W>::Expired(d)
            &&& ev matches SendEvent::Expired(d) ==> r == SendStep::<T>::Done(
                Err(SendError::TimeOut((v, d))),
            )
            &&& r matches SendStep::Done(Err(SendError::Disconnected(_))) ==> m.rx_closed
            &&& r is Park ==> {
                &&& full && !m.rx_closed
                &&& ev is Thread
                &&& post.phase() is Parked
                &&& m2.send_waiters.tasks == m.send_waiters.tasks
                &&& m2.send_waiters.blocking.linked == m.send_waiters.blocking.linked.push(
                    (post.phase()->node, ev->Thread_0),
                )
            }
            &&& r is Done ==> post.phase() is Finished && post.value() is None
            &&& !(r is Done) ==> post.value() == pre.value() && post.timed() == pre.timed()
            &&& !(r is Done) && !(pre.phase() is Begin) ==> m2.pending == m.pending
            &&& pre.phase() is Begin && !m.rx_closed && full && !multi ==> post.phase() is Attempt
                && r is Again && m2.pending == m.pending
            &&& r matches SendStep::Done(Err(_)) ==> m2.pending == m.pending
            &&& r matches SendStep::Done(Err(e)) ==> e.item() == v
        }),
{
}

/// A blocking send changes nothing but what is pending and the line of senders; only a step
/// that puts its item in wakes anybody, and it wakes a receiver if one waits.
pub proof fn law_blocking_send_wakes_receivers<T, W>(
    pre: SendOp<T>,
    m: ChannelModel<T, W>,
    ev: SendEvent<W>,
    cap: int,
    multi: bool,
    post: SendOp<T>,
    m2: ChannelModel<T, W>,
    r: SendStep<T>,
)
    requires
        pre.fits(m),
        pre.expects(ev),
        post.stepped(&pre, m, ev, cap, multi, m2, r),
    ensures
        r matches SendStep::Done(Ok(())) ==> {
            &&& live_waiters(m.recv_waiters) > 0 ==> m2.woken.len() == m.woken.len() + 1
            &&& m2.send_waiters == m.send_waiters
        },
        !(r matches SendStep::Done(Ok(()))) ==> {
            &&& m2.woken == m.woken
            &&& m2.recv_waiters == m.recv_waiters
        },
        !(r is Park) && !(pre.phase() is Parked) ==> m2.send_waiters == m.send_waiters,
        m2.head == m.head,
        (m2.tx_closed, m2.rx_closed, m2.senders, m2.receivers) == (
            m.tx_closed,
            m.rx_closed,
            m.senders,
            m.receivers,
        ),
{
    super::laws::lemma_notified_count(m.recv_waiters);
    match pre.phase() {
        SendPhase::Reserved { pos, waits } => {
            super::laws::lemma_notified_count(m.filled(pos, pre.value()->Some_0).recv_waiters);
        },
        _ => {},
    }
}

/// How many looks and questions a send has before it that finds no room, until it parks. A
/// send that has reserved its position never parks.
pub open spec fn tries_left<T>(op: SendOp<T>) -> int {
    match op.phase() {
        SendPhase::Begin => 68,
        SendPhase::Attempt => if op.timed() {
            67
        } else {
            66
        },
        SendPhase::Clock => 66,
        SendPhase::Spin { left } => left + 1,
        SendPhase::Enlist => 1,
        _ => 0,
    }
}

/// A send that finds no room does not spin for ever: it looks 64 times more and then parks,
/// unless it has reserved its position.
pub proof fn law_blocking_send_parks_in_the_end<T, W>(
    pre: SendOp<T>,
    m: ChannelModel<T, W>,
    ev: SendEvent<W>,
    cap: int,
    multi: bool,
    post: SendOp<T>,
    m2: ChannelModel<T, W>,
    r: SendStep<T>,
)
    requires
        pre.fits(m),
        pre.expects(ev),
        post.stepped(&pre, m, ev, cap, multi, m2, r),
        !(r is Done),
        !(pre.phase() is Parked || pre.phase() is Reserved),
    ensures
        r is Park <==> pre.phase() is Enlist,
        !(pre.phase() is Begin) ==> tries_left(post) == tries_left(pre) - 1,
        0 <= tries_left(post) < tries_left(pre),
        r is AskClock <==> post.phase() is Clock,
        r is AskThread <==> post.phase() is Enlist,
{
}

/// A send that waits for its reserved position spins at first, gives way from its 64th look
/// on, and sleeps from its 256th on.
pub proof fn law_reserved_send_waits_with_growing_patience<T>(waits: u32)
    ensures
        pause_after::<T>(waits) is Spin <==> waits < 64,
        pause_after::<T>(waits) is Yield <==> 64 <= waits < 256,
        pause_after::<T>(waits) is Sleep <==> waits >= 256,
{
}

/// A poll of an awaited receive is ready with the oldest item, which it takes, if that is
/// written; ready with the end if no sender is left and nothing is pending; and pending
/// otherwise. A pending task stands in the line with the waker that it gave last, in the place
/// that it had if it still had one, and at the back if not. A task that is ready stands there
/// no more.
pub proof fn law_poll_of_a_receive<T, W>(
    m: ChannelModel<T, W>,
    slot: Option<usize>,
    waker: W,
    m2: ChannelModel<T, W>,
    slot2: Option<usize>,
    r: RecvPoll<T>,
)
    requires
        m.recv_waiters.sound(),
        poll_received(m, slot, waker, m2, slot2, r),
    ensures
        r matches RecvPoll::Ready(Ok(v)) ==> {
            &&& m.pending.len() > 0 && m.pending[0] == Some(v)
            &&& m2.pending == m.pending.drop_first()
            &&& live_waiters(m.send_waiters) > 0 ==> m2.woken.len() == m.woken.len() + 1
        },
        m.pending.len() > 0 && m.pending[0] is Some ==> r matches RecvPoll::Ready(Ok(_)),
        r matches RecvPoll::Ready(Err(_)) <==> m.tx_closed && m.pending.len() == 0,
        !(r matches RecvPoll::Ready(Ok(_))) ==> m2.pending == m.pending && m2.woken == m.woken
            && m2.send_waiters == m.send_waiters,
        r is Ready ==> slot2 is None && m2.recv_waiters == m.recv_waiters.task_gone(slot),
        r is Pending ==> {
            &&& slot2 is Some
            &&& m2.recv_waiters.tasks.queue.contains((slot2->Some_0, Some(waker)))
            &&& slot is Some && m.recv_waiters.tasks.has(slot->Some_0) ==> {
                &&& slot2 == slot
                &&& m2.recv_waiters.tasks.queue.len() == m.recv_waiters.tasks.queue.len()
                &&& forall|k: int|
                    0 <= k < m.recv_waiters.tasks.queue.len() && (
                    #[trigger] m.recv_waiters.tasks.queue[k]).0 != slot->Some_0
                        ==> m2.recv_waiters.tasks.queue[k] == m.recv_waiters.tasks.queue[k]
            }
            &&& !(slot is Some && m.recv_waiters.tasks.has(slot->Some_0))
                ==> m2.recv_waiters.tasks.queue == m.recv_waiters.tasks.queue.push(
                (slot2->Some_0, Some(waker)),
            )
        },
        m2.recv_waiters.blocking == m.recv_waiters.blocking,
        (m2.tx_closed, m2.rx_closed, m2.senders, m2.receivers) == (
            m.tx_closed,
            m.rx_closed,
            m.senders,
            m.receivers,
        ),
{
    super::laws::lemma_notified_count(m.send_waiters);
    if r is Pending {
        lemma_queued(m.recv_waiters, slot, waker, slot2->Some_0, m2.recv_waiters);
    }
}

/// A task that waits stands in the queue with its waker.
pub proof fn lemma_queued<W>(
    pre: WaitModel<W>,
    slot: Option<usize>,
    waker: W,
    id: usize,
    post: WaitModel<W>,
)
    requires
        pre.task_waits(slot, waker, id, post),
    ensures
        post.tasks.queue.contains((id, Some(waker))),
{
    let q = pre.tasks.queue;
    if slot is Some && pre.tasks.has(slot->Some_0) {
        let k = choose|k: int| pre.tasks.at(id, k);
        assert(post.tasks.queue[k] == (id, Some(waker)));
    } else {
        assert(post.tasks.queue[q.len() as int] == (id, Some(waker)));
    }
}

/// A poll of an awaited send is ready with the item in the channel if receivers are there and
/// a position is free; ready with the item handed back if the receivers are gone; and pending,
/// with the item still its own, otherwise. A pending task stands in the line with the waker
/// that it gave last.
pub proof fn law_poll_of_a_send<T, W>(
    m: ChannelModel<T, W>,
    cap: int,
    v: T,
    slot: Option<usize>,
    waker: W,
    m2: ChannelModel<T, W>,
    value2: Option<T>,
    slot2: Option<usize>,
    r: SendPoll<T>,
)
    requires
        m.send_waiters.sound(),
        poll_sent(m, cap, Some(v), slot, waker, m2, value2, slot2, r),
    ensures
        r == SendPoll::Ready(Err::<(), T>(v)) <==> m.rx_closed,
        r == SendPoll::<T>::Ready(Ok(())) <==> !m.rx_closed && m.pending.len() < cap,
        r is Pending <==> !m.rx_closed && m.pending.len() >= cap,
        r matches SendPoll::Ready(Ok(_)) ==> {
            &&& m2.pending == m.pending.push(Some(v))
            &&& live_waiters(m.recv_waiters) > 0 ==> m2.woken.len() == m.woken.len() + 1
        },
        !(r matches SendPoll::Ready(Ok(_))) ==> m2.pending == m.pending && m2.woken == m.woken
            && m2.recv_waiters == m.recv_waiters,
        r is Ready ==> value2 is None && slot2 is None && m2.send_waiters
            == m.send_waiters.task_gone(slot),
        r is Pending ==> {
            &&& value2 == Some(v)
            &&& slot2 is Some
            &&& slot is Some && m.send_waiters.tasks.has(slot->Some_0) ==> {
                &&& slot2 == slot
                &&& m2.send_waiters.tasks.queue.len() == m.send_waiters.tasks.queue.len()
                &&& forall|k: int|
                    0 <= k < m.send_waiters.tasks.queue.len() && (
                    #[trigger] m.send_waiters.tasks.queue[k]).0 != slot->Some_0
                        ==> m2.send_waiters.tasks.queue[k] == m.send_waiters.tasks.queue[k]
            }
            &&& m2.send_waiters.tasks.queue.contains((slot2->Some_0, Some(waker)))
            &&& !(slot is Some && m.send_waiters.tasks.has(slot->Some_0))
                ==> m2.send_waiters.tasks.queue == m.send_waiters.tasks.queue.push(
                (slot2->Some_0, Some(waker)),
            )
        },
        m2.head == m.head,
        m2.send_waiters.blocking == m.send_waiters.blocking,
        (m2.tx_closed, m2.rx_closed, m2.senders, m2.receivers) == (
            m.tx_closed,
            m.rx_closed,
            m.senders,
            m.receivers,
        ),
{
    super::laws::lemma_notified_count(m.recv_waiters);
    if r is Pending {
        lemma_queued(m.send_waiters, slot, waker, slot2->Some_0, m2.send_waiters);
    }
}

/// A batch send stops for one reason only: with receivers there, either the whole batch is in
/// the channel or the channel is full. What went stands behind what was there, in order, and
/// never fills the channel beyond `cap`; without receivers nothing goes. One receiver is woken
/// for each item, as far as receivers wait.
pub proof fn law_batch_send_stops_only_when_full<T, W>(
    m: ChannelModel<T, W>,
    cap: int,
    buf: Seq<T>,
    n: int,
    m2: ChannelModel<T, W>,
)
    requires
        n == m.room(cap, buf.len() as int),
        m2 == m.pushed_all(buf.subrange(0, n)).receivers_notified(n as nat),
    ensures
        0 <= n <= buf.len(),
        m.rx_closed ==> n == 0,
        !m.rx_closed ==> n == buf.len() || m2.pending.len() >= cap,
        n > 0 ==> m2.pending.len() <= cap,
        m2.pending.len() == m.pending.len() + n,
        forall|k: int| 0 <= k < m.pending.len() ==> #[trigger] m2.pending[k] == m.pending[k],
        forall|k: int|
            m.pending.len() <= k < m2.pending.len() ==> #[trigger] m2.pending[k] == Some(
                buf[k - m.pending.len()],
            ),
        m2.woken.len() == m.woken.len() + if n < live_waiters(m.recv_waiters) {
            n
        } else {
            live_waiters(m.recv_waiters) as int
        },
        m2.send_waiters == m.send_waiters,
        m2.head == m.head,
{
    super::laws::law_wake_ups_are_not_lost(m.recv_waiters, n as nat);
}

/// A batch receive takes the oldest items, in order, and stops for one reason only: it has
/// `max` of them, or nothing more is pending, or the next position is not written yet. One
/// sender is woken for each item, as far as senders wait.
pub proof fn law_batch_receive_stops_only_at_a_gap<T, W>(
    m: ChannelModel<T, W>,
    max: int,
    n: int,
    m2: ChannelModel<T, W>,
)
    requires
        0 <= max,
        n == m.available(max),
        m2 == m.popped_n(n).senders_notified(n as nat),
    ensures
        0 <= n <= max,
        n <= m.pending.len(),
        n == max || n == m.pending.len() || m.pending[n] is None,
        forall|k: int| 0 <= k < n ==> (#[trigger] m.pending[k]) is Some,
        forall|k: int|
            0 <= k < n ==> Some(#[trigger] values(m.pending.subrange(0, n))[k]) == m.pending[k],
        values(m.pending.subrange(0, n)).len() == n,
        m2.pending == m.pending.subrange(n, m.pending.len() as int),
        m2.woken.len() == m.woken.len() + if n < live_waiters(m.send_waiters) {
            n
        } else {
            live_waiters(m.send_waiters) as int
        },
        m2.recv_waiters == m.recv_waiters,
        (m2.tx_closed, m2.rx_closed) == (m.tx_closed, m.rx_closed),
{
    lemma_ready(m.pending);
    super::laws::law_wake_ups_are_not_lost(m.send_waiters, n as nat);
    assert forall|k: int| 0 <= k < n implies Some(
        #[trigger] values(m.pending.subrange(0, n))[k],
    ) == m.pending[k] by {
        assert(m.pending[k] is Some);
    }
}

/// A batch receive that waited for its first item puts that item first and the others behind
/// it, in the order in which they were pending; together they are no more than `max`. It says
/// that the channel is closed only if it is, with nothing left. A wait that ended without an
/// item brings none.
pub proof fn law_waited_batch_keeps_order<T, W>(
    m: ChannelModel<T, W>,
    buf: Seq<T>,
    max: int,
    first: Result<T, RecvError>,
    m2: ChannelModel<T, W>,
    buf2: Seq<T>,
    count: int,
    dc: bool,
)
    requires
        max > 0,
        batch_received(m, buf, max, first, m2, buf2, count, dc),
    ensures
        0 <= count <= max,
        buf2.len() == buf.len() + count,
        buf2.subrange(0, buf.len() as int) == buf,
        first is Ok ==> {
            &&& 1 <= count <= m.pending.len() + 1
            &&& buf2[buf.len() as int] == first->Ok_0
            &&& forall|k: int|
                1 <= k < count ==> Some(#[trigger] buf2[buf.len() + k]) == m.pending[k - 1]
            &&& m2.pending == m.pending.subrange(count - 1, m.pending.len() as int)
            &&& count == max || count - 1 == m.pending.len() || m.pending[count - 1] is None
            &&& dc <==> count == 1 && m.tx_closed && m.pending.len() == 0
        },
        first is Err ==> count == 0 && m2 == m && (dc <==> first->Err_0 is Disconnected),
{
    lemma_ready(m.pending);
    assert(buf2.subrange(0, buf.len() as int) =~= buf);
    if first is Ok {
        let n = count - 1;
        assert forall|k: int| 1 <= k < count implies Some(#[trigger] buf2[buf.len() + k])
            == m.pending[k - 1] by {
            assert(m.pending[k - 1] is Some);
            assert(buf2[buf.len() + k] == values(m.pending.subrange(0, n))[k - 1]);
        }
    }
}

/// A batch send with waiting loses nothing: what is in the channel after its beginning, and
/// what is left, are the batch, in order. It is over at once only if everything went or the
/// receivers are gone.
pub proof fn law_batch_send_begins_without_loss<T, W>(
    m: ChannelModel<T, W>,
    cap: int,
    buf: Seq<T>,
    timed: bool,
    m2: ChannelModel<T, W>,
    buf2: Seq<T>,
    r: BatchStart<T>,
)
    requires
        batch_began(m, cap, buf, timed, m2, buf2, r),
        buf.len() <= usize::MAX,
    ensures
        ({
            let n = m2.pending.len() - m.pending.len();
            &&& 0 <= n <= buf.len()
            &&& m2.pending.subrange(0, m.pending.len() as int) == m.pending
            &&& forall|k: int| 0 <= k < n ==> #[trigger] m2.pending[m.pending.len() + k] == Some(buf[k])
            &&& match r {
                BatchStart::Done(Ok(k)) => k == buf.len() && n == buf.len() && buf2.len() == 0
                    && !m.rx_closed,
                BatchStart::Done(Err(e)) => {
                    &&& m.rx_closed
                    &&& n == 0
                    &&& e.sent == 0
                    &&& e.err is Disconnected
                    &&& buf2 == buf
                },
                BatchStart::Wait(op) => {
                    &&& !m.rx_closed
                    &&& m2.pending.len() >= cap
                    &&& op.sent() == n
                    &&& op.remaining() == buf.subrange(n, buf.len() as int)
                    &&& op.remaining().len() > 0
                    &&& op.current().value() == Some(buf[n])
                    &&& op.current().timed() == timed
                    &&& op.current().phase() is Attempt <==> timed
                    &&& op.current().phase() is Begin <==> !timed
                    &&& buf2.len() == 0
                },
            }
        }),
{
    assert(m2.pending.subrange(0, m.pending.len() as int) =~= m.pending);
    if m.rx_closed {
        assert(buf.subrange(0, buf.len() as int) =~= buf);
    }
}

/// Each step of a batch send with waiting sends at most the item whose turn it is: it counts
/// that item exactly if it went, keeps the rest in order, and goes on until the last item
/// went or one could not be sent. Then the batch ends with the reason of that item, and with
/// all that was not sent, that item first.
pub proof fn law_batch_send_goes_item_by_item<T>(
    pre: SendBatchOp<T>,
    mid: SendOp<T>,
    s: SendStep<T>,
    post: SendBatchOp<T>,
    r: BatchStep<T>,
)
    requires
        post.advanced(&pre, mid, s, r),
        pre.remaining().len() > 0,
    ensures
        s == SendStep::<T>::Done(Ok(())) ==> {
            &&& post.sent() == pre.sent() + 1
            &&& post.remaining().len() == pre.remaining().len() - 1
            &&& forall|k: int|
                0 <= k < post.remaining().len() ==> #[trigger] post.remaining()[k]
                    == pre.remaining()[k + 1]
            &&& r is Done <==> post.remaining().len() == 0
            &&& r is Done ==> r == BatchStep::<T>::Done(Ok(post.sent()))
            &&& r is Wait ==> post.current().value() == Some(post.remaining()[0])
                && post.current().timed() == pre.current().timed()
            &&& r is Wait && pre.current().timed() ==> post.current().phase() is Attempt
            &&& r is Wait && !pre.current().timed() ==> post.current().phase() is Begin
        },
        !(s matches SendStep::Done(Ok(_))) ==> post.sent() == pre.sent() && post.remaining()
            == pre.remaining(),
        s matches SendStep::Done(Err(e)) ==> {
            &&& r is Done
            &&& r->Done_0 is Err
            &&& r->Done_0->Err_0.sent == pre.sent()
            &&& r->Done_0->Err_0.err is TimeOut <==> e is TimeOut
        },
        !(s is Done) ==> r == BatchStep::Wait(s),
{
}

/// A wake-up goes to the task that has waited longest, tombstones left aside; only if no task
/// waits, to the thread that has waited longest; and only if nobody waits, to nobody. It takes
/// that one waiter out of its line and leaves all others in their places.
pub proof fn law_wake_up_goes_by_age<W>(m: WaitModel<W>, k: int)
    ensures
        0 <= k < m.tasks.queue.len() && m.tasks.queue[k].1 is Some && (forall|j: int|
            0 <= j < k ==> (#[trigger] m.tasks.queue[j]).1 is None) ==> {
            let (m2, w) = m.notified();
            &&& w == m.tasks.queue[k].1
            &&& m2.tasks.queue == m.tasks.queue.subrange(k + 1, m.tasks.queue.len() as int)
            &&& m2.tasks.idle == m.tasks.idle.insert(m.tasks.queue[k].0)
            &&& m2.blocking == m.blocking
        },
        (forall|j: int| 0 <= j < m.tasks.queue.len() ==> (#[trigger] m.tasks.queue[j]).1 is None)
            ==> {
            let (m2, w) = m.notified();
            &&& m2.tasks.queue.len() == 0
            &&& m2.tasks.idle == m.tasks.idle
            &&& m.blocking.linked.len() == 0 ==> w is None && m2.blocking == m.blocking
            &&& m.blocking.linked.len() > 0 ==> {
                &&& w == Some(m.blocking.linked[0].1)
                &&& m2.blocking.linked == m.blocking.linked.drop_first()
                &&& m2.blocking.idle == m.blocking.idle.insert(m.blocking.linked[0].0)
            }
        },
{
    let q = m.tasks.queue;
    let s = super::async_list::skip_dead(q);
    super::async_list::lemma_skip_dead(q);
    let d = q.len() - s.len();
    if 0 <= k < q.len() && q[k].1 is Some && (forall|j: int| 0 <= j < k ==> (#[trigger] q[j]).1 is None) {
        if k < d {
            assert(q[k].1 is None);
        }
        if d < k {
            assert(q[d].1 is None);
            assert(s[0] == q[d]);
        }
        assert(s.drop_first() =~= q.subrange(k + 1, q.len() as int));
    }
    if forall|j: int| 0 <= j < q.len() ==> (#[trigger] q[j]).1 is None {
        if s.len() > 0 {
            assert(s[0] == q[d]);
        }
    }
}

/// When everybody is woken, the threads are woken first and then the tasks, each by age and
/// each once, and nobody is left in a line.
pub proof fn law_waking_all_leaves_nobody<W>(m: WaitModel<W>)
    ensures
        m.all_woken().tasks.queue.len() == 0,
        m.all_woken().blocking.linked.len() == 0,
        m.everyone().len() == live_waiters(m),
        forall|k: int|
            0 <= k < m.blocking.linked.len() ==> #[trigger] m.everyone()[k] == m.blocking.linked[k].1,
        forall|k: int|
            0 <= k < m.tasks.queue.len() && (#[trigger] m.tasks.queue[k]).1 is Some
                ==> m.everyone().contains(m.tasks.queue[k].1->Some_0),
{
    let q = m.tasks.queue;
    let l = super::async_list::live(q);
    super::async_list::lemma_live(q);
    assert forall|k: int| 0 <= k < q.len() && (#[trigger] q[k]).1 is Some implies m.everyone().contains(
        q[k].1->Some_0,
    ) by {
        let j = choose|j: int| 0 <= j < l.len() && l[j] == q[k];
        assert(m.everyone()[m.blocking.linked.len() + j] == q[k].1->Some_0);
    }
}

/// A thread that leaves the line takes nobody else's place: the others stand as before, in
/// order, and the tasks are untouched. So does a task that gives up, apart from tombstones,
/// which nobody waits behind.
pub proof fn law_leaving_keeps_the_others<W>(m: WaitModel<W>, id: usize)
    requires
        m.sound(),
    ensures
        m.unparked(id).tasks == m.tasks,
        m.unparked(id).blocking.linked == others(m.blocking.linked, id),
        m.task_gone(Some(id)).blocking == m.blocking,
        m.task_gone(None) == m,
        super::async_list::live(m.task_gone(Some(id)).tasks.queue) == m.tasks.queue.filter(
            |p: (usize, Option<W>)| p.1 is Some && p.0 != id,
        ),
{
    crate::waiters::lemma_without_filter(m.blocking.linked, id);
    super::sync::law_cancel_keeps_the_others_in_order(m.tasks.queue, id);
    lemma_marked_filter(m.tasks.queue, id);
}

proof fn lemma_marked_filter<W>(q: Seq<(usize, Option<W>)>, id: usize)
    ensures
        super::async_list::live(super::async_list::marked(q, id)) == q.filter(
            |p: (usize, Option<W>)| p.1 is Some && p.0 != id,
        ),
    decreases q.len(),
{
    reveal(Seq::filter);
    let p = super::async_list::marked(q, id);
    if q.len() > 0 {
        let t = q.drop_last();
        lemma_marked_filter(t, id);
        let pt = super::async_list::marked(t, id);
        let e = p[q.len() - 1];
        assert(p =~= pt.push(e));
        super::async_list::lemma_push(pt, e);
    } else {
        assert(p =~= q);
    }
}

/// A send that was answered before is answered with success again, and sends nothing more.
pub proof fn law_answered_send_sends_no_more<T, W>(
    m: ChannelModel<T, W>,
    cap: int,
    slot: Option<usize>,
    waker: W,
    m2: ChannelModel<T, W>,
    value2: Option<T>,
    slot2: Option<usize>,
    r: SendPoll<T>,
)
    requires
        poll_sent(m, cap, None, slot, waker, m2, value2, slot2, r),
    ensures
        r == SendPoll::<T>::Ready(Ok(())),
        value2 is None,
        slot2 is None,
        m2.pending == m.pending,
        m2.recv_waiters == m.recv_waiters,
        m2.woken == m.woken,
{
}

/// A send that is given up takes nothing out of the channel and puts nothing in; the wake-up
/// that it may have used up goes to the next sender. So with a receive.
pub proof fn law_giving_up_moves_no_item<T, W>(m: ChannelModel<T, W>, slot: Option<usize>)
    ensures
        m.send_task_gone(slot).pending == m.pending,
        m.send_task_gone(slot).recv_waiters == m.recv_waiters,
        m.send_task_gone(slot).woken == m.woken,
        m.recv_task_gone(slot).pending == m.pending,
        m.recv_task_gone(slot).send_waiters == m.send_waiters,
        m.recv_task_gone(slot).woken == m.woken,
        m.send_task_gone(None) == m,
        m.recv_task_gone(None) == m,
        live_waiters(m.send_waiters.task_gone(slot)) > 0 ==> m.send_task_gone(
            slot,
        ).sender_notified().woken.len() == m.woken.len() + 1,
        live_waiters(m.recv_waiters.task_gone(slot)) > 0 ==> m.recv_task_gone(
            slot,
        ).receiver_notified().woken.len() == m.woken.len() + 1,
{
    super::laws::lemma_notified_count(m.send_waiters.task_gone(slot));
    super::laws::lemma_notified_count(m.recv_waiters.task_gone(slot));
}

/// A send that waits for its reserved position counts its looks from one on, and pauses by
/// their number.
pub proof fn law_reserved_send_counts_its_looks<T, W>(
    pre: SendOp<T>,
    m: ChannelModel<T, W>,
    ev: SendEvent<W>,
    cap: int,
    multi: bool,
    post: SendOp<T>,
    m2: ChannelModel<T, W>,
    r: SendStep<T>,
)
    requires
        pre.fits(m),
        pre.expects(ev),
        post.stepped(&pre, m, ev, cap, multi, m2, r),
        post.phase() is Reserved,
    ensures
        pre.phase() is Begin ==> post.phase()->waits == 1 && r is Spin,
        pre.phase() is Reserved ==> {
            let waits = post.phase()->waits;
            &&& waits == pre.phase()->waits + 1 || (waits == u32::MAX && pre.phase()->waits
                == u32::MAX)
            &&& r is Spin <==> waits < 64
            &&& r is Yield <==> 64 <= waits < 256
            &&& r is Sleep <==> waits >= 256
        },
        pre.phase() is Begin || pre.phase() is Reserved,
{
}

/// A thread that wakes up leaves the line, and nobody else loses the place in it; nothing else
/// changes, and the thread looks again.
pub proof fn law_parked_thread_leaves_its_line<T, W>(
    send_pre: SendOp<T>,
    send_post: SendOp<T>,
    recv_pre: RecvOp,
    recv_post: RecvOp,
    m: ChannelModel<T, W>,
    cap: int,
    multi: bool,
    m2: ChannelModel<T, W>,
    sent: SendStep<T>,
    got: RecvStep<T>,
)
    requires
        m.send_waiters.sound(),
        m.recv_waiters.sound(),
    ensures
        send_pre.phase() is Parked && send_post.stepped(
            &send_pre,
            m,
            SendEvent::Go,
            cap,
            multi,
            m2,
            sent,
        ) ==> {
            &&& sent is Again && send_post.phase() is Attempt
            &&& m2.send_waiters.blocking.linked == others(
                m.send_waiters.blocking.linked,
                send_pre.phase()->node,
            )
            &&& m2.send_waiters.tasks == m.send_waiters.tasks
            &&& m2 == (ChannelModel { send_waiters: m2.send_waiters, ..m })
        },
        recv_pre.phase() is Parked && recv_post.stepped(&recv_pre, m, RecvEvent::Go, m2, got) ==> {
            &&& got is Again && recv_post.phase() is Attempt
            &&& m2.recv_waiters.blocking.linked == others(
                m.recv_waiters.blocking.linked,
                recv_pre.phase()->node,
            )
            &&& m2.recv_waiters.tasks == m.recv_waiters.tasks
            &&& m2 == (ChannelModel { recv_waiters: m2.recv_waiters, ..m })
        },
{
    if send_pre.phase() is Parked {
        crate::waiters::lemma_without_filter(
            m.send_waiters.blocking.linked,
            send_pre.phase()->node,
        );
    }
    if recv_pre.phase() is Parked {
        crate::waiters::lemma_without_filter(
            m.recv_waiters.blocking.linked,
            recv_pre.phase()->node,
        );
    }
}

} // verus!
