use super::async_list::{lemma_live, lemma_skip_dead, live, skip_dead};
use super::errors::{TryRecvError, TrySendError};
use super::model::ChannelModel;
use super::receiver::try_received;
use super::sender::{try_sent, SendEvent, SendOp, SendStep};
use super::sync::WaitModel;
use crate::pow2::{lemma_word, word};
use crate::ring::{lemma_offset, lemma_ready_all, next_pos, offset, ready, values};
use vstd::arithmetic::div_mod::{lemma_mod_bound, lemma_small_mod, lemma_sub_mod_noop};
use vstd::prelude::*;

verus! {

/// Every position is written: no sender has reserved one and not yet filled it.
pub open spec fn gapless<T, W>(m: ChannelModel<T, W>) -> bool {
    forall|k: int| 0 <= k < m.pending.len() ==> (#[trigger] m.pending[k]) is Some
}

/// First in, first out: what a channel holds is received in order, and what was sent last
/// comes last. Nothing is lost and nothing comes twice.
pub proof fn law_fifo<T, W>(m: ChannelModel<T, W>, vs: Seq<T>)
    requires
        gapless(m),
    ensures
        gapless(m.pushed_all(vs)),
        values(m.pushed_all(vs).pending) == values(m.pending) + vs,
        ready(m.pushed_all(vs).pending) == m.pending.len() + vs.len(),
        forall|max: int|
            m.pending.len() + vs.len() <= max ==> {
                let n = #[trigger] m.pushed_all(vs).available(max);
                values(m.pushed_all(vs).pending.subrange(0, n)) == values(m.pending) + vs
            },
{
    let m2 = m.pushed_all(vs);
    assert(values(m2.pending) =~= values(m.pending) + vs);
    lemma_ready_all(m2.pending);
    assert(m2.pending.subrange(0, m2.pending.len() as int) =~= m2.pending);
}

/// What is received is the oldest item, and receiving it leaves the rest in order.
pub proof fn law_receive_takes_the_oldest<T, W>(m: ChannelModel<T, W>)
    requires
        gapless(m),
        m.pending.len() > 0,
    ensures
        try_received(m).1 == Ok::<T, TryRecvError>(values(m.pending)[0]),
        values(try_received(m).0.pending) == values(m.pending).drop_first(),
        gapless(try_received(m).0),
{
    assert(m.pending[0] is Some);
    let m2 = try_received(m).0;
    assert(values(m2.pending) =~= values(m.pending).drop_first());
    assert forall|k: int| 0 <= k < m2.pending.len() implies (#[trigger] m2.pending[k]) is Some by {
        assert(m.pending[k + 1] is Some);
    }
}

/// A send and then a receive on an empty channel give the item back and leave it empty.
pub proof fn law_round_trip<T, W>(m: ChannelModel<T, W>, cap: int, v: T)
    requires
        m.pending.len() == 0,
        !m.rx_closed,
        0 < cap,
    ensures
        try_sent(m, cap, v).1 is Ok,
        try_received(try_sent(m, cap, v).0).1 == Ok::<T, TryRecvError>(v),
        try_received(try_sent(m, cap, v).0).0.pending.len() == 0,
{
}

/// How many items a channel holds.
pub open spec fn item_count<T>(pending: Seq<Option<T>>) -> nat
    decreases pending.len(),
{
    if pending.len() == 0 {
        0
    } else {
        item_count(pending.drop_last()) + if pending.last() is Some { 1nat } else { 0nat }
    }
}

proof fn lemma_item_count<T>(pending: Seq<Option<T>>, cap: int)
    requires
        0 <= cap,
        forall|k: int| cap <= k < pending.len() ==> (#[trigger] pending[k]) is None,
    ensures
        item_count(pending) <= cap,
        item_count(pending) <= pending.len(),
    decreases pending.len(),
{
    if pending.len() > 0 {
        let t = pending.drop_last();
        if pending.len() <= cap {
            lemma_item_count(t, pending.len() - 1);
        } else {
            lemma_item_count(t, cap);
            assert(pending[pending.len() - 1] is None);
        }
    }
}

/// A channel never holds more items than its capacity, however many senders have
/// reserved positions.
pub proof fn law_bounded<T, W>(m: ChannelModel<T, W>, cap: int)
    requires
        m.sound(cap),
    ensures
        item_count(m.pending) <= cap,
{
    lemma_item_count(m.pending, cap);
}

/// A send that is refused hands the item back and changes nothing.
pub proof fn law_refusal_returns_the_item<T, W>(m: ChannelModel<T, W>, cap: int, v: T)
    ensures
        try_sent(m, cap, v).1 is Err ==> {
            &&& try_sent(m, cap, v).1->Err_0.item() == v
            &&& try_sent(m, cap, v).0 == m
        },
        try_sent(m, cap, v).1 is Ok ==> try_sent(m, cap, v).0.pending == m.pending.push(Some(v)),
{
}

/// Once the senders are gone, receivers still get every item that is left, and only then
/// learn that the channel is closed. From then on they learn nothing else.
pub proof fn law_closed_channel_drains<T, W>(m: ChannelModel<T, W>)
    requires
        m.tx_closed,
        gapless(m),
    ensures
        try_received(m).0.tx_closed,
        m.pending.len() > 0 ==> try_received(m).1 is Ok && try_received(m).0.pending.len()
            == m.pending.len() - 1,
        m.pending.len() == 0 ==> try_received(m) == (
            m,
            Err::<T, TryRecvError>(TryRecvError::Disconnected),
        ),
{
    if m.pending.len() > 0 {
        assert(m.pending[0] is Some);
    }
}

/// Once the receivers are gone, every send is refused as such.
pub proof fn law_no_send_after_the_receivers<T, W>(m: ChannelModel<T, W>, cap: int, v: T)
    requires
        m.rx_closed,
    ensures
        try_sent(m, cap, v) == (m, Err::<(), _>(TrySendError::Disconnected(v))),
{
}

/// A reservation stays its owner's whatever else happens to the channel; each receive
/// brings it one position nearer to the front.
pub proof fn law_reservation_stays<T, W>(m: ChannelModel<T, W>, cap: int, pos: usize)
    requires
        m.sound(cap),
        m.is_reserved(pos),
    ensures
        m.can_pop() ==> {
            &&& m.popped().is_reserved(pos)
            &&& offset(m.popped().head, pos) == offset(m.head, pos) - 1
        },
        forall|v: T| #[trigger] m.pushed(v).is_reserved(pos),
        m.reserved().is_reserved(pos),
        forall|q: usize, v: T|
            m.is_reserved(q) && q != pos ==> #[trigger] m.filled(q, v).is_reserved(pos),
{
    lemma_offset(m.head, pos);
    if m.can_pop() {
        let k = offset(m.head, pos);
        assert(k > 0);
        let h1 = next_pos(m.head);
        lemma_mod_bound(m.head + 1, word());
        lemma_sub_mod_noop(pos as int, m.head + 1, word());
        lemma_sub_mod_noop(pos as int, h1 as int, word());
        lemma_small_mod(h1 as nat, word() as nat);
        lemma_sub_mod_noop(pos - m.head, 1, word());
        lemma_small_mod(1, word() as nat);
        lemma_small_mod((k - 1) as nat, word() as nat);
        assert(pos - (m.head + 1) == pos - m.head - 1);
        assert(m.popped().pending[k - 1] == m.pending[k]);
    }
    assert forall|q: usize, v: T|
        m.is_reserved(q) && q != pos implies #[trigger] m.filled(q, v).is_reserved(pos) by {
        lemma_offset(m.head, q);
        assert(offset(m.head, q) != offset(m.head, pos));
    }
}

/// A reserved position can be filled once it is among the first `cap`.
pub proof fn law_reservation_is_served_in_turn<T, W>(m: ChannelModel<T, W>, pos: usize, v: T)
    requires
        m.is_reserved(pos),
        offset(m.head, pos) == 0,
    ensures
        m.filled(pos, v).can_pop(),
        m.filled(pos, v).pending[0] == Some(v),
{
}

/// How many waiters a wake-up could reach.
pub open spec fn live_waiters<W>(m: WaitModel<W>) -> nat {
    live(m.tasks.queue).len() + m.blocking.linked.len()
}

pub proof fn lemma_notified_count<W>(m: WaitModel<W>)
    ensures
        live_waiters(m) > 0 ==> {
            &&& m.notified().1 is Some
            &&& live_waiters(m.notified().0) == live_waiters(m) - 1
        },
        live_waiters(m) == 0 ==> m.notified().1 is None && live_waiters(m.notified().0) == 0,
{
    let q = m.tasks.queue;
    lemma_skip_dead(q);
    let s = skip_dead(q);
    if s.len() > 0 {
        assert(live(s) == seq![s[0]] + live(s.drop_first()));
    } else {
        assert(live(s).len() == 0);
    }
    if q.len() == 0 {
        assert(live(q).len() == 0);
    }
}

/// `n` wake-ups reach `n` waiters, or all of them if there are fewer.
pub proof fn law_wake_ups_are_not_lost<W>(m: WaitModel<W>, n: nat)
    ensures
        m.notified_n(n).1.len() == if n < live_waiters(m) {
            n
        } else {
            live_waiters(m)
        },
        live_waiters(m.notified_n(n).0) == live_waiters(m) - m.notified_n(n).1.len(),
    decreases n,
{
    if n > 0 {
        lemma_notified_count(m);
        if m.has_waiters() {
            law_wake_ups_are_not_lost(m.notified().0, (n - 1) as nat);
        } else {
            lemma_live(m.tasks.queue);
        }
    }
}

/// Sending an item wakes a receiver if one waits, and receiving one wakes a sender.
pub proof fn law_transfer_wakes_the_other_side<T, W>(m: ChannelModel<T, W>, cap: int, v: T)
    ensures
        !m.rx_closed && m.can_push(cap) && live_waiters(m.recv_waiters) > 0 ==> try_sent(
            m,
            cap,
            v,
        ).0.woken.len() == m.woken.len() + 1,
        m.can_pop() && live_waiters(m.send_waiters) > 0 ==> try_received(m).0.woken.len()
            == m.woken.len() + 1,
{
    lemma_notified_count(m.recv_waiters);
    lemma_notified_count(m.send_waiters);
}

/// A blocking send that ends has either put its item into the channel, or hands it back
/// and has changed nothing of what the channel holds.
pub proof fn law_blocking_send_keeps_the_item<T, W>(
    pre: SendOp<T>,
    m: ChannelModel<T, W>,
    ev: SendEvent<W>,
    cap: int,
    multi: bool,
    post: SendOp<T>,
    m2: ChannelModel<T, W>,
    r: SendStep<T>,
)
    requires
        pre.fits(m),
        pre.expects(ev),
        post.stepped(&pre, m, ev, cap, multi, m2, r),
    ensures
        match r {
            SendStep::Done(Ok(())) => {
                ||| m2.pending == m.pending.push(pre.value())
                ||| exists|pos: usize|
                    m.is_reserved(pos) && m2.pending == #[trigger] m.pending.update(
                        offset(m.head, pos),
                        pre.value(),
                    )
            },
            SendStep::Done(Err(e)) => Some(e.item()) == pre.value() && m2.pending == m.pending,
            _ => post.value() == pre.value(),
        },
{
    match pre.phase() {
        super::sender::SendPhase::Reserved { pos, waits } => {
            if r == SendStep::<T>::Done(Ok(())) {
                assert(m2.pending == m.pending.update(offset(m.head, pos), pre.value()));
            }
        },
        _ => {},
    }
}

/// A channel closes with the last handle of a side and not before; a clone that is given up
/// again leaves everything as it was.
pub proof fn law_last_handle_closes<T, W>(m: ChannelModel<T, W>)
    requires
        1 <= m.senders < usize::MAX,
        1 <= m.receivers < usize::MAX,
    ensures
        m.sender_gone(true).tx_closed == (m.tx_closed || m.senders == 1),
        m.receiver_gone(true).rx_closed == (m.rx_closed || m.receivers == 1),
        m.senders_changed(true, 1).sender_gone(true) == m,
        m.receivers_changed(true, 1).receiver_gone(true) == m,
        m.sender_gone(false).tx_closed == (m.tx_closed || m.senders == 1),
        m.receiver_gone(false).rx_closed == (m.rx_closed || m.receivers == 1),
        m.sender_gone(true).pending == m.pending,
        m.receiver_gone(true).pending == m.pending,
{
    lemma_word();
    lemma_small_mod((m.senders + 1) as nat, word() as nat);
    lemma_small_mod((m.receivers + 1) as nat, word() as nat);
    lemma_small_mod(m.senders as nat, word() as nat);
    lemma_small_mod(m.receivers as nat, word() as nat);
}

} // verus!
