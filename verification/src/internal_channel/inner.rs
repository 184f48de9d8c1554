use super::model::ChannelModel;
use super::sync::SyncList;
use super::traits::{InnerChannel, MultiConsumer, MultiProducer, Pushed};
use crate::pow2::{is_pow2, word};
use crate::ring::{lemma_ready, offset, pos_after, values, written, Ring};
use vstd::arithmetic::div_mod::{lemma_mod_add_multiples_vanish, lemma_small_mod};
use vstd::prelude::*;

verus! {

/// How often a sender looks again before it stops burning its core.
pub const SENDER_SPIN_COUNT: u32 = 64;

/// How often a sender that waits for its position gives way before it starts to sleep.
pub const YIELD_UNTIL: u32 = 256;

/// How long one such sleep is, in microseconds.
pub const SLEEP_MICROS: u64 = 20;

/// What both kinds of channel state have in common.
struct Base<T, const CAP: usize, W> {
    ring: Ring<T, CAP>,
    send_waiters: SyncList<W>,
    recv_waiters: SyncList<W>,
    tx_closed: bool,
    rx_closed: bool,
    woken: Vec<W>,
}

impl<T, const CAP: usize, W> Base<T, CAP, W> {
    spec fn wf(&self) -> bool {
        &&& self.ring.wf()
        &&& self.ring.reading() == Map::<usize, T>::empty()
        &&& self.send_waiters.wf()
        &&& self.recv_waiters.wf()
    }

    spec fn model(&self, senders: usize, receivers: usize) -> ChannelModel<T, W> {
        ChannelModel {
            pending: self.ring@,
            head: self.ring.head(),
            send_waiters: self.send_waiters@,
            recv_waiters: self.recv_waiters@,
            senders,
            receivers,
            tx_closed: self.tx_closed,
            rx_closed: self.rx_closed,
            woken: self.woken@,
        }
    }

    proof fn lemma_sound(&self, senders: usize, receivers: usize)
        requires
            self.wf(),
        ensures
            self.model(senders, receivers).sound(CAP as int),
    {
        self.ring.lemma_wf();
        self.send_waiters.lemma_wf();
        self.recv_waiters.lemma_wf();
    }

    fn new() -> (b: Self)
        requires
            is_pow2(CAP as int),
        ensures
            b.wf(),
            b.model(1, 1) == ChannelModel::<T, W>::initial(),
    {
        Base {
            ring: Ring::new(),
            send_waiters: SyncList::new(),
            recv_waiters: SyncList::new(),
            tx_closed: false,
            rx_closed: false,
            woken: Vec::new(),
        }
    }

    fn push_batch(&mut self, buf: &mut Vec<T>) -> (n: usize)
        requires
            old(self).wf(),
        ensures
            final(self).wf(),
            n == old(self).model(1, 1).room(CAP as int, old(buf)@.len() as int),
            final(self).model(1, 1) == old(self).model(1, 1).pushed_all(
                old(buf)@.subrange(0, n as int),
            ),
            final(buf)@ == old(buf)@.subrange(n as int, old(buf)@.len() as int),
    {
        if self.rx_closed {
            proof {
                let m = self.model(1, 1);
                assert(buf@.subrange(0, 0) =~= Seq::empty());
                assert(written(buf@.subrange(0, 0)) =~= Seq::empty());
                assert(m.pending + written(buf@.subrange(0, 0)) =~= m.pending);
                assert(buf@.subrange(0, buf@.len() as int) =~= buf@);
            }
            return 0;
        }
        self.ring.push_batch(buf)
    }

    fn pop_batch(&mut self, buf: &mut Vec<T>, max: usize) -> (r: (usize, bool))
        requires
            old(self).wf(),
        ensures
            final(self).wf(),
            r.0 == old(self).model(1, 1).available(max as int),
            r.1 == (r.0 == 0 && old(self).model(1, 1).drained()),
            final(self).model(1, 1) == old(self).model(1, 1).popped_n(r.0 as int),
            final(buf)@ == old(buf)@ + values(old(self).ring@.subrange(0, r.0 as int)),
    {
        let n: usize = self.ring.pop_batch(buf, max);
        proof {
            if n == 0 {
                assert(self.ring@ =~= old(self).ring@);
            }
        }
        let dc = n == 0 && self.tx_closed && self.ring.is_empty();
        (n, dc)
    }

    fn notify_receivers(&mut self)
        requires
            old(self).wf(),
        ensures
            final(self).wf(),
            final(self).model(1, 1) == old(self).model(1, 1).receiver_notified(),
    {
        let ghost before = self.woken@;
        match self.recv_waiters.notify_one() {
            Some(w) => {
                self.woken.push(w);
                assert(self.woken@ =~= before + seq![w]);
            },
            None => {
                assert(before =~= before + Seq::<W>::empty());
            },
        }
    }

    fn notify_senders(&mut self)
        requires
            old(self).wf(),
        ensures
            final(self).wf(),
            final(self).model(1, 1) == old(self).model(1, 1).sender_notified(),
    {
        let ghost before = self.woken@;
        match self.send_waiters.notify_one() {
            Some(w) => {
                self.woken.push(w);
                assert(self.woken@ =~= before + seq![w]);
            },
            None => {
                assert(before =~= before + Seq::<W>::empty());
            },
        }
    }

    fn take_woken(&mut self) -> (r: Vec<W>)
        requires
            old(self).wf(),
        ensures
            final(self).wf(),
            r@ == old(self).woken@,
            final(self).model(1, 1) == (ChannelModel {
                woken: Seq::empty(),
                ..old(self).model(1, 1)
            }),
    {
        let mut out: Vec<W> = Vec::new();
        out.append(&mut self.woken);
        assert(out@ =~= old(self).woken@);
        out
    }
}

/// The state of a channel with any number of senders and receivers.
pub struct SeqInner<T, const CAP: usize, W> {
    base: Base<T, CAP, W>,
    senders: usize,
    receivers: usize,
}

impl<T, const CAP: usize, W> SeqInner<T, CAP, W> {
    /// An empty channel with one sender and one receiver.
    pub fn new() -> (c: Self)
        requires
            is_pow2(CAP as int),
        ensures
            c.wf(),
            c.model() == ChannelModel::<T, W>::initial(),
    {
        SeqInner { base: Base::new(), senders: 1, receivers: 1 }
    }

    /// Takes the item, or a position for it, without looking whether there is room: later
    /// senders come after it.
    pub fn push_fetch_add(&mut self, v: T) -> (r: Pushed<T>)
        requires
            old(self).wf(),
            old(self).model().pending.len() + CAP < word(),
        ensures
            final(self).wf(),
            ({
                let m = old(self).model();
                if m.rx_closed {
                    r == Pushed::Refused(v) && final(self).model() == m
                } else if m.can_push(CAP as int) {
                    r is Done && final(self).model() == m.pushed(v)
                } else {
                    &&& r is Waiting
                    &&& r->value == v
                    &&& final(self).model() == m.reserved()
                    &&& offset(m.head, r->pos) == m.pending.len()
                    &&& final(self).model().is_reserved(r->pos)
                }
            }),
    {
        if self.base.rx_closed {
            return Pushed::Refused(v);
        }
        let pos: usize = self.base.ring.reserve();
        match self.base.ring.fill(pos, v) {
            Ok(()) => {
                assert(self.base.ring@ =~= old(self).base.ring@.push(Some(v)));
                Pushed::Done
            },
            Err(v) => Pushed::Waiting { value: v, pos },
        }
    }

    /// How many senders and receivers there are.
    pub fn handles(&self) -> (r: (usize, usize))
        ensures
            r == (self.model().senders, self.model().receivers),
    {
        (self.senders, self.receivers)
    }

    /// The sequence number of cell `i` of the ring: the position that it is free for, or one
    /// more than the position whose item it holds.
    pub fn sequence_of(&self, i: usize) -> (n: usize)
        requires
            self.wf(),
            i < CAP,
        ensures
            n == self.model().cell_sequence(i as int, CAP as int),
    {
        self.base.ring.sequence_of(i)
    }

    /// The position of the oldest item, and the next position to be taken.
    pub fn positions(&self) -> (r: (usize, usize))
        requires
            self.wf(),
        ensures
            r.0 == self.model().head,
            r.1 == pos_after(self.model().head, self.model().pending.len() as int),
    {
        self.base.ring.positions()
    }
}

impl<T, const CAP: usize, W> InnerChannel<T, CAP, W> for SeqInner<T, CAP, W> {
    closed spec fn model(&self) -> ChannelModel<T, W> {
        self.base.model(self.senders, self.receivers)
    }

    closed spec fn wf(&self) -> bool {
        self.base.wf()
    }

    open spec fn multi() -> bool {
        true
    }

    proof fn lemma_sound(&self) {
        self.base.lemma_sound(self.senders, self.receivers);
    }

    fn push(&mut self, v: T) -> (r: Result<(), T>) {
        self.base.ring.push(v)
    }

    fn push_blocking(&mut self, v: T) -> (r: Pushed<T>) {
        self.push_fetch_add(v)
    }

    fn push_reserved(&mut self, pos: usize, v: T) -> (r: Pushed<T>) {
        match self.base.ring.fill(pos, v) {
            Ok(()) => Pushed::Done,
            Err(v) => {
                if self.base.rx_closed {
                    Pushed::Refused(v)
                } else {
                    Pushed::Waiting { value: v, pos }
                }
            },
        }
    }

    fn pop(&mut self) -> (r: Option<T>) {
        self.base.ring.pop()
    }

    fn push_batch(&mut self, buf: &mut Vec<T>) -> (n: usize) {
        self.base.push_batch(buf)
    }

    fn pop_batch(&mut self, buf: &mut Vec<T>, max: usize) -> (r: (usize, bool)) {
        self.base.pop_batch(buf, max)
    }

    fn is_empty(&self) -> (b: bool) {
        self.base.ring.is_empty()
    }

    fn is_tx_closed(&self) -> (b: bool) {
        self.base.tx_closed
    }

    fn is_rx_closed(&self) -> (b: bool) {
        self.base.rx_closed
    }

    fn notify_receivers(&mut self) {
        self.base.notify_receivers();
    }

    fn notify_senders(&mut self) {
        self.base.notify_senders();
    }

    fn notify_receivers_n(&mut self, n: usize) {
        self.base.recv_waiters.notify_n(n, &mut self.base.woken);
    }

    fn notify_senders_n(&mut self, n: usize) {
        self.base.send_waiters.notify_n(n, &mut self.base.woken);
    }

    fn notify_all_on_tx_close(&mut self) {
        self.base.recv_waiters.wake_all(&mut self.base.woken);
    }

    fn notify_all_on_rx_close(&mut self) {
        self.base.send_waiters.wake_all(&mut self.base.woken);
    }

    fn receiver_add(&mut self) -> (n: usize) {
        let n: usize = self.receivers;
        proof {
            lemma_wrap(n);
        }
        self.receivers = n.wrapping_add(1);
        n
    }

    fn receiver_sub(&mut self) -> (n: usize) {
        let n: usize = self.receivers;
        proof {
            lemma_wrap(n);
        }
        self.receivers = n.wrapping_sub(1);
        n
    }

    fn sender_add(&mut self) -> (n: usize) {
        let n: usize = self.senders;
        proof {
            lemma_wrap(n);
        }
        self.senders = n.wrapping_add(1);
        n
    }

    fn sender_sub(&mut self) -> (n: usize) {
        let n: usize = self.senders;
        proof {
            lemma_wrap(n);
        }
        self.senders = n.wrapping_sub(1);
        n
    }

    fn tx_close(&mut self) {
        self.base.tx_closed = true;
    }

    fn rx_close(&mut self) {
        self.base.rx_closed = true;
    }

    fn sender_waiters(&mut self) -> (r: &mut SyncList<W>) {
        &mut self.base.send_waiters
    }

    fn receiver_waiters(&mut self) -> (r: &mut SyncList<W>) {
        &mut self.base.recv_waiters
    }

    fn queued(&self) -> (n: usize) {
        self.base.ring.len()
    }

    fn take_woken(&mut self) -> (r: Vec<W>) {
        self.base.take_woken()
    }
}

impl<T, const CAP: usize, W> MultiProducer for SeqInner<T, CAP, W> {

}

impl<T, const CAP: usize, W> MultiConsumer for SeqInner<T, CAP, W> {

}

/// Counting up and down wraps with the machine word.
pub proof fn lemma_wrap(n: usize)
    ensures
        n.wrapping_add(1) == (n + 1) % word(),
        n.wrapping_sub(1) == (n - 1) % word(),
{
    if n < usize::MAX {
        lemma_small_mod((n + 1) as nat, word() as nat);
    }
    if n > 0 {
        lemma_small_mod((n - 1) as nat, word() as nat);
    } else {
        lemma_mod_add_multiples_vanish(-1, word());
        lemma_small_mod((word() - 1) as nat, word() as nat);
    }
}

/// The state of a channel with one sender and one receiver.
pub struct SingleInner<T, const CAP: usize, W> {
    base: Base<T, CAP, W>,
}

impl<T, const CAP: usize, W> SingleInner<T, CAP, W> {
    /// An empty channel.
    pub fn new() -> (c: Self)
        requires
            is_pow2(CAP as int),
        ensures
            c.wf(),
            c.model() == ChannelModel::<T, W>::initial(),
    {
        SingleInner { base: Base::new() }
    }

    /// The sequence number of cell `i` of the ring: the position that it is free for, or one
    /// more than the position whose item it holds.
    pub fn sequence_of(&self, i: usize) -> (n: usize)
        requires
            self.wf(),
            i < CAP,
        ensures
            n == self.model().cell_sequence(i as int, CAP as int),
    {
        self.base.ring.sequence_of(i)
    }

    /// The position of the oldest item, and the next position to be taken.
    pub fn positions(&self) -> (r: (usize, usize))
        requires
            self.wf(),
        ensures
            r.0 == self.model().head,
            r.1 == pos_after(self.model().head, self.model().pending.len() as int),
    {
        self.base.ring.positions()
    }
}

impl<T, const CAP: usize, W> InnerChannel<T, CAP, W> for SingleInner<T, CAP, W> {
    closed spec fn model(&self) -> ChannelModel<T, W> {
        self.base.model(1, 1)
    }

    closed spec fn wf(&self) -> bool {
        &&& self.base.wf()
        &&& forall|k: int| 0 <= k < self.base.ring@.len() ==> (#[trigger] self.base.ring@[k]) is Some
    }

    open spec fn multi() -> bool {
        false
    }

    proof fn lemma_sound(&self) {
        self.base.lemma_sound(1, 1);
    }

    fn push(&mut self, v: T) -> (r: Result<(), T>) {
        self.base.ring.push(v)
    }

    fn push_blocking(&mut self, v: T) -> (r: Pushed<T>) {
        match self.base.ring.push(v) {
            Ok(()) => Pushed::Done,
            Err(v) => Pushed::Refused(v),
        }
    }

    fn push_reserved(&mut self, pos: usize, v: T) -> (r: Pushed<T>) {
        Pushed::Refused(v)
    }

    fn pop(&mut self) -> (r: Option<T>) {
        self.base.ring.pop()
    }

    fn push_batch(&mut self, buf: &mut Vec<T>) -> (n: usize) {
        self.base.push_batch(buf)
    }

    fn pop_batch(&mut self, buf: &mut Vec<T>, max: usize) -> (r: (usize, bool)) {
        proof {
            lemma_ready(self.base.ring@);
        }
        self.base.pop_batch(buf, max)
    }

    fn is_empty(&self) -> (b: bool) {
        self.base.ring.is_empty()
    }

    fn is_tx_closed(&self) -> (b: bool) {
        self.base.tx_closed
    }

    fn is_rx_closed(&self) -> (b: bool) {
        self.base.rx_closed
    }

    fn notify_receivers(&mut self) {
        self.base.notify_receivers();
    }

    fn notify_senders(&mut self) {
        self.base.notify_senders();
    }

    fn notify_receivers_n(&mut self, n: usize) {
        self.base.recv_waiters.notify_n(n, &mut self.base.woken);
    }

    fn notify_senders_n(&mut self, n: usize) {
        self.base.send_waiters.notify_n(n, &mut self.base.woken);
    }

    fn notify_all_on_tx_close(&mut self) {
        self.base.recv_waiters.wake_all(&mut self.base.woken);
    }

    fn notify_all_on_rx_close(&mut self) {
        self.base.send_waiters.wake_all(&mut self.base.woken);
    }

    fn receiver_add(&mut self) -> (n: usize) {
        1
    }

    fn receiver_sub(&mut self) -> (n: usize) {
        1
    }

    fn sender_add(&mut self) -> (n: usize) {
        1
    }

    fn sender_sub(&mut self) -> (n: usize) {
        1
    }

    fn tx_close(&mut self) {
        self.base.tx_closed = true;
    }

    fn rx_close(&mut self) {
        self.base.rx_closed = true;
    }

    fn sender_waiters(&mut self) -> (r: &mut SyncList<W>) {
        &mut self.base.send_waiters
    }

    fn receiver_waiters(&mut self) -> (r: &mut SyncList<W>) {
        &mut self.base.recv_waiters
    }

    fn queued(&self) -> (n: usize) {
        self.base.ring.len()
    }

    fn take_woken(&mut self) -> (r: Vec<W>) {
        self.base.take_woken()
    }
}

} // verus!
