use super::model::ChannelModel;
use super::sync::SyncList;
use crate::pow2::word;
use crate::ring::{offset, values};
use vstd::prelude::*;

verus! {

/// Channel state that allows more than one sender. Only such a state lets a sender be
/// cloned.
pub trait MultiProducer {

}

/// Channel state that allows more than one receiver.
pub trait MultiConsumer {

}

/// How far a blocking push got.
pub enum Pushed<T> {
    /// The item is in the channel.
    Done,
    /// The item was not taken.
    Refused(T),
    /// Position `pos` is reserved for the item; its cell is not ready yet.
    Waiting {
        value: T,
        pos: usize,
    },
}

/// The state that the handles of one channel share.
///
/// Whoever operates on it has it for itself for the time of one call. Wake-ups are
/// decided during a call and delivered by the caller afterwards, out of `take_woken`.
pub trait InnerChannel<T, const CAP: usize, W>: Sized {
    spec fn model(&self) -> ChannelModel<T, W>;

    spec fn wf(&self) -> bool;

    /// Whether a side may have more than one handle. If so, handles are counted, and a
    /// blocked sender reserves its position.
    spec fn multi() -> bool;

    proof fn lemma_sound(&self)
        requires
            self.wf(),
        ensures
            self.model().sound(CAP as int),
            !Self::multi() ==> forall|k: int|
                0 <= k < self.model().pending.len() ==> (#[trigger] self.model().pending[k]) is Some,
    ;

    /// Takes the item if there is room; hands it back if not.
    fn push(&mut self, v: T) -> (r: Result<(), T>)
        requires
            old(self).wf(),
        ensures
            final(self).wf(),
            r is Ok <==> old(self).model().can_push(CAP as int),
            r is Ok ==> final(self).model() == old(self).model().pushed(v),
            r is Err ==> r->Err_0 == v && final(self).model() == old(self).model(),
    ;

    /// Takes the item, or a position for it, so that later senders come after it.
    fn push_blocking(&mut self, v: T) -> (r: Pushed<T>)
        requires
            old(self).wf(),
            old(self).model().pending.len() + CAP < word(),
        ensures
            final(self).wf(),
            ({
                let m = old(self).model();
                if Self::multi() && m.rx_closed {
                    r == Pushed::Refused(v) && final(self).model() == m
                } else if m.can_push(CAP as int) {
                    r is Done && final(self).model() == m.pushed(v)
                } else if Self::multi() {
                    &&& r is Waiting
                    &&& r->value == v
                    &&& final(self).model() == m.reserved()
                    &&& offset(m.head, r->pos) == m.pending.len()
                    &&& final(self).model().is_reserved(r->pos)
                } else {
                    r == Pushed::Refused(v) && final(self).model() == m
                }
            }),
    ;

    /// Writes the item to its reserved position once the cell is ready; gives up if the
    /// receivers are gone. Where positions are never reserved the item is not taken.
    fn push_reserved(&mut self, pos: usize, v: T) -> (r: Pushed<T>)
        requires
            old(self).wf(),
            Self::multi() ==> old(self).model().is_reserved(pos),
        ensures
            final(self).wf(),
            ({
                let m = old(self).model();
                if Self::multi() && offset(m.head, pos) < CAP {
                    r is Done && final(self).model() == m.filled(pos, v)
                } else if !Self::multi() || m.rx_closed {
                    r == Pushed::Refused(v) && final(self).model() == m
                } else {
                    r == (Pushed::Waiting { value: v, pos }) && final(self).model() == m
                }
            }),
    ;

    /// Takes the oldest item out.
    fn pop(&mut self) -> (r: Option<T>)
        requires
            old(self).wf(),
        ensures
            final(self).wf(),
            r is Some <==> old(self).model().can_pop(),
            r is Some ==> {
                &&& r == old(self).model().pending[0]
                &&& final(self).model() == old(self).model().popped()
            },
            r is None ==> final(self).model() == old(self).model(),
    ;

    /// Takes items off the front of `buf` while there is room, and says how many. Takes
    /// none once the receivers are gone.
    fn push_batch(&mut self, buf: &mut Vec<T>) -> (n: usize)
        requires
            old(self).wf(),
        ensures
            final(self).wf(),
            n == old(self).model().room(CAP as int, old(buf)@.len() as int),
            final(self).model() == old(self).model().pushed_all(old(buf)@.subrange(0, n as int)),
            final(buf)@ == old(buf)@.subrange(n as int, old(buf)@.len() as int),
            !old(self).model().rx_closed ==> final(buf)@.len() == 0
                || final(self).model().pending.len() >= CAP,
    ;

    /// Moves up to `max` items to the end of `buf`. The flag says that there were none
    /// and none will come.
    fn pop_batch(&mut self, buf: &mut Vec<T>, max: usize) -> (r: (usize, bool))
        requires
            old(self).wf(),
        ensures
            final(self).wf(),
            r.0 == old(self).model().available(max as int),
            r.1 == (r.0 == 0 && old(self).model().drained()),
            final(self).model() == old(self).model().popped_n(r.0 as int),
            final(buf)@ == old(buf)@ + values(old(self).model().pending.subrange(0, r.0 as int)),
    ;

    fn is_empty(&self) -> (b: bool)
        requires
            self.wf(),
        ensures
            b == (self.model().pending.len() == 0),
    ;

    fn is_tx_closed(&self) -> (b: bool)
        requires
            self.wf(),
        ensures
            b == self.model().tx_closed,
    ;

    fn is_rx_closed(&self) -> (b: bool)
        requires
            self.wf(),
        ensures
            b == self.model().rx_closed,
    ;

    fn notify_receivers(&mut self)
        requires
            old(self).wf(),
        ensures
            final(self).wf(),
            final(self).model() == old(self).model().receiver_notified(),
    ;

    fn notify_senders(&mut self)
        requires
            old(self).wf(),
        ensures
            final(self).wf(),
            final(self).model() == old(self).model().sender_notified(),
    ;

    fn notify_receivers_n(&mut self, n: usize)
        requires
            old(self).wf(),
        ensures
            final(self).wf(),
            final(self).model() == old(self).model().receivers_notified(n as nat),
    ;

    fn notify_senders_n(&mut self, n: usize)
        requires
            old(self).wf(),
        ensures
            final(self).wf(),
            final(self).model() == old(self).model().senders_notified(n as nat),
    ;

    fn notify_all_on_tx_close(&mut self)
        requires
            old(self).wf(),
        ensures
            final(self).wf(),
            final(self).model() == old(self).model().all_receivers_notified(),
    ;

    fn notify_all_on_rx_close(&mut self)
        requires
            old(self).wf(),
        ensures
            final(self).wf(),
            final(self).model() == old(self).model().all_senders_notified(),
    ;

    /// Counts one more receiver; returns how many there were.
    fn receiver_add(&mut self) -> (n: usize)
        requires
            old(self).wf(),
        ensures
            final(self).wf(),
            n == old(self).model().receivers,
            final(self).model() == old(self).model().receivers_changed(Self::multi(), 1),
    ;

    /// Counts one receiver less; returns how many there were.
    fn receiver_sub(&mut self) -> (n: usize)
        requires
            old(self).wf(),
        ensures
            final(self).wf(),
            n == old(self).model().receivers,
            final(self).model() == old(self).model().receivers_changed(Self::multi(), -1),
    ;

    /// Counts one more sender; returns how many there were.
    fn sender_add(&mut self) -> (n: usize)
        requires
            old(self).wf(),
        ensures
            final(self).wf(),
            n == old(self).model().senders,
            final(self).model() == old(self).model().senders_changed(Self::multi(), 1),
    ;

    /// Counts one sender less; returns how many there were.
    fn sender_sub(&mut self) -> (n: usize)
        requires
            old(self).wf(),
        ensures
            final(self).wf(),
            n == old(self).model().senders,
            final(self).model() == old(self).model().senders_changed(Self::multi(), -1),
    ;

    fn tx_close(&mut self)
        requires
            old(self).wf(),
        ensures
            final(self).wf(),
            final(self).model() == (ChannelModel { tx_closed: true, ..old(self).model() }),
    ;

    fn rx_close(&mut self)
        requires
            old(self).wf(),
        ensures
            final(self).wf(),
            final(self).model() == (ChannelModel { rx_closed: true, ..old(self).model() }),
    ;

    /// The tasks and threads that wait to send.
    fn sender_waiters(&mut self) -> (r: &mut SyncList<W>)
        requires
            old(self).wf(),
        ensures
            r.wf(),
            r@ == old(self).model().send_waiters,
            final(r).wf() ==> final(self).wf(),
            final(self).model() == (ChannelModel { send_waiters: final(r)@, ..old(self).model() }),
    ;

    /// The tasks and threads that wait to receive.
    fn receiver_waiters(&mut self) -> (r: &mut SyncList<W>)
        requires
            old(self).wf(),
        ensures
            r.wf(),
            r@ == old(self).model().recv_waiters,
            final(r).wf() ==> final(self).wf(),
            final(self).model() == (ChannelModel { recv_waiters: final(r)@, ..old(self).model() }),
    ;

    /// How many items are on their way, reserved positions counted.
    fn queued(&self) -> (n: usize)
        requires
            self.wf(),
        ensures
            n == self.model().pending.len(),
    ;

    /// Hands out whom to wake.
    fn take_woken(&mut self) -> (r: Vec<W>)
        requires
            old(self).wf(),
        ensures
            final(self).wf(),
            r@ == old(self).model().woken,
            final(self).model() == (ChannelModel { woken: Seq::empty(), ..old(self).model() }),
    ;
}

} // verus!
