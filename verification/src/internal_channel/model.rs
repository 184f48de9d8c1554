use super::sync::{opt_seq, WaitModel};
use crate::pow2::{is_pow2, word};
use crate::ring::{batch_ready, batch_room, next_pos, offset, pos_after, written};
use vstd::prelude::*;

verus! {

/// What a channel holds: the items on their way, who waits on either side, how many
/// handles there are, and whom the operations so far have decided to wake.
pub struct ChannelModel<T, W> {
    /// The positions from the oldest unread one to the newest: an item, or `None` for a
    /// position that a blocked sender has reserved.
    pub pending: Seq<Option<T>>,
    /// The position of the oldest of them.
    pub head: usize,
    pub send_waiters: WaitModel<W>,
    pub recv_waiters: WaitModel<W>,
    pub senders: usize,
    pub receivers: usize,
    /// Every sender is gone.
    pub tx_closed: bool,
    /// Every receiver is gone.
    pub rx_closed: bool,
    /// Whom to wake.
    pub woken: Seq<W>,
}

impl<T, W> ChannelModel<T, W> {
    /// A new channel with one sender and one receiver.
    pub open spec fn initial() -> Self {
        ChannelModel {
            pending: Seq::empty(),
            head: 0,
            send_waiters: WaitModel::empty(),
            recv_waiters: WaitModel::empty(),
            senders: 1,
            receivers: 1,
            tx_closed: false,
            rx_closed: false,
            woken: Seq::empty(),
        }
    }

    /// What holds of every channel of capacity `cap`.
    pub open spec fn sound(self, cap: int) -> bool {
        &&& is_pow2(cap)
        &&& 0 < cap
        &&& self.pending.len() + cap <= word()
        &&& forall|k: int| cap <= k < self.pending.len() ==> (#[trigger] self.pending[k]) is None
        &&& self.send_waiters.sound()
        &&& self.recv_waiters.sound()
    }

    /// There is room for one more item.
    pub open spec fn can_push(self, cap: int) -> bool {
        self.pending.len() < cap
    }

    /// The oldest item can be read.
    pub open spec fn can_pop(self) -> bool {
        self.pending.len() > 0 && self.pending[0] is Some
    }

    /// Nothing is left and nothing will come.
    pub open spec fn drained(self) -> bool {
        self.tx_closed && self.pending.len() == 0
    }

    /// Position `pos` is reserved and not yet written.
    pub open spec fn is_reserved(self, pos: usize) -> bool {
        &&& offset(self.head, pos) < self.pending.len()
        &&& self.pending[offset(self.head, pos)] is None
    }

    /// The sequence number that cell `i` of the ring carries.
    pub open spec fn cell_sequence(self, i: int, cap: int) -> int {
        let k = (i - self.head) % cap;
        if k < self.pending.len() && self.pending[k] is Some {
            (self.head + k + 1) % word()
        } else {
            (self.head + k) % word()
        }
    }

    pub open spec fn pushed(self, v: T) -> Self {
        ChannelModel { pending: self.pending.push(Some(v)), ..self }
    }

    pub open spec fn reserved(self) -> Self {
        ChannelModel { pending: self.pending.push(None), ..self }
    }

    pub open spec fn filled(self, pos: usize, v: T) -> Self {
        ChannelModel {
            pending: self.pending.update(offset(self.head, pos), Some(v)),
            ..self
        }
    }

    pub open spec fn popped(self) -> Self {
        ChannelModel {
            pending: self.pending.drop_first(),
            head: next_pos(self.head),
            ..self
        }
    }

    /// How many of `want` items a batch send takes.
    pub open spec fn room(self, cap: int, want: int) -> int {
        if self.rx_closed {
            0
        } else {
            batch_room(self.pending.len() as int, cap, want)
        }
    }

    pub open spec fn pushed_all(self, vs: Seq<T>) -> Self {
        ChannelModel { pending: self.pending + written(vs), ..self }
    }

    /// How many items a batch receive of at most `max` takes.
    pub open spec fn available(self, max: int) -> int {
        batch_ready(self.pending, max)
    }

    pub open spec fn popped_n(self, n: int) -> Self {
        ChannelModel {
            pending: self.pending.subrange(n, self.pending.len() as int),
            head: pos_after(self.head, n),
            ..self
        }
    }

    /// One receiver has been picked to be woken, if one waits.
    pub open spec fn receiver_notified(self) -> Self {
        let (m, w) = self.recv_waiters.notified();
        ChannelModel { recv_waiters: m, woken: self.woken + opt_seq(w), ..self }
    }

    /// One sender has been picked to be woken, if one waits.
    pub open spec fn sender_notified(self) -> Self {
        let (m, w) = self.send_waiters.notified();
        ChannelModel { send_waiters: m, woken: self.woken + opt_seq(w), ..self }
    }

    pub open spec fn receivers_notified(self, n: nat) -> Self {
        let (m, ws) = self.recv_waiters.notified_n(n);
        ChannelModel { recv_waiters: m, woken: self.woken + ws, ..self }
    }

    pub open spec fn senders_notified(self, n: nat) -> Self {
        let (m, ws) = self.send_waiters.notified_n(n);
        ChannelModel { send_waiters: m, woken: self.woken + ws, ..self }
    }

    pub open spec fn all_receivers_notified(self) -> Self {
        ChannelModel {
            recv_waiters: self.recv_waiters.all_woken(),
            woken: self.woken + self.recv_waiters.everyone(),
            ..self
        }
    }

    pub open spec fn all_senders_notified(self) -> Self {
        ChannelModel {
            send_waiters: self.send_waiters.all_woken(),
            woken: self.woken + self.send_waiters.everyone(),
            ..self
        }
    }

    /// One handle more or less; a side that cannot have more than one stays at one.
    pub open spec fn senders_changed(self, counted: bool, by: int) -> Self {
        if counted {
            ChannelModel { senders: ((self.senders + by) % word()) as usize, ..self }
        } else {
            self
        }
    }

    pub open spec fn receivers_changed(self, counted: bool, by: int) -> Self {
        if counted {
            ChannelModel { receivers: ((self.receivers + by) % word()) as usize, ..self }
        } else {
            self
        }
    }

    /// A sender is gone; with the last one the channel closes and everybody who waits to
    /// receive is woken.
    pub open spec fn sender_gone(self, counted: bool) -> Self {
        let m = self.senders_changed(counted, -1);
        if self.senders == 1 {
            (ChannelModel { tx_closed: true, ..m }).all_receivers_notified()
        } else {
            m
        }
    }

    /// A receiver is gone; with the last one the channel refuses further items and
    /// everybody who waits to send is woken.
    pub open spec fn receiver_gone(self, counted: bool) -> Self {
        let m = self.receivers_changed(counted, -1);
        if self.receivers == 1 {
            (ChannelModel { rx_closed: true, ..m }).all_senders_notified()
        } else {
            m
        }
    }

    /// Sender `node` has queued up.
    pub open spec fn sender_parked(self, node: usize, thread: W) -> Self {
        ChannelModel { send_waiters: self.send_waiters.parked(node, thread), ..self }
    }

    /// Sender `node` has left the queue, woken or not.
    pub open spec fn sender_unparked(self, node: usize) -> Self {
        ChannelModel { send_waiters: self.send_waiters.unparked(node), ..self }
    }

    /// Receiver `node` has queued up.
    pub open spec fn receiver_parked(self, node: usize, thread: W) -> Self {
        ChannelModel { recv_waiters: self.recv_waiters.parked(node, thread), ..self }
    }

    /// Receiver `node` has left the queue, woken or not.
    pub open spec fn receiver_unparked(self, node: usize) -> Self {
        ChannelModel { recv_waiters: self.recv_waiters.unparked(node), ..self }
    }

    /// A task has given up its wait to send.
    pub open spec fn send_task_gone(self, slot: Option<usize>) -> Self {
        ChannelModel { send_waiters: self.send_waiters.task_gone(slot), ..self }
    }

    /// A task has given up its wait to receive.
    pub open spec fn recv_task_gone(self, slot: Option<usize>) -> Self {
        ChannelModel { recv_waiters: self.recv_waiters.task_gone(slot), ..self }
    }

    /// The channel after an item was sent: it is the newest, and a receiver is woken.
    pub open spec fn sent(self, v: T) -> Self {
        self.pushed(v).receiver_notified()
    }

    /// The channel after its oldest item was received: a sender is woken.
    pub open spec fn received(self) -> Self {
        self.popped().sender_notified()
    }
}

} // verus!
