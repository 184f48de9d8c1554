use super::sync::SyncList;
use crate::internal_channel::sync::opt_seq;
use crate::pow2::{is_pow2, word};
use crate::ring::{values, Ring};
use crate::waiters::{lemma_without_keeps, without, ListModel};
use vstd::prelude::*;

verus! {

/// What a channel holds: the items on their way, who waits on either side, how many
/// handles there are, and whom the operations so far have decided to wake.
pub struct LinkModel<T, W> {
    /// The items, oldest first.
    pub items: Seq<T>,
    pub send_waiters: ListModel<W>,
    pub recv_waiters: ListModel<W>,
    pub senders: usize,
    pub receivers: usize,
    /// Every sender is gone.
    pub tx_closed: bool,
    /// Every receiver is gone.
    pub rx_closed: bool,
    /// Whom to wake.
    pub woken: Seq<W>,
}

impl<T, W> LinkModel<T, W> {
    pub open spec fn initial() -> Self {
        LinkModel {
            items: Seq::empty(),
            send_waiters: ListModel::empty(),
            recv_waiters: ListModel::empty(),
            senders: 1,
            receivers: 1,
            tx_closed: false,
            rx_closed: false,
            woken: Seq::empty(),
        }
    }

    /// Nothing is left and nothing will come.
    pub open spec fn drained(self) -> bool {
        self.tx_closed && self.items.len() == 0
    }

    pub open spec fn pushed(self, v: T) -> Self {
        LinkModel { items: self.items.push(v), ..self }
    }

    pub open spec fn popped_n(self, n: int) -> Self {
        LinkModel { items: self.items.subrange(n, self.items.len() as int), ..self }
    }

    pub open spec fn receiver_notified(self) -> Self {
        let (m, w) = self.recv_waiters.first_out();
        LinkModel { recv_waiters: m, woken: self.woken + opt_seq(w), ..self }
    }

    pub open spec fn sender_notified(self) -> Self {
        let (m, w) = self.send_waiters.first_out();
        LinkModel { send_waiters: m, woken: self.woken + opt_seq(w), ..self }
    }

    pub open spec fn all_receivers_notified(self) -> Self {
        LinkModel {
            recv_waiters: self.recv_waiters.all_out(),
            woken: self.woken + self.recv_waiters.targets(),
            ..self
        }
    }

    pub open spec fn all_senders_notified(self) -> Self {
        LinkModel {
            send_waiters: self.send_waiters.all_out(),
            woken: self.woken + self.send_waiters.targets(),
            ..self
        }
    }

    /// The channel after an item was sent: it is the newest, and a receiver is woken.
    pub open spec fn sent(self, v: T) -> Self {
        self.pushed(v).receiver_notified()
    }

    /// The channel after its oldest item was received: a sender is woken.
    pub open spec fn received(self) -> Self {
        (LinkModel { items: self.items.drop_first(), ..self }).sender_notified()
    }

    /// A sender is gone; with the last one the channel closes.
    pub open spec fn sender_gone(self, counted: bool) -> Self {
        let m = if counted {
            LinkModel { senders: ((self.senders - 1) % word()) as usize, ..self }
        } else {
            self
        };
        if !counted || self.senders == 1 {
            (LinkModel { tx_closed: true, ..m }).all_receivers_notified()
        } else {
            m
        }
    }

    /// A receiver is gone; with the last one the channel refuses further items.
    pub open spec fn receiver_gone(self, counted: bool) -> Self {
        let m = if counted {
            LinkModel { receivers: ((self.receivers - 1) % word()) as usize, ..self }
        } else {
            self
        };
        if !counted || self.receivers == 1 {
            (LinkModel { rx_closed: true, ..m }).all_senders_notified()
        } else {
            m
        }
    }

    /// A waiter has left the senders' line, if it was in it.
    pub open spec fn send_wait_left(self, node: Option<usize>) -> Self {
        match node {
            Some(id) => LinkModel { send_waiters: self.send_waiters.left_by(id), ..self },
            None => self,
        }
    }

    /// A waiter has left the receivers' line, if it was in it.
    pub open spec fn recv_wait_left(self, node: Option<usize>) -> Self {
        match node {
            Some(id) => LinkModel { recv_waiters: self.recv_waiters.left_by(id), ..self },
            None => self,
        }
    }

    /// What holds of every channel of capacity `cap`.
    pub open spec fn sound(self, cap: int) -> bool {
        &&& is_pow2(cap)
        &&& 0 < cap
        &&& self.items.len() <= cap
        &&& self.send_waiters.sound()
        &&& self.recv_waiters.sound()
    }
}

/// How a waiter that had `node` waits in the line `l` with `target`: in node `id`, and the
/// line is `post`.
pub open spec fn line_waits<W>(
    l: ListModel<W>,
    node: Option<usize>,
    target: W,
    id: usize,
    post: ListModel<W>,
) -> bool {
    &&& post.has(id)
    &&& match node {
        Some(old) => id == old && post == l.retargeted(old, target),
        None => !l.holds(id) && post == l.joined_by(id, target),
    }
}

/// The state that the handles of one channel share: threads and tasks wait in one line on
/// each side. With `MULTI` a side may have more than one handle, and handles are counted.
pub struct Inner<T, const CAP: usize, const MULTI: bool, W> {
    ring: Ring<T, CAP>,
    send_waiters: SyncList<W>,
    recv_waiters: SyncList<W>,
    senders: usize,
    receivers: usize,
    tx_closed: bool,
    rx_closed: bool,
    woken: Vec<W>,
}

/// The state of a channel with one sender and one receiver.
pub type SingleInner<T, const CAP: usize, W> = Inner<T, CAP, false, W>;

impl<T, const CAP: usize, const MULTI: bool, W> Inner<T, CAP, MULTI, W> {
    pub closed spec fn view(&self) -> LinkModel<T, W> {
        LinkModel {
            items: values(self.ring@),
            send_waiters: self.send_waiters@,
            recv_waiters: self.recv_waiters@,
            senders: self.senders,
            receivers: self.receivers,
            tx_closed: self.tx_closed,
            rx_closed: self.rx_closed,
            woken: self.woken@,
        }
    }

    pub closed spec fn wf(&self) -> bool {
        &&& self.ring.wf()
        &&& self.ring.reading() == Map::<usize, T>::empty()
        &&& forall|k: int| 0 <= k < self.ring@.len() ==> (#[trigger] self.ring@[k]) is Some
        &&& self.send_waiters.wf()
        &&& self.recv_waiters.wf()
    }

    pub proof fn lemma_sound(&self)
        requires
            self.wf(),
        ensures
            self@.sound(CAP as int),
    {
        self.ring.lemma_wf();
        self.send_waiters.lemma_wf();
        self.recv_waiters.lemma_wf();
        if self.ring@.len() > CAP {
            assert(self.ring@[CAP as int] is Some);
        }
    }

    /// An empty channel with one sender and one receiver.
    pub fn new() -> (c: Self)
        requires
            is_pow2(CAP as int),
        ensures
            c.wf(),
            c@ == LinkModel::<T, W>::initial(),
    {
        let c = Inner {
            ring: Ring::new(),
            send_waiters: SyncList::new(),
            recv_waiters: SyncList::new(),
            senders: 1,
            receivers: 1,
            tx_closed: false,
            rx_closed: false,
            woken: Vec::new(),
        };
        assert(c@.items =~= Seq::empty());
        c
    }

    /// Takes the item if there is room; hands it back if not.
    pub fn push(&mut self, value: T) -> (r: Result<(), T>)
        requires
            old(self).wf(),
        ensures
            final(self).wf(),
            r is Ok <==> old(self)@.items.len() < CAP,
            r is Ok ==> final(self)@ == old(self)@.pushed(value),
            r is Err ==> r->Err_0 == value && final(self)@ == old(self)@,
    {
        let ghost q = self.ring@;
        let r = self.ring.push(value);
        proof {
            if r is Ok {
                assert(self@.items =~= old(self)@.items.push(value));
            }
        }
        r
    }

    /// Takes the oldest item out.
    pub fn pop(&mut self) -> (r: Option<T>)
        requires
            old(self).wf(),
        ensures
            final(self).wf(),
            r is Some <==> old(self)@.items.len() > 0,
            r is Some ==> {
                &&& r == Some(old(self)@.items[0])
                &&& final(self)@ == (LinkModel {
                    items: old(self)@.items.drop_first(),
                    ..old(self)@
                })
            },
            r is None ==> final(self)@ == old(self)@,
    {
        let ghost q = self.ring@;
        let r = self.ring.pop();
        proof {
            if q.len() > 0 {
                assert(q[0] is Some);
                assert(self@.items =~= old(self)@.items.drop_first());
                assert forall|k: int| 0 <= k < self.ring@.len() implies (
                #[trigger] self.ring@[k]) is Some by {
                    assert(q[k + 1] is Some);
                }
            }
        }
        r
    }

    pub fn is_tx_closed(&self) -> (b: bool)
        ensures
            b == self@.tx_closed,
    {
        self.tx_closed
    }

    pub fn is_rx_closed(&self) -> (b: bool)
        ensures
            b == self@.rx_closed,
    {
        self.rx_closed
    }

    pub fn is_empty(&self) -> (b: bool)
        requires
            self.wf(),
        ensures
            b == (self@.items.len() == 0),
    {
        self.ring.is_empty()
    }

    pub fn notify_receivers(&mut self)
        requires
            old(self).wf(),
        ensures
            final(self).wf(),
            final(self)@ == old(self)@.receiver_notified(),
    {
        let ghost before = self.woken@;
        match self.recv_waiters.wake_one() {
            Some(w) => {
                self.woken.push(w);
                assert(self.woken@ =~= before + seq![w]);
            },
            None => {
                assert(before =~= before + Seq::<W>::empty());
            },
        }
    }

    pub fn notify_senders(&mut self)
        requires
            old(self).wf(),
        ensures
            final(self).wf(),
            final(self)@ == old(self)@.sender_notified(),
    {
        let ghost before = self.woken@;
        match self.send_waiters.wake_one() {
            Some(w) => {
                self.woken.push(w);
                assert(self.woken@ =~= before + seq![w]);
            },
            None => {
                assert(before =~= before + Seq::<W>::empty());
            },
        }
    }

    pub fn notify_all_on_tx_close(&mut self)
        requires
            old(self).wf(),
        ensures
            final(self).wf(),
            final(self)@ == old(self)@.all_receivers_notified(),
    {
        self.recv_waiters.wake_all(&mut self.woken);
    }

    pub fn notify_all_on_rx_close(&mut self)
        requires
            old(self).wf(),
        ensures
            final(self).wf(),
            final(self)@ == old(self)@.all_senders_notified(),
    {
        self.send_waiters.wake_all(&mut self.woken);
    }

    /// Counts one more sender; returns how many there were.
    pub fn sender_add(&mut self) -> (n: usize)
        requires
            old(self).wf(),
        ensures
            final(self).wf(),
            n == old(self)@.senders,
            final(self)@ == (LinkModel { senders: n.wrapping_add(1), ..old(self)@ }),
    {
        let n: usize = self.senders;
        self.senders = n.wrapping_add(1);
        n
    }

    /// Counts one sender less; returns how many there were.
    pub fn sender_sub(&mut self) -> (n: usize)
        requires
            old(self).wf(),
        ensures
            final(self).wf(),
            n == old(self)@.senders,
            final(self)@ == (LinkModel { senders: ((n - 1) % word()) as usize, ..old(self)@ }),
    {
        let n: usize = self.senders;
        proof {
            crate::internal_channel::inner::lemma_wrap(n);
        }
        self.senders = n.wrapping_sub(1);
        n
    }

    /// Counts one more receiver; returns how many there were.
    pub fn receiver_add(&mut self) -> (n: usize)
        requires
            old(self).wf(),
        ensures
            final(self).wf(),
            n == old(self)@.receivers,
            final(self)@ == (LinkModel { receivers: n.wrapping_add(1), ..old(self)@ }),
    {
        let n: usize = self.receivers;
        self.receivers = n.wrapping_add(1);
        n
    }

    /// Counts one receiver less; returns how many there were.
    pub fn receiver_sub(&mut self) -> (n: usize)
        requires
            old(self).wf(),
        ensures
            final(self).wf(),
            n == old(self)@.receivers,
            final(self)@ == (LinkModel { receivers: ((n - 1) % word()) as usize, ..old(self)@ }),
    {
        let n: usize = self.receivers;
        proof {
            crate::internal_channel::inner::lemma_wrap(n);
        }
        self.receivers = n.wrapping_sub(1);
        n
    }

    /// The line of those who wait to send.
    pub fn sender_waiters(&mut self) -> (r: &mut SyncList<W>)
        requires
            old(self).wf(),
        ensures
            r.wf(),
            r@ == old(self)@.send_waiters,
            final(r).wf() ==> final(self).wf(),
            final(self)@ == (LinkModel { send_waiters: final(r)@, ..old(self)@ }),
    {
        &mut self.send_waiters
    }

    /// The line of those who wait to receive.
    pub fn receiver_waiters(&mut self) -> (r: &mut SyncList<W>)
        requires
            old(self).wf(),
        ensures
            r.wf(),
            r@ == old(self)@.recv_waiters,
            final(r).wf() ==> final(self).wf(),
            final(self)@ == (LinkModel { recv_waiters: final(r)@, ..old(self)@ }),
    {
        &mut self.recv_waiters
    }

    pub fn tx_close(&mut self)
        requires
            old(self).wf(),
        ensures
            final(self).wf(),
            final(self)@ == (LinkModel { tx_closed: true, ..old(self)@ }),
    {
        self.tx_closed = true;
    }

    pub fn rx_close(&mut self)
        requires
            old(self).wf(),
        ensures
            final(self).wf(),
            final(self)@ == (LinkModel { rx_closed: true, ..old(self)@ }),
    {
        self.rx_closed = true;
    }

    /// A sender is gone. With the last one the channel closes, and everybody who waits to
    /// receive is woken.
    pub fn drop_sender(&mut self)
        requires
            old(self).wf(),
        ensures
            final(self).wf(),
            final(self)@ == old(self)@.sender_gone(MULTI),
    {
        if !MULTI || self.sender_sub() == 1 {
            self.tx_close();
            self.notify_all_on_tx_close();
        }
    }

    /// A receiver is gone. With the last one the channel refuses further items, and
    /// everybody who waits to send is woken.
    pub fn drop_receiver(&mut self)
        requires
            old(self).wf(),
        ensures
            final(self).wf(),
            final(self)@ == old(self)@.receiver_gone(MULTI),
    {
        if !MULTI || self.receiver_sub() == 1 {
            self.rx_close();
            self.notify_all_on_rx_close();
        }
    }

    /// Hands out whom to wake.
    pub fn take_woken(&mut self) -> (r: Vec<W>)
        requires
            old(self).wf(),
        ensures
            final(self).wf(),
            r@ == old(self)@.woken,
            final(self)@ == (LinkModel { woken: Seq::empty(), ..old(self)@ }),
    {
        let mut out: Vec<W> = Vec::new();
        out.append(&mut self.woken);
        assert(out@ =~= old(self)@.woken);
        out
    }
}

/// A place in the line is its waiter's until the waiter gives it up: no wake-up, and nothing
/// that another waiter does, takes it away.
pub proof fn law_place_is_kept<W>(
    l: ListModel<W>,
    id: usize,
    other: Option<usize>,
    target: W,
    new: usize,
    post: ListModel<W>,
)
    requires
        l.holds(id),
        other != Some(id),
    ensures
        l.first_out().0.holds(id),
        l.all_out().holds(id),
        other is Some ==> l.left_by(other->Some_0).holds(id),
        line_waits(l, other, target, new, post) ==> post.holds(id),
{
    if l.has(id) {
        let k = choose|k: int| l.at(id, k);
        if k > 0 {
            assert(l.first_out().0.at(id, k - 1));
        }
        if other is Some {
            lemma_without_keeps(l.linked, id, other->Some_0, k);
            let j = choose|j: int|
                0 <= j < without(l.linked, other->Some_0).len() && without(
                    l.linked,
                    other->Some_0,
                )[j].0 == id;
            assert(l.left_by(other->Some_0).at(id, j));
        }
        if line_waits(l, other, target, new, post) {
            assert(post.at(id, k));
        }
    }
}

} // verus!
