use super::sender::{drop_send_state, poll_send, poll_sent, Restore, SendPoll};
use super::traits::InnerChannel;
use vstd::prelude::*;

verus! {

/// What a step of a batch that a task sends came to.
#[derive(Clone, Copy, Debug, PartialEq, Eq, Structural)]
pub enum BatchPoll {
    /// The item was sent; the next one has its turn.
    Again,
    /// There is no room; the task will be woken.
    Pending,
    /// Everything has been sent, or the receivers are gone: so many items were sent.
    Done(usize),
}

/// A batch that a task sends item by item, because it did not fit at once.
pub struct SendBatchFuture<T> {
    items: Restore<T>,
    slot: Option<usize>,
    sent: usize,
}

impl<T> SendBatchFuture<T> {
    /// What has not been sent, in order.
    pub closed spec fn remaining(&self) -> Seq<T> {
        self.items.remaining()
    }

    /// The first of these is on its way.
    pub closed spec fn on_its_way(&self) -> bool {
        self.items.pending() is Some
    }

    /// The task's place in the queue.
    pub closed spec fn slot(&self) -> Option<usize> {
        self.slot
    }

    /// How many items have been sent.
    pub closed spec fn sent(&self) -> usize {
        self.sent
    }

    pub open spec fn wf(&self) -> bool {
        &&& self.slot() is Some ==> self.on_its_way()
        &&& self.on_its_way() ==> self.remaining().len() > 0
        &&& self.sent() + self.remaining().len() <= usize::MAX
    }

    /// The rest of a batch, of which `sent` items have been sent already.
    pub fn new(sent: usize, rest: &mut Vec<T>) -> (f: Self)
        requires
            sent + old(rest)@.len() <= usize::MAX,
        ensures
            f.wf(),
            f.remaining() == old(rest)@,
            !f.on_its_way(),
            f.slot() is None,
            f.sent() == sent,
            final(rest)@.len() == 0,
    {
        SendBatchFuture { items: Restore::new(rest), slot: None, sent }
    }

    /// Polls the send of the item whose turn it is.
    pub fn step<const CAP: usize, W, I: InnerChannel<T, CAP, W>>(
        &mut self,
        inner: &mut I,
        waker: W,
    ) -> (r: BatchPoll)
        requires
            old(self).wf(),
            old(inner).wf(),
            old(self).slot() is Some ==> old(inner).model().send_waiters.tasks.holds(
                old(self).slot()->Some_0,
            ),
        ensures
            final(self).wf(),
            final(inner).wf(),
            final(self).sent() + final(self).remaining().len() == old(self).sent() + old(
                self,
            ).remaining().len(),
            if old(self).remaining().len() == 0 {
                &&& r == BatchPoll::Done(old(self).sent())
                &&& final(self).remaining().len() == 0
                &&& final(inner).model() == old(inner).model()
                &&& final(self).slot() is None
            } else {
                let v = old(self).remaining()[0];
                let (left, answer) = match r {
                    BatchPoll::Again => (None, SendPoll::Ready(Ok(()))),
                    BatchPoll::Pending => (Some(v), SendPoll::Pending),
                    BatchPoll::Done(_) => (None, SendPoll::Ready(Err(v))),
                };
                &&& poll_sent(
                    old(inner).model(),
                    CAP as int,
                    Some(v),
                    old(self).slot(),
                    waker,
                    final(inner).model(),
                    left,
                    final(self).slot(),
                    answer,
                )
                &&& match r {
                    BatchPoll::Again => {
                        &&& final(self).remaining() == old(self).remaining().drop_first()
                        &&& !final(self).on_its_way()
                    },
                    BatchPoll::Pending => {
                        &&& final(self).remaining() == old(self).remaining()
                        &&& final(self).on_its_way()
                    },
                    BatchPoll::Done(n) => {
                        &&& final(self).remaining() == old(self).remaining()
                        &&& final(self).on_its_way()
                        &&& n == old(self).sent()
                    },
                }
            },
    {
        let ghost all = self.remaining();
        if !self.items.is_pending() {
            if !self.items.next() {
                return BatchPoll::Done(self.sent);
            }
            assert(seq![all[0]] + all.drop_first() =~= all);
        }
        let ghost rest = self.items.rest();
        assert(all =~= seq![self.items.pending()->Some_0] + rest);
        assert(all.drop_first() =~= rest);
        let place = self.items.slot();
        match poll_send(inner, place, &mut self.slot, waker) {
            SendPoll::Ready(Ok(())) => {
                self.sent = self.sent + 1;
                BatchPoll::Again
            },
            SendPoll::Pending => BatchPoll::Pending,
            SendPoll::Ready(Err(v)) => {
                let place = self.items.slot();
                *place = Some(v);
                BatchPoll::Done(self.sent)
            },
        }
    }

    /// Ends the batch, however far it came: what was not sent goes back to the front of
    /// `buf`, in order. Leaves the queue.
    pub fn cancel<const CAP: usize, W, I: InnerChannel<T, CAP, W>>(
        self,
        inner: &mut I,
        buf: &mut Vec<T>,
    )
        requires
            self.wf(),
            old(inner).wf(),
            self.slot() is Some ==> old(inner).model().send_waiters.tasks.holds(
                self.slot()->Some_0,
            ),
        ensures
            final(inner).wf(),
            final(buf)@ == self.remaining() + old(buf)@,
            final(inner).model() == if self.slot() is Some {
                old(inner).model().send_task_gone(self.slot()).sender_notified()
            } else {
                old(inner).model()
            },
    {
        let mut this = self;
        if this.slot.is_some() {
            let place = this.items.slot();
            drop_send_state(inner, place, &mut this.slot);
        }
        this.items.restore(buf);
    }
}

} // verus!
