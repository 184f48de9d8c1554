use super::super::errors::{ShardAsyncBatchSendError, ShardKeyAsyncBatchSendError};
use super::batch::bulk_send;
use super::buf::{joined, vec_views, GroupsModel, RestoreGroups};
use super::lanes::{lanes_wf, models};
use super::layout::{can_key, keyed};
use super::sender_round_robin::ShardRoundRobin;
use crate::internal_channel::inner::SeqInner;
use crate::internal_channel::model::ChannelModel;
use crate::internal_channel::sender::{drop_send_state, poll_send, poll_sent, SendPoll};
use crate::internal_channel::traits::InnerChannel;
use crate::ring::{next_pos, written};
use vstd::prelude::*;

verus! {

/// What a step of a batch that a task sends came to.
#[derive(Clone, Copy, Debug, PartialEq, Eq, Structural)]
pub enum FlowStep {
    /// There is more to do at once.
    Again,
    /// There is no room; the task will be woken.
    Pending,
    /// Everything has been sent.
    Done,
    /// The receivers of the shard whose turn it is are gone.
    Disconnected,
}

/// What a step of a batch that is sent in turns came to.
#[derive(Debug, PartialEq)]
pub enum RoundStep {
    /// There is more to do at once.
    Again,
    /// There is no room; the task will be woken.
    Pending,
    /// The batch is over: everything has been sent, or the receivers of a shard are gone.
    Done(Result<usize, ShardAsyncBatchSendError>),
}

/// The answer of the pending send that a step of that outcome polled.
pub open spec fn flow_answer<T>(step: FlowStep, v: T) -> SendPoll<T> {
    match step {
        FlowStep::Pending => SendPoll::Pending,
        FlowStep::Disconnected => SendPoll::Ready(Err(v)),
        _ => SendPoll::Ready(Ok(())),
    }
}

/// A batch that has been laid out by shard and that a task sends, shard by shard: each
/// shard gets as much at once as there is room for, and when it is full the task awaits
/// the first of its items.
pub struct BatchFlow<T> {
    groups: RestoreGroups<T>,
    shard: usize,
    sent: usize,
    slot: Option<usize>,
}

/// What a [`BatchFlow`] holds.
pub struct FlowModel<T> {
    /// What has not been sent.
    pub groups: GroupsModel<T>,
    /// The shard whose turn it is.
    pub shard: int,
    /// How many items have been sent.
    pub sent: int,
    /// The task's place in the queue of that shard.
    pub slot: Option<usize>,
}

impl<T> FlowModel<T> {
    /// How many items have not been sent.
    pub open spec fn left(self) -> int {
        joined(self.groups.by_shard()).len() as int
    }

    pub open spec fn sound(self) -> bool {
        &&& self.groups.sound()
        &&& self.groups.scratch.len() == 0
        &&& 0 <= self.shard <= self.groups.groups.len()
        &&& self.groups.pending is Some ==> self.groups.pending_shard == self.shard
        &&& self.slot is Some ==> self.groups.pending is Some
        &&& self.sent + self.left() <= usize::MAX
    }
}

/// Changing one group changes the number of items by as much.
proof fn lemma_joined_len_update<T>(groups: Seq<Seq<T>>, s: int, g: Seq<T>)
    requires
        0 <= s < groups.len(),
    ensures
        joined(groups.update(s, g)).len() == joined(groups).len() - groups[s].len() + g.len(),
    decreases groups.len(),
{
    let u = groups.update(s, g);
    if s == groups.len() - 1 {
        assert(u.drop_last() =~= groups.drop_last());
    } else {
        lemma_joined_len_update(groups.drop_last(), s, g);
        assert(u.drop_last() =~= groups.drop_last().update(s, g));
    }
}

/// Sending the item of a shard that is on its way, or some from the front of its group,
/// leaves so many fewer.
proof fn lemma_left<T>(g: GroupsModel<T>, g2: GroupsModel<T>, s: int)
    requires
        0 <= s < g.groups.len(),
        g.sound(),
        g.scratch.len() == 0,
        g2.scratch.len() == 0,
        g2.groups == g.groups.update(s, g2.groups[s]),
        g.pending is Some ==> g.pending_shard == s,
        g2.pending is Some ==> g2.pending_shard == s,
    ensures
        joined(g2.by_shard()).len() == joined(g.by_shard()).len() - g.of_shard(s).len()
            + g2.of_shard(s).len(),
{
    assert forall|j: int| 0 <= j < g.groups.len() && j != s implies g2.of_shard(j)
        == #[trigger] g.of_shard(j) by {
        assert(g2.groups[j] == g.groups[j]);
        assert(g2.of_shard(j) =~= g.of_shard(j));
    }
    assert(g2.by_shard() =~= g.by_shard().update(s, g2.of_shard(s)));
    lemma_joined_len_update(g.by_shard(), s, g2.of_shard(s));
}

/// One step of a batch: from `f` and the shards `ms` to `f2` and `ms2`, with outcome `step`.
///
/// An item on its way is polled. Otherwise the shard whose turn it is takes what it has
/// room for; without room its first item is set on its way; when its group is empty, the
/// next shard has its turn.
pub open spec fn flowed<T, W>(
    f: FlowModel<T>,
    ms: Seq<ChannelModel<T, W>>,
    cap: int,
    waker: W,
    f2: FlowModel<T>,
    ms2: Seq<ChannelModel<T, W>>,
    step: FlowStep,
) -> bool {
    let s = f.shard;
    match f.groups.pending {
        Some(v) => {
            let left = match step {
                FlowStep::Pending => Some(v),
                _ => None,
            };
            &&& !(step is Done)
            &&& ms2 == ms.update(s, ms2[s])
            &&& poll_sent(
                ms[s],
                cap,
                Some(v),
                f.slot,
                waker,
                ms2[s],
                left,
                f2.slot,
                flow_answer(step, v),
            )
            &&& f2.shard == s
            &&& if step is Again {
                f2.groups == (GroupsModel { pending: None, ..f.groups }) && f2.sent == f.sent + 1
            } else {
                f2.groups == f.groups && f2.sent == f.sent
            }
        },
        None => if s >= f.groups.groups.len() {
            step is Done && f2 == f && ms2 == ms
        } else {
            let g = f.groups.groups[s];
            let n = ms[s].room(cap, g.len() as int);
            &&& step is Again
            &&& if g.len() == 0 {
                f2 == (FlowModel { shard: s + 1, ..f }) && ms2 == ms
            } else if n > 0 {
                &&& f2.groups.groups == f.groups.groups.update(s, g.subrange(n, g.len() as int))
                &&& f2.groups.pending is None
                &&& f2.groups.unused == f.groups.unused
                &&& f2.shard == s
                &&& f2.sent == f.sent + n
                &&& f2.slot == f.slot
                &&& ms2 == ms.update(
                    s,
                    ms[s].pushed_all(g.subrange(0, n)).receivers_notified(n as nat),
                )
            } else {
                &&& f2.groups.groups == f.groups.groups.update(s, g.drop_first())
                &&& f2.groups.pending == Some(g[0])
                &&& f2.groups.pending_shard == s
                &&& f2.groups.unused == f.groups.unused
                &&& f2.shard == s
                &&& f2.sent == f.sent
                &&& f2.slot == f.slot
                &&& ms2 == ms
            }
        },
    }
}

impl<T> BatchFlow<T> {
    pub closed spec fn view(&self) -> FlowModel<T> {
        FlowModel {
            groups: self.groups@,
            shard: self.shard as int,
            sent: self.sent as int,
            slot: self.slot,
        }
    }

    /// A batch of `groups`, one per shard, and items that belong to none.
    pub fn new(groups: Vec<Vec<T>>, unused: Vec<T>) -> (f: Self)
        requires
            joined(vec_views(groups@)).len() <= usize::MAX,
        ensures
            f@.sound(),
            f@.groups.groups == vec_views(groups@),
            f@.groups.unused == unused@,
            f@.groups.pending is None,
            f@.shard == 0,
            f@.sent == 0,
            f@.slot is None,
    {
        let groups = RestoreGroups::new(groups, unused);
        proof {
            let m = groups@;
            assert forall|s: int| 0 <= s < m.groups.len() implies #[trigger] m.of_shard(s)
                == m.groups[s] by {
                assert(m.of_shard(s) =~= m.groups[s]);
            }
            assert(m.by_shard() =~= m.groups);
        }
        BatchFlow { groups, shard: 0, sent: 0, slot: None }
    }

    /// How many items have been sent.
    pub fn sent(&self) -> (n: usize)
        ensures
            n == self@.sent,
    {
        self.sent
    }

    /// Goes on with the batch. No item is lost: what is not sent stays in the batch.
    pub fn step<const CAP: usize, W>(
        &mut self,
        lanes: &mut Vec<SeqInner<T, CAP, W>>,
        waker: W,
    ) -> (step: FlowStep)
        requires
            old(self)@.sound(),
            lanes_wf(old(lanes)@, old(self)@.groups.groups.len() as int),
            old(self)@.slot is Some ==> models(
                old(lanes)@,
            )[old(self)@.shard].send_waiters.tasks.holds(old(self)@.slot->Some_0),
        ensures
            final(self)@.sound(),
            lanes_wf(final(lanes)@, old(self)@.groups.groups.len() as int),
            final(self)@.groups.groups.len() == old(self)@.groups.groups.len(),
            flowed(
                old(self)@,
                models(old(lanes)@),
                CAP as int,
                waker,
                final(self)@,
                models(final(lanes)@),
                step,
            ),
            final(self)@.sent + final(self)@.left() == old(self)@.sent + old(self)@.left(),
    {
        let ghost f = self@;
        let ghost ms = models(lanes@);
        let ghost pre = lanes@;
        let s: usize = self.shard;
        let ghost si = s as int;
        if self.groups.is_pending() {
            let place = self.groups.pending_slot();
            let r = poll_send(&mut lanes[s], place, &mut self.slot, waker);
            assert(models(lanes@) =~= ms.update(si, lanes@[si].model()));
            let step = match r {
                SendPoll::Pending => FlowStep::Pending,
                SendPoll::Ready(Ok(())) => {
                    proof {
                        assert(self.groups@.groups =~= f.groups.groups.update(
                            si,
                            f.groups.groups[si],
                        ));
                        lemma_left(f.groups, self.groups@, si);
                        assert(f.groups.of_shard(si).len() == 1 + f.groups.groups[si].len());
                        assert(self.groups@.of_shard(si).len() == f.groups.groups[si].len());
                    }
                    self.sent = self.sent + 1;
                    FlowStep::Again
                },
                SendPoll::Ready(Err(v)) => {
                    let place = self.groups.pending_slot();
                    *place = Some(v);
                    FlowStep::Disconnected
                },
            };
            return step;
        }
        if s >= self.groups.num_groups() {
            return FlowStep::Done;
        }
        if self.groups.is_group_empty(s) {
            self.shard = s + 1;
            return FlowStep::Again;
        }
        let ghost g = f.groups.groups[si];
        let n: usize = bulk_send(&mut self.groups, &mut lanes[s], s);
        proof {
            assert(models(lanes@) =~= ms.update(si, lanes@[si].model()));
            lemma_left(f.groups, self.groups@, si);
            assert(self.groups@.of_shard(si).len() == g.len() - n);
            assert(f.groups.of_shard(si).len() == g.len());
        }
        if n > 0 {
            self.sent = self.sent + n;
            return FlowStep::Again;
        }
        proof {
            assert(g.subrange(0, 0) =~= Seq::empty());
            assert(written(g.subrange(0, 0)) =~= Seq::empty());
            assert(ms[si].pending + written(g.subrange(0, 0)) =~= ms[si].pending);
            assert(ms[si].woken + Seq::<W>::empty() =~= ms[si].woken);
            assert(models(lanes@) =~= ms);
            assert(g.subrange(0, g.len() as int) =~= g);
            assert(self.groups@.groups =~= f.groups.groups);
        }
        let ghost mid = self.groups@;
        let _ = self.groups.take_head(s);
        proof {
            lemma_left(mid, self.groups@, si);
            assert(mid.of_shard(si).len() == g.len());
            assert(self.groups@.of_shard(si).len() == g.len());
        }
        FlowStep::Again
    }

    /// Ends the batch, however far it came: what was not sent goes to `buf`. Leaves the
    /// queue of the shard whose turn it was.
    pub fn cancel<const CAP: usize, W>(
        self,
        lanes: &mut Vec<SeqInner<T, CAP, W>>,
        buf: &mut Vec<T>,
    )
        requires
            self@.sound(),
            lanes_wf(old(lanes)@, self@.groups.groups.len() as int),
            self@.slot is Some ==> models(old(lanes)@)[self@.shard].send_waiters.tasks.holds(
                self@.slot->Some_0,
            ),
        ensures
            lanes_wf(final(lanes)@, self@.groups.groups.len() as int),
            final(buf)@ == old(buf)@ + joined(self@.groups.by_shard()) + self@.groups.unused,
            models(final(lanes)@) == if self@.slot is Some {
                models(old(lanes)@).update(
                    self@.shard,
                    models(old(lanes)@)[self@.shard].send_task_gone(self@.slot).sender_notified(),
                )
            } else {
                models(old(lanes)@)
            },
    {
        let ghost ms = models(lanes@);
        let mut this = self;
        if this.slot.is_some() {
            let s: usize = this.shard;
            let place = this.groups.pending_slot();
            drop_send_state(&mut lanes[s], place, &mut this.slot);
            assert(models(lanes@) =~= ms.update(s as int, lanes@[s as int].model()));
        }
        this.groups.restore(buf);
    }

    /// Ends a batch whose items were all sent, or that was cut short because the receivers
    /// of a shard are gone. What was not sent goes to `buf`.
    pub fn finish(self, buf: &mut Vec<T>) -> (r: Result<usize, ShardAsyncBatchSendError>)
        requires
            self@.sound(),
            self@.slot is None,
        ensures
            final(buf)@ == old(buf)@ + joined(self@.groups.by_shard()) + self@.groups.unused,
            match r {
                Ok(n) => self@.groups.pending is None && n == self@.sent,
                Err(e) => {
                    &&& self@.groups.pending is Some
                    &&& e.shard == self@.shard
                    &&& e.sent == self@.sent
                },
            },
    {
        let mut this = self;
        let failed = this.groups.is_pending();
        let shard: usize = this.shard;
        let sent: usize = this.sent;
        this.groups.restore(buf);
        if failed {
            Err(ShardAsyncBatchSendError { shard, sent })
        } else {
            Ok(sent)
        }
    }

    /// The same for a batch by key; the error names the key of the item that was refused.
    pub fn finish_keyed<F: for<'k> Fn(&'k T) -> &'k str>(self, buf: &mut Vec<T>, key_fn: &F) -> (r:
        Result<usize, ShardKeyAsyncBatchSendError>)
        requires
            self@.sound(),
            self@.slot is None,
            self@.groups.pending is Some ==> can_key(
                *key_fn,
                seq![self@.groups.pending->Some_0],
            ),
        ensures
            final(buf)@ == old(buf)@ + joined(self@.groups.by_shard()) + self@.groups.unused,
            match r {
                Ok(n) => self@.groups.pending is None && n == self@.sent,
                Err(e) => {
                    &&& self@.groups.pending is Some
                    &&& keyed(*key_fn, self@.groups.pending->Some_0, e.key@)
                    &&& e.shard == self@.shard
                    &&& e.sent == self@.sent
                },
            },
    {
        let mut this = self;
        let shard: usize = this.shard;
        let sent: usize = this.sent;
        let key = match this.groups.pending_slot() {
            Some(v) => {
                assert(seq![*v][0] == *v);
                Some(key_fn(v).to_owned())
            },
            None => None,
        };
        this.groups.restore(buf);
        match key {
            Some(key) => Err(ShardKeyAsyncBatchSendError { key, shard, sent }),
            None => Ok(sent),
        }
    }
}

/// A batch that a task sends in turns: the next shard gets as much at once as there is
/// room for; if items are left, the task awaits that the shard after it takes the last of
/// them.
pub struct RoundFlow<T> {
    pending: Option<T>,
    shard: usize,
    slot: Option<usize>,
    sent: usize,
}

impl<T> RoundFlow<T> {
    /// The item on its way.
    pub closed spec fn pending(&self) -> Option<T> {
        self.pending
    }

    /// The shard it goes to.
    pub closed spec fn shard(&self) -> int {
        self.shard as int
    }

    /// The task's place in the queue of that shard.
    pub closed spec fn slot(&self) -> Option<usize> {
        self.slot
    }

    /// How many items have been sent.
    pub closed spec fn sent(&self) -> usize {
        self.sent
    }

    /// How many items have not been sent, when `rest` are in the buffer.
    pub open spec fn left(&self, rest: Seq<T>) -> int {
        rest.len() + if self.pending() is Some {
            1int
        } else {
            0int
        }
    }

    /// A batch on its way to `n` shards.
    pub open spec fn wf(&self, n: int, rest: Seq<T>) -> bool {
        &&& self.pending() is Some ==> self.shard() < n
        &&& self.slot() is Some ==> self.pending() is Some
        &&& self.sent() + self.left(rest) <= usize::MAX
    }

    pub fn new() -> (f: Self)
        ensures
            f.pending() is None,
            f.slot() is None,
            f.sent() == 0,
    {
        RoundFlow { pending: None, shard: 0, slot: None, sent: 0 }
    }

    /// Goes on with the batch. No item is lost: what was neither sent nor is on its way is
    /// in `buf`, and an item that comes back because the receivers are gone too.
    pub fn step<const CAP: usize, W>(
        &mut self,
        tx: &mut ShardRoundRobin,
        lanes: &mut Vec<SeqInner<T, CAP, W>>,
        buf: &mut Vec<T>,
        waker: W,
    ) -> (step: RoundStep)
        requires
            old(tx).wf(),
            lanes_wf(old(lanes)@, old(tx).count()),
            old(self).wf(old(tx).count(), old(buf)@),
            old(self).slot() is Some ==> models(
                old(lanes)@,
            )[old(self).shard()].send_waiters.tasks.holds(old(self).slot()->Some_0),
        ensures
            final(tx).wf(),
            final(tx).count() == old(tx).count(),
            lanes_wf(final(lanes)@, old(tx).count()),
            final(self).wf(old(tx).count(), final(buf)@),
            final(self).sent() + final(self).left(final(buf)@) == old(self).sent() + old(
                self,
            ).left(old(buf)@),
            match old(self).pending() {
                Some(v) => {
                    let s = old(self).shard();
                    let ms = models(old(lanes)@);
                    let ms2 = models(final(lanes)@);
                    &&& final(tx).cursor() == old(tx).cursor()
                    &&& ms2 == ms.update(s, ms2[s])
                    &&& match step {
                        RoundStep::Pending => {
                            &&& poll_sent(
                                ms[s],
                                CAP as int,
                                Some(v),
                                old(self).slot(),
                                waker,
                                ms2[s],
                                Some(v),
                                final(self).slot(),
                                SendPoll::Pending,
                            )
                            &&& final(self).pending() == Some(v)
                            &&& final(self).shard() == s
                            &&& final(self).sent() == old(self).sent()
                            &&& final(buf)@ == old(buf)@
                        },
                        RoundStep::Again => {
                            &&& poll_sent(
                                ms[s],
                                CAP as int,
                                Some(v),
                                old(self).slot(),
                                waker,
                                ms2[s],
                                None,
                                final(self).slot(),
                                SendPoll::Ready(Ok(())),
                            )
                            &&& final(self).pending() is None
                            &&& final(self).sent() == old(self).sent() + 1
                            &&& final(buf)@ == old(buf)@
                        },
                        RoundStep::Done(r) => {
                            &&& poll_sent(
                                ms[s],
                                CAP as int,
                                Some(v),
                                old(self).slot(),
                                waker,
                                ms2[s],
                                None,
                                final(self).slot(),
                                SendPoll::Ready(Err(v)),
                            )
                            &&& r == Err::<usize, _>(
                                ShardAsyncBatchSendError {
                                    shard: s as usize,
                                    sent: old(self).sent(),
                                },
                            )
                            &&& final(self).pending() is None
                            &&& final(self).sent() == old(self).sent()
                            &&& final(buf)@ == old(buf)@.push(v)
                        },
                    }
                },
                None => {
                    let s = old(tx).turn();
                    let m = models(old(lanes)@)[s];
                    let n = m.room(CAP as int, old(buf)@.len() as int);
                    let rest = old(buf)@.subrange(n, old(buf)@.len() as int);
                    let next = next_pos(old(tx).cursor());
                    &&& models(final(lanes)@) == models(old(lanes)@).update(
                        s,
                        m.pushed_all(old(buf)@.subrange(0, n)).receivers_notified(n as nat),
                    )
                    &&& final(self).sent() == old(self).sent() + n
                    &&& final(self).slot() is None
                    &&& if rest.len() == 0 {
                        &&& step == RoundStep::Done(
                            Ok::<_, ShardAsyncBatchSendError>(final(self).sent()),
                        )
                        &&& final(self).pending() is None
                        &&& final(buf)@ == rest
                        &&& final(tx).cursor() == next
                    } else {
                        &&& step is Again
                        &&& final(self).pending() == Some(rest.last())
                        &&& final(self).shard() == next as int % old(tx).count()
                        &&& final(buf)@ == rest.drop_last()
                        &&& final(tx).cursor() == next_pos(next)
                    }
                },
            },
            old(self).pending() is None && final(self).left(final(buf)@) > 0 ==> models(
                old(lanes)@,
            )[old(tx).turn()].rx_closed || models(final(lanes)@)[old(tx).turn()].pending.len()
                >= CAP,
            step matches RoundStep::Done(Ok(n)) ==> final(self).left(final(buf)@) == 0 && n
                == final(self).sent(),
            step matches RoundStep::Done(Err(e)) ==> models(old(lanes)@)[e.shard as int].rx_closed,
    {
        let ghost ms = models(lanes@);
        if self.pending.is_some() {
            let s: usize = self.shard;
            let r = poll_send(&mut lanes[s], &mut self.pending, &mut self.slot, waker);
            assert(models(lanes@) =~= ms.update(s as int, lanes@[s as int].model()));
            return match r {
                SendPoll::Pending => RoundStep::Pending,
                SendPoll::Ready(Ok(())) => {
                    self.sent = self.sent + 1;
                    RoundStep::Again
                },
                SendPoll::Ready(Err(v)) => {
                    buf.push(v);
                    RoundStep::Done(Err(ShardAsyncBatchSendError { shard: s, sent: self.sent }))
                },
            };
        }
        proof {
            tx.lemma_wf();
        }
        let (n, next) = tx.send_batch_round(lanes, buf);
        self.sent = self.sent + n;
        match next {
            None => RoundStep::Done(Ok(self.sent)),
            Some((shard, one)) => {
                let mut one = one;
                self.pending = one.slot().take();
                self.shard = shard;
                RoundStep::Again
            },
        }
    }

    /// Ends the batch, however far it came: the item on its way goes back to the end of
    /// `buf`. Leaves the queue of the shard it was for.
    pub fn cancel<const CAP: usize, W>(
        self,
        lanes: &mut Vec<SeqInner<T, CAP, W>>,
        buf: &mut Vec<T>,
    )
        requires
            self.wf(old(lanes)@.len() as int, old(buf)@),
            lanes_wf(old(lanes)@, old(lanes)@.len() as int),
            self.slot() is Some ==> models(old(lanes)@)[self.shard()].send_waiters.tasks.holds(
                self.slot()->Some_0,
            ),
        ensures
            lanes_wf(final(lanes)@, old(lanes)@.len() as int),
            final(buf)@ == match self.pending() {
                Some(v) => old(buf)@.push(v),
                None => old(buf)@,
            },
            models(final(lanes)@) == if self.slot() is Some {
                models(old(lanes)@).update(
                    self.shard(),
                    models(old(lanes)@)[self.shard()].send_task_gone(
                        self.slot(),
                    ).sender_notified(),
                )
            } else {
                models(old(lanes)@)
            },
    {
        let ghost ms = models(lanes@);
        let mut this = self;
        if this.slot.is_some() {
            let s: usize = this.shard;
            drop_send_state(&mut lanes[s], &this.pending, &mut this.slot);
            assert(models(lanes@) =~= ms.update(s as int, lanes@[s as int].model()));
        }
        match this.pending {
            Some(v) => buf.push(v),
            None => {},
        }
    }
}

} // verus!
