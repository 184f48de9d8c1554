use super::super::errors::ShardRecvAnyError;
use super::lanes::{lanes_wf, models};
use super::receiver::{all_drained, around, first_hit, no_hit, ShardReceiver};
use crate::internal_channel::inner::SeqInner;
use crate::internal_channel::model::ChannelModel;
use crate::internal_channel::receiver::drop_recv_state;
use crate::internal_channel::traits::InnerChannel;
use vstd::prelude::*;

verus! {

/// A receive from any shard that a task awaits. It waits on every shard at once.
pub struct RecvAnyFuture {
    slots: Vec<Option<usize>>,
}

/// The shard after the task has given up its wait there: the wake-up that it may have used
/// up goes to the next receiver.
pub open spec fn released<T, W>(m: ChannelModel<T, W>, slot: Option<usize>) -> ChannelModel<T, W> {
    if slot is Some {
        m.recv_task_gone(slot).receiver_notified()
    } else {
        m
    }
}

/// The task waits on this shard now.
pub open spec fn waits_on<T, W>(
    m: ChannelModel<T, W>,
    slot: Option<usize>,
    waker: W,
    m2: ChannelModel<T, W>,
    slot2: Option<usize>,
) -> bool {
    &&& slot2 is Some
    &&& m.recv_waiters.task_waits(slot, waker, slot2->Some_0, m2.recv_waiters)
    &&& m2 == (ChannelModel { recv_waiters: m2.recv_waiters, ..m })
}

impl RecvAnyFuture {
    /// The task's place in the queue of each shard, if it has one.
    pub closed spec fn slots(&self) -> Seq<Option<usize>> {
        self.slots@
    }

    /// The slots are in their shards.
    pub open spec fn fits<T, W>(&self, ms: Seq<ChannelModel<T, W>>) -> bool {
        &&& self.slots().len() == ms.len()
        &&& forall|i: int|
            0 <= i < ms.len() && (#[trigger] self.slots()[i]) is Some
                ==> ms[i].recv_waiters.tasks.holds(self.slots()[i]->Some_0)
    }

    /// A receive from any of `n` shards.
    pub fn new(n: usize) -> (f: Self)
        ensures
            f.slots().len() == n,
            forall|i: int| 0 <= i < n ==> (#[trigger] f.slots()[i]) is None,
    {
        let mut slots: Vec<Option<usize>> = Vec::with_capacity(n);
        let mut i: usize = 0;
        while i < n
            invariant
                i <= n,
                slots@.len() == i,
                forall|k: int| 0 <= k < i ==> (#[trigger] slots@[k]) is None,
            decreases n - i,
        {
            slots.push(None);
            i = i + 1;
        }
        RecvAnyFuture { slots }
    }

    /// Gives up the wait on every shard.
    fn release<T, const CAP: usize, W>(&mut self, lanes: &mut Vec<SeqInner<T, CAP, W>>)
        requires
            lanes_wf(old(lanes)@, old(lanes)@.len() as int),
            old(self).fits(models(old(lanes)@)),
        ensures
            lanes_wf(final(lanes)@, old(lanes)@.len() as int),
            final(self).slots().len() == old(self).slots().len(),
            forall|i: int| 0 <= i < final(self).slots().len() ==> (
            #[trigger] final(self).slots()[i]) is None,
            models(final(lanes)@) == Seq::new(
                old(lanes)@.len(),
                |s: int| released(models(old(lanes)@)[s], old(self).slots()[s]),
            ),
    {
        let ghost ms = models(lanes@);
        let ghost sl = self.slots@;
        let n: usize = lanes.len();
        let mut i: usize = 0;
        while i < n
            invariant
                i <= n,
                n == ms.len(),
                ms == models(old(lanes)@),
                sl == old(self).slots@,
                sl.len() == n,
                self.slots@.len() == n,
                lanes_wf(lanes@, n as int),
                old(self).fits(ms),
                forall|k: int|
                    0 <= k < i ==> (#[trigger] lanes@[k]).model() == released(ms[k], sl[k]),
                forall|k: int| i <= k < n ==> (#[trigger] lanes@[k]).model() == ms[k],
                forall|k: int| 0 <= k < i ==> (#[trigger] self.slots@[k]) is None,
                forall|k: int| i <= k < n ==> (#[trigger] self.slots@[k]) == sl[k],
            decreases n - i,
        {
            let slot = self.slots[i];
            proof {
                assert(old(self).slots()[i as int] == slot);
                assert(lanes@[i as int].model() == ms[i as int]);
            }
            self.slots.set(i, None);
            drop_recv_state(&mut lanes[i], slot);
            i = i + 1;
        }
        assert(models(lanes@) =~= Seq::new(ms.len(), |s: int| released(ms[s], sl[s])));
    }

    /// `None` while the receive is pending. There is one waker for each shard.
    pub fn poll<T, const CAP: usize, W>(
        &mut self,
        rx: &mut ShardReceiver<T, CAP, W>,
        lanes: &mut Vec<SeqInner<T, CAP, W>>,
        wakers: Vec<W>,
    ) -> (r: Option<Result<(usize, T), ShardRecvAnyError>>)
        requires
            old(rx).wf(),
            lanes_wf(old(lanes)@, old(rx).count()),
            old(self).fits(models(old(lanes)@)),
            wakers@.len() == old(rx).count(),
        ensures
            final(rx).wf(),
            final(rx).count() == old(rx).count(),
            lanes_wf(final(lanes)@, old(rx).count()),
            final(self).fits(models(final(lanes)@)),
            ({
                let ms = models(old(lanes)@);
                let ms2 = models(final(lanes)@);
                let n = ms.len() as int;
                let start = old(rx).cursor();
                match r {
                    Some(Ok((i, v))) => {
                        &&& exists|k: int| #[trigger]
                            first_hit(ms, start, k) && i == around(start, k, n)
                        &&& i < n
                        &&& ms[i as int].can_pop()
                        &&& v == ms[i as int].pending[0]->Some_0
                        &&& final(rx).cursor() == around(i as int, 1, n)
                        &&& forall|s: int|
                            0 <= s < n ==> (#[trigger] final(self).slots()[s]) is None
                        &&& ms2 == Seq::new(
                            ms.len(),
                            |s: int|
                                released(
                                    if s == i {
                                        ms[s].received()
                                    } else {
                                        ms[s]
                                    },
                                    old(self).slots()[s],
                                ),
                        )
                    },
                    Some(Err(e)) => {
                        &&& all_drained(ms)
                        &&& e.disconnected_shards == n
                        &&& ms2 == ms
                        &&& final(self).slots() == old(self).slots()
                        &&& final(rx).cursor() == start
                    },
                    None => {
                        &&& no_hit(ms)
                        &&& !all_drained(ms)
                        &&& final(rx).cursor() == start
                        &&& ms2.len() == n
                        &&& forall|s: int|
                            0 <= s < n ==> waits_on(
                                ms[s],
                                old(self).slots()[s],
                                wakers@[s],
                                #[trigger] ms2[s],
                                final(self).slots()[s],
                            )
                    },
                }
            }),
            r matches Some(Ok((i, v))) ==> {
                &&& Some(v) == models(old(lanes)@)[i as int].pending[0]
                &&& models(final(lanes)@)[i as int].pending == models(
                    old(lanes)@,
                )[i as int].pending.drop_first()
                &&& forall|s: int|
                    0 <= s < old(rx).count() && s != i ==> (#[trigger] models(
                        final(lanes)@,
                    )[s]).pending == models(old(lanes)@)[s].pending
            },
            !(r matches Some(Ok(_))) ==> forall|s: int|
                0 <= s < old(rx).count() ==> (#[trigger] models(final(lanes)@)[s]).pending
                    == models(old(lanes)@)[s].pending,
    {
        let ghost ms = models(lanes@);
        let ghost sl = self.slots@;
        match rx.try_recv_any(lanes) {
            Err(e) => Some(Err(e)),
            Ok(Some((i, v))) => {
                let ghost mid = models(lanes@);
                proof {
                    assert forall|s: int| 0 <= s < mid.len() && (#[trigger] self.slots()[s]) is Some
                        implies mid[s].recv_waiters.tasks.holds(self.slots()[s]->Some_0) by {
                        assert(ms[s].recv_waiters.tasks.holds(self.slots()[s]->Some_0));
                    }
                }
                self.release(lanes);
                assert(models(lanes@) =~= Seq::new(
                    ms.len(),
                    |s: int|
                        released(
                            if s == i {
                                ms[s].received()
                            } else {
                                ms[s]
                            },
                            sl[s],
                        ),
                ));
                Some(Ok((i, v)))
            },
            Ok(None) => {
                let mut wakers = wakers;
                let ghost ws = wakers@;
                let n: usize = lanes.len();
                let mut k: usize = n;
                while k > 0
                    invariant
                        k <= n,
                        n == ms.len(),
                        sl.len() == n,
                        self.slots@.len() == n,
                        ws.len() == n,
                        wakers@ == ws.subrange(0, k as int),
                        lanes_wf(lanes@, n as int),
                        forall|i: int|
                            0 <= i < n && (#[trigger] sl[i]) is Some
                                ==> ms[i].recv_waiters.tasks.holds(sl[i]->Some_0),
                        forall|i: int| 0 <= i < k ==> (#[trigger] lanes@[i]).model() == ms[i],
                        forall|i: int| 0 <= i < k ==> (#[trigger] self.slots@[i]) == sl[i],
                        forall|i: int|
                            k <= i < n ==> waits_on(
                                ms[i],
                                sl[i],
                                ws[i],
                                (#[trigger] lanes@[i]).model(),
                                self.slots@[i],
                            ),
                    decreases k,
                {
                    k = k - 1;
                    let slot = self.slots[k];
                    assert(lanes@[k as int].model() == ms[k as int]);
                    assert(sl[k as int] == slot);
                    match wakers.pop() {
                        Some(w) => {
                            assert(w == ws[k as int]);
                            assert(wakers@ =~= ws.subrange(0, k as int));
                            let id: usize = lanes[k].receiver_waiters().wait_async(slot, w);
                            self.slots.set(k, Some(id));
                        },
                        None => {},
                    }
                }
                proof {
                    let ms2 = models(lanes@);
                    assert forall|s: int| 0 <= s < n implies waits_on(
                        ms[s],
                        sl[s],
                        ws[s],
                        #[trigger] ms2[s],
                        self.slots@[s],
                    ) by {
                        assert(ms2[s] == lanes@[s].model());
                    }
                    assert forall|i: int| 0 <= i < n && (#[trigger] self.slots()[i]) is Some
                        implies ms2[i].recv_waiters.tasks.holds(self.slots()[i]->Some_0) by {
                        assert(waits_on(ms[i], sl[i], ws[i], ms2[i], self.slots@[i]));
                    }
                }
                None
            },
        }
    }

    /// Gives the receive up.
    pub fn cancel<T, const CAP: usize, W>(self, lanes: &mut Vec<SeqInner<T, CAP, W>>)
        requires
            lanes_wf(old(lanes)@, old(lanes)@.len() as int),
            self.fits(models(old(lanes)@)),
        ensures
            lanes_wf(final(lanes)@, old(lanes)@.len() as int),
            models(final(lanes)@) == Seq::new(
                old(lanes)@.len(),
                |s: int| released(models(old(lanes)@)[s], self.slots()[s]),
            ),
    {
        let mut this = self;
        this.release(lanes);
    }
}

} // verus!
