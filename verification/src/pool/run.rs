use super::instance::{all_closed, PoolModel, WorkerRow};
use super::worker::{item_end, ItemEnd};
use crate::internal_channel::model::ChannelModel;
use crate::internal_channel::sender::try_sent;
use crate::ring::{lemma_ready, values};
use crate::shard::mpmc::buf::joined;
use vstd::multiset::Multiset;
use vstd::prelude::*;

verus! {

/// The items among positions, oldest first.
pub open spec fn held<T>(pending: Seq<Option<T>>) -> Seq<T>
    decreases pending.len(),
{
    if pending.len() == 0 {
        Seq::empty()
    } else {
        match pending.last() {
            Some(v) => held(pending.drop_last()).push(v),
            None => held(pending.drop_last()),
        }
    }
}

/// A pool at work: its shards, its state, the items that each worker holds, and what has
/// become of all items so far.
pub struct RunModel<T, W> {
    pub lanes: Seq<ChannelModel<T, W>>,
    pub pool: PoolModel,
    /// The rest of the batch that each worker holds, in order.
    pub hands: Seq<Seq<T>>,
    /// Every item that was sent.
    pub sent: Seq<T>,
    /// The items whose handler returned.
    pub done: Seq<T>,
    /// The items that went to the dead letters.
    pub dead: Seq<T>,
    /// The items whose handler panicked after it had taken them.
    pub taken: Seq<T>,
    /// How often the dead letters, or the end of an item, panicked.
    pub late: nat,
}

/// What happens in a pool that nobody stops.
pub enum RunStep<T> {
    /// An item is sent to a shard.
    Send { shard: int, item: T },
    /// A blocked sender reserves the next position of a shard.
    Reserve { shard: int },
    /// It sends its item to the position that it reserved.
    Fill { shard: int, at: int, item: T },
    /// A sender of a shard goes away.
    SenderGone { shard: int },
    /// A worker without items receives up to `max` of them from a shard.
    Read { worker: int, shard: int, max: int },
    /// The handler of a worker's next item returned or panicked, and left this in the slot.
    Finish { worker: int, panicked: bool, left: Option<T> },
    /// The dead letters, or the end of an item, panicked; the worker goes on.
    LatePanic,
    /// Workers claim and give up shards, and the monitor places them.
    Manage,
}

/// The pools agree on which shards are closed, whether they have stopped, and what they have
/// counted.
pub open spec fn same_tallies(a: PoolModel, b: PoolModel) -> bool {
    &&& a.closed == b.closed
    &&& a.stopped == b.stopped
    &&& a.processed == b.processed
    &&& a.handler_panics == b.handler_panics
}

/// What each shard holds.
pub open spec fn stock<T, W>(lanes: Seq<ChannelModel<T, W>>) -> Seq<Seq<T>> {
    lanes.map_values(|m: ChannelModel<T, W>| held(m.pending))
}

impl<T, W> RunModel<T, W> {
    /// A new pool, before anything was sent.
    pub open spec fn fresh(self) -> bool {
        &&& self.lanes.len() == self.pool.closed.len()
        &&& self.lanes.len() > 0
        &&& forall|s: int| 0 <= s < self.lanes.len() ==> (#[trigger] self.lanes[s]).pending.len() == 0
        &&& forall|s: int|
            0 <= s < self.pool.closed.len() ==> !#[trigger] self.pool.closed[s]
        &&& !self.pool.stopped
        &&& self.pool.processed == 0
        &&& self.pool.handler_panics == 0
        &&& forall|w: int| 0 <= w < self.hands.len() ==> (#[trigger] self.hands[w]).len() == 0
        &&& self.sent.len() == 0
        &&& self.done.len() == 0
        &&& self.dead.len() == 0
        &&& self.taken.len() == 0
        &&& self.late == 0
    }

    /// The pool has stopped, and all its workers have exited: a worker exits only between
    /// two batches.
    pub open spec fn ended(self) -> bool {
        &&& self.pool.stopped
        &&& forall|w: int| 0 <= w < self.hands.len() ==> (#[trigger] self.hands[w]).len() == 0
    }

    /// All else is as in `a`.
    pub open spec fn only_lane(self, a: Self, s: int) -> bool {
        &&& 0 <= s < a.lanes.len()
        &&& self.lanes == a.lanes.update(s, self.lanes[s])
        &&& self.pool == a.pool
        &&& self.hands == a.hands
        &&& self.done == a.done
        &&& self.dead == a.dead
        &&& self.taken == a.taken
        &&& self.late == a.late
    }

    /// `step` leads from `a` to this.
    pub open spec fn stepped(self, a: Self, step: RunStep<T>) -> bool {
        match step {
            RunStep::Send { shard, item } => {
                &&& self.only_lane(a, shard)
                &&& !a.lanes[shard].tx_closed
                &&& self.lanes[shard].pending == a.lanes[shard].pending.push(Some(item))
                &&& self.sent == a.sent.push(item)
            },
            RunStep::Reserve { shard } => {
                &&& self.only_lane(a, shard)
                &&& !a.lanes[shard].tx_closed
                &&& self.lanes[shard].pending == a.lanes[shard].pending.push(None)
                &&& self.sent == a.sent
            },
            RunStep::Fill { shard, at, item } => {
                &&& self.only_lane(a, shard)
                &&& !a.lanes[shard].tx_closed
                &&& 0 <= at < a.lanes[shard].pending.len()
                &&& a.lanes[shard].pending[at] is None
                &&& self.lanes[shard].pending == a.lanes[shard].pending.update(at, Some(item))
                &&& self.sent == a.sent.push(item)
            },
            RunStep::SenderGone { shard } => {
                &&& self.only_lane(a, shard)
                &&& a.lanes[shard].tx_closed ==> self.lanes[shard].tx_closed
                &&& self.lanes[shard].pending == a.lanes[shard].pending
                &&& self.sent == a.sent
            },
            RunStep::Read { worker, shard, max } => {
                let m = a.lanes[shard];
                let n = m.available(max);
                &&& 0 <= worker < a.hands.len()
                &&& 0 <= shard < a.lanes.len()
                &&& 0 <= max
                &&& a.hands[worker].len() == 0
                &&& self.lanes == a.lanes.update(
                    shard,
                    m.popped_n(n).senders_notified(n as nat),
                )
                &&& self.hands == a.hands.update(worker, values(m.pending.subrange(0, n)))
                &&& same_tallies(
                    self.pool,
                    if n == 0 && m.drained() {
                        a.pool.shard_closed(shard)
                    } else {
                        a.pool
                    },
                )
                &&& self.sent == a.sent
                &&& self.done == a.done
                &&& self.dead == a.dead
                &&& self.taken == a.taken
                &&& self.late == a.late
            },
            RunStep::Finish { worker, panicked, left } => {
                let v = a.hands[worker][0];
                &&& 0 <= worker < a.hands.len()
                &&& a.hands[worker].len() > 0
                &&& left is Some ==> left == Some(v)
                &&& self.lanes == a.lanes
                &&& self.hands == a.hands.update(worker, a.hands[worker].drop_first())
                &&& self.pool.closed == a.pool.closed
                &&& self.pool.stopped == a.pool.stopped
                &&& self.sent == a.sent
                &&& self.late == a.late
                &&& match item_end(panicked, left) {
                    ItemEnd::Done(_) => {
                        &&& self.done == a.done.push(v)
                        &&& self.dead == a.dead
                        &&& self.taken == a.taken
                        &&& self.pool.processed == a.pool.processed.wrapping_add(1)
                        &&& self.pool.handler_panics == a.pool.handler_panics
                    },
                    ItemEnd::DeadLetter(x) => {
                        &&& self.done == a.done
                        &&& self.dead == a.dead.push(x)
                        &&& self.taken == a.taken
                        &&& self.pool.processed == a.pool.processed
                        &&& self.pool.handler_panics == a.pool.handler_panics.wrapping_add(1)
                    },
                    ItemEnd::Taken => {
                        &&& self.done == a.done
                        &&& self.dead == a.dead
                        &&& self.taken == a.taken.push(v)
                        &&& self.pool.processed == a.pool.processed
                        &&& self.pool.handler_panics == a.pool.handler_panics.wrapping_add(1)
                    },
                }
            },
            RunStep::LatePanic => {
                &&& self == (RunModel {
                    pool: PoolModel {
                        handler_panics: a.pool.handler_panics.wrapping_add(1),
                        ..a.pool
                    },
                    late: a.late + 1,
                    ..a
                })
            },
            RunStep::Manage => {
                self == (RunModel { pool: self.pool, ..a }) && same_tallies(self.pool, a.pool)
            },
        }
    }

    /// What is in the shards and in the workers' hands, and what has met its fate.
    pub open spec fn everything(self) -> Multiset<T> {
        joined(stock(self.lanes)).to_multiset().add(joined(self.hands).to_multiset()).add(
            self.done.to_multiset(),
        ).add(self.dead.to_multiset()).add(self.taken.to_multiset())
    }

    /// Everything that was sent is in a shard, in a worker's hands, or has met its fate.
    pub open spec fn accounted(self) -> bool {
        self.sent.to_multiset() == self.everything()
    }

    /// How often an item is in [`RunModel::everything`].
    pub open spec fn counted(self, x: T) -> nat {
        times(joined(stock(self.lanes)), x) + times(joined(self.hands), x) + times(self.done, x)
            + times(self.dead, x) + times(self.taken, x)
    }

    /// What holds all the time.
    pub open spec fn sound(self) -> bool {
        &&& self.lanes.len() == self.pool.closed.len()
        &&& forall|s: int|
            0 <= s < self.lanes.len() && #[trigger] self.pool.closed[s] ==> self.lanes[s].drained()
        &&& self.pool.stopped ==> all_closed(self.pool.closed)
        &&& self.accounted()
        &&& self.pool.processed as int == self.done.len() % 0x1_0000_0000_0000_0000
        &&& self.pool.handler_panics as int == (self.dead.len() + self.taken.len() + self.late)
            % 0x1_0000_0000_0000_0000
    }
}

/// How often an item is there.
pub open spec fn times<T>(items: Seq<T>, x: T) -> nat {
    items.to_multiset().count(x)
}

proof fn lemma_times_join<T>(a: Seq<T>, b: Seq<T>, x: T)
    ensures
        times(a + b, x) == times(a, x) + times(b, x),
{
    vstd::seq_lib::lemma_multiset_commutative(a, b);
}

proof fn lemma_times_push<T>(a: Seq<T>, v: T, x: T)
    ensures
        times(a.push(v), x) == times(a, x) + if v == x {
            1nat
        } else {
            0nat
        },
{
    a.to_multiset_ensures();
}

/// Changing one group exchanges its items for the new ones.
proof fn lemma_joined_exchange<T>(groups: Seq<Seq<T>>, s: int, g: Seq<T>, x: T)
    requires
        0 <= s < groups.len(),
    ensures
        times(joined(groups.update(s, g)), x) + times(groups[s], x) == times(joined(groups), x)
            + times(g, x),
    decreases groups.len(),
{
    let u = groups.update(s, g);
    let t = groups.drop_last();
    lemma_times_join(joined(t), groups.last(), x);
    lemma_times_join(joined(u.drop_last()), u.last(), x);
    if s == groups.len() - 1 {
        assert(u.drop_last() =~= t);
    } else {
        lemma_joined_exchange(t, s, g, x);
        assert(u.drop_last() =~= t.update(s, g));
    }
}

/// A position that is filled adds its item.
proof fn lemma_held_fill<T>(pending: Seq<Option<T>>, k: int, v: T, x: T)
    requires
        0 <= k < pending.len(),
        pending[k] is None,
    ensures
        times(held(pending.update(k, Some(v))), x) == times(held(pending), x) + if v == x {
            1nat
        } else {
            0nat
        },
    decreases pending.len(),
{
    let u = pending.update(k, Some(v));
    let t = pending.drop_last();
    if k == pending.len() - 1 {
        assert(u.drop_last() =~= t);
        lemma_times_push(held(t), v, x);
    } else {
        lemma_held_fill(t, k, v, x);
        assert(u.drop_last() =~= t.update(k, Some(v)));
        match pending.last() {
            Some(y) => {
                lemma_times_push(held(t), y, x);
                lemma_times_push(held(u.drop_last()), y, x);
            },
            None => {},
        }
    }
}

/// Written positions at the front are the items at the front.
proof fn lemma_held_split<T>(pending: Seq<Option<T>>, n: int)
    requires
        0 <= n <= pending.len(),
        forall|k: int| 0 <= k < n ==> (#[trigger] pending[k]) is Some,
    ensures
        held(pending) == values(pending.subrange(0, n)) + held(
            pending.subrange(n, pending.len() as int),
        ),
    decreases pending.len(),
{
    let front = pending.subrange(0, n);
    let rest = pending.subrange(n, pending.len() as int);
    if pending.len() == 0 {
        assert(values(front) + held(rest) =~= held(pending));
    } else {
        let t = pending.drop_last();
        if n == pending.len() {
            lemma_held_split(t, n - 1);
            assert(t.subrange(0, n - 1) =~= t);
            assert(t.subrange(n - 1, n - 1) =~= Seq::empty());
            assert(rest =~= Seq::empty());
            assert(pending[n - 1] is Some);
            assert(held(t) =~= values(t));
            assert(values(front) + held(rest) =~= held(pending));
        } else {
            lemma_held_split(t, n);
            assert(t.subrange(0, n) =~= front);
            assert(t.subrange(n, t.len() as int) =~= rest.drop_last());
            assert(rest.last() == pending.last());
            assert(values(front) + held(rest) =~= held(pending));
        }
    }
}

/// Each step keeps what holds all the time.
proof fn lemma_step<T, W>(a: RunModel<T, W>, step: RunStep<T>, b: RunModel<T, W>)
    requires
        a.sound(),
        b.stepped(a, step),
    ensures
        b.sound(),
{
    let sa = stock(a.lanes);
    let sb = stock(b.lanes);
    match step {
        RunStep::Send { shard, item } => {
            let p = a.lanes[shard].pending;
            assert(p.push(Some(item)).drop_last() =~= p);
            assert(sb =~= sa.update(shard, held(p).push(item)));
        },
        RunStep::Reserve { shard } => {
            let p = a.lanes[shard].pending;
            assert(p.push(None).drop_last() =~= p);
            assert(sb =~= sa);
        },
        RunStep::Fill { shard, at, item } => {
            let p = a.lanes[shard].pending;
            assert(sb =~= sa.update(shard, held(p.update(at, Some(item)))));
        },
        RunStep::SenderGone { shard } => {
            assert(sb =~= sa);
        },
        RunStep::Read { worker, shard, max } => {
            let m = a.lanes[shard];
            let p = m.pending;
            let n = m.available(max);
            lemma_ready(p);
            lemma_held_split(p, n);
            assert(sb =~= sa.update(shard, held(p.subrange(n, p.len() as int))));
            assert(a.hands[worker] =~= Seq::empty());
            assert forall|s: int|
                0 <= s < b.lanes.len() && #[trigger] b.pool.closed[s] implies b.lanes[s].drained() by {
                if s != shard || !(n == 0 && m.drained()) {
                    assert(a.pool.closed[s]);
                }
            }
        },
        RunStep::Finish { worker, panicked, left } => {
            assert(seq![a.hands[worker][0]] + a.hands[worker].drop_first() =~= a.hands[worker]);
            assert(Seq::<T>::empty().push(a.hands[worker][0]) =~= seq![a.hands[worker][0]]);
        },
        RunStep::LatePanic => {},
        RunStep::Manage => {},
    }
    assert forall|x: T| times(b.sent, x) == #[trigger] b.counted(x) by {
        assert(times(a.sent, x) == a.counted(x));
        lemma_step_counts(a, step, b, x);
    }
    assert(b.sent.to_multiset() =~= b.everything()) by {
        assert forall|x: T| #[trigger] b.sent.to_multiset().count(x) == b.everything().count(x) by {
            assert(times(b.sent, x) == b.counted(x));
        }
    }
}

/// Each step keeps the count of every item.
proof fn lemma_step_counts<T, W>(a: RunModel<T, W>, step: RunStep<T>, b: RunModel<T, W>, x: T)
    requires
        a.sound(),
        b.stepped(a, step),
        times(a.sent, x) == a.counted(x),
    ensures
        times(b.sent, x) == b.counted(x),
{
    let sa = stock(a.lanes);
    let sb = stock(b.lanes);
    match step {
        RunStep::Send { shard, item } => {
            let p = a.lanes[shard].pending;
            assert(p.push(Some(item)).drop_last() =~= p);
            assert(sb =~= sa.update(shard, held(p).push(item)));
            lemma_joined_exchange(sa, shard, held(p).push(item), x);
            lemma_times_push(held(p), item, x);
            lemma_times_push(a.sent, item, x);
        },
        RunStep::Reserve { shard } => {
            let p = a.lanes[shard].pending;
            assert(p.push(None).drop_last() =~= p);
            assert(sb =~= sa);
        },
        RunStep::Fill { shard, at, item } => {
            let p = a.lanes[shard].pending;
            let g = held(p.update(at, Some(item)));
            assert(sb =~= sa.update(shard, g));
            lemma_held_fill(p, at, item, x);
            lemma_joined_exchange(sa, shard, g, x);
            lemma_times_push(a.sent, item, x);
        },
        RunStep::SenderGone { shard } => {
            assert(sb =~= sa);
        },
        RunStep::Read { worker, shard, max } => {
            let p = a.lanes[shard].pending;
            let n = a.lanes[shard].available(max);
            lemma_ready(p);
            lemma_held_split(p, n);
            let rest = held(p.subrange(n, p.len() as int));
            let got = values(p.subrange(0, n));
            assert(sb =~= sa.update(shard, rest));
            lemma_joined_exchange(sa, shard, rest, x);
            lemma_joined_exchange(a.hands, worker, got, x);
            lemma_times_join(got, rest, x);
            assert(a.hands[worker] + a.hands[worker] =~= a.hands[worker]);
            lemma_times_join(a.hands[worker], a.hands[worker], x);
        },
        RunStep::Finish { worker, panicked, left } => {
            let h = a.hands[worker];
            let v = h[0];
            lemma_joined_exchange(a.hands, worker, h.drop_first(), x);
            assert(seq![v] + h.drop_first() =~= h);
            lemma_times_join(seq![v], h.drop_first(), x);
            let e = Seq::<T>::empty();
            assert(e.push(v) =~= seq![v]);
            assert(e + e =~= e);
            lemma_times_join(e, e, x);
            lemma_times_push(e, v, x);
            lemma_times_push(a.done, v, x);
            lemma_times_push(a.dead, v, x);
            lemma_times_push(a.taken, v, x);
        },
        RunStep::LatePanic => {},
        RunStep::Manage => {},
    }
}

/// `steps` lead from each of `states` to the next.
pub open spec fn is_run<T, W>(states: Seq<RunModel<T, W>>, steps: Seq<RunStep<T>>) -> bool {
    &&& states.len() == steps.len() + 1
    &&& forall|i: int|
        0 <= i < steps.len() ==> #[trigger] states[i + 1].stepped(states[i], steps[i])
}

proof fn lemma_run<T, W>(states: Seq<RunModel<T, W>>, steps: Seq<RunStep<T>>, k: int)
    requires
        is_run(states, steps),
        states[0].sound(),
        0 <= k <= steps.len(),
    ensures
        states[k].sound(),
    decreases k,
{
    if k > 0 {
        lemma_run(states, steps, k - 1);
        assert(states[(k - 1) + 1].stepped(states[k - 1], steps[k - 1]));
        lemma_step(states[k - 1], steps[k - 1], states[k]);
    }
}

proof fn lemma_all_empty<T>(groups: Seq<Seq<T>>)
    requires
        forall|s: int| 0 <= s < groups.len() ==> (#[trigger] groups[s]).len() == 0,
    ensures
        joined(groups) == Seq::<T>::empty(),
    decreases groups.len(),
{
    if groups.len() > 0 {
        lemma_all_empty(groups.drop_last());
        assert(groups[groups.len() - 1].len() == 0);
    }
    assert(joined(groups) =~= Seq::empty());
}

/// When a pool that nobody stopped has ended, every item that was ever sent has met exactly
/// one fate, none lost and none doubled: its handler returned, or its handler panicked with
/// the item still in the slot and the dead letters got it, or its handler panicked after it
/// had taken the item. The counters say how many there were of each. Panics, of handlers and
/// of the dead letters, ended no worker.
pub proof fn law_every_item_has_one_fate<T, W>(
    states: Seq<RunModel<T, W>>,
    steps: Seq<RunStep<T>>,
)
    requires
        is_run(states, steps),
        states[0].fresh(),
        states.last().ended(),
    ensures
        ({
            let r = states.last();
            &&& r.sent.to_multiset() == r.done.to_multiset().add(r.dead.to_multiset()).add(
                r.taken.to_multiset(),
            )
            &&& r.sent.len() == r.done.len() + r.dead.len() + r.taken.len()
            &&& r.pool.processed as int == r.done.len() % 0x1_0000_0000_0000_0000
            &&& r.pool.handler_panics as int == (r.dead.len() + r.taken.len() + r.late)
                % 0x1_0000_0000_0000_0000
        }),
{
    let a = states[0];
    let r = states.last();
    assert forall|s: int| 0 <= s < a.lanes.len() implies (#[trigger] stock(a.lanes)[s]).len() == 0 by {
        assert(a.lanes[s].pending.len() == 0);
    }
    lemma_all_empty(stock(a.lanes));
    lemma_all_empty(a.hands);
    assert(a.sent =~= Seq::empty());
    assert(a.done =~= Seq::empty());
    assert(a.dead =~= Seq::empty());
    assert(a.taken =~= Seq::empty());
    Seq::<T>::empty().to_multiset_ensures();
    assert(a.accounted()) by {
        assert(a.sent.to_multiset() =~= joined(stock(a.lanes)).to_multiset().add(
            joined(a.hands).to_multiset(),
        ).add(a.done.to_multiset()).add(a.dead.to_multiset()).add(a.taken.to_multiset()));
    }
    lemma_run(states, steps, steps.len() as int);
    assert forall|s: int| 0 <= s < r.lanes.len() implies (#[trigger] stock(r.lanes)[s]).len() == 0 by {
        assert(r.pool.closed[s]);
        assert(r.lanes[s].drained());
    }
    lemma_all_empty(stock(r.lanes));
    lemma_all_empty(r.hands);
    assert(r.sent.to_multiset() =~= r.done.to_multiset().add(r.dead.to_multiset()).add(
        r.taken.to_multiset(),
    ));
    r.sent.to_multiset_ensures();
    r.done.to_multiset_ensures();
    r.dead.to_multiset_ensures();
    r.taken.to_multiset_ensures();
}

/// What the library does is such a step: a send that succeeds, and a worker that settles an
/// item.
pub proof fn law_sends_and_settlements_are_steps<T, W>(
    a: RunModel<T, W>,
    shard: int,
    item: T,
    cap: int,
    worker: int,
    panicked: bool,
    left: Option<T>,
)
    ensures
        0 <= shard < a.lanes.len() && !a.lanes[shard].tx_closed && try_sent(
            a.lanes[shard],
            cap,
            item,
        ).1 is Ok ==> (RunModel {
            lanes: a.lanes.update(shard, try_sent(a.lanes[shard], cap, item).0),
            sent: a.sent.push(item),
            ..a
        }).stepped(a, RunStep::Send { shard, item }),
        0 <= worker < a.hands.len() && a.hands[worker].len() > 0 && (left is Some ==> left == Some(
            a.hands[worker][0],
        )) ==> ({
            let v = a.hands[worker][0];
            let end = item_end(panicked, left);
            (RunModel {
                hands: a.hands.update(worker, a.hands[worker].drop_first()),
                pool: if panicked {
                    PoolModel {
                        handler_panics: a.pool.handler_panics.wrapping_add(1),
                        ..a.pool
                    }
                } else {
                    PoolModel { processed: a.pool.processed.wrapping_add(1), ..a.pool }
                },
                done: if end is Done {
                    a.done.push(v)
                } else {
                    a.done
                },
                dead: if end is DeadLetter {
                    a.dead.push(v)
                } else {
                    a.dead
                },
                taken: if end is Taken {
                    a.taken.push(v)
                } else {
                    a.taken
                },
                ..a
            }).stepped(a, RunStep::Finish { worker, panicked, left })
        }),
{
    if 0 <= shard < a.lanes.len() {
        let m = try_sent(a.lanes[shard], cap, item).0;
        let lanes = a.lanes.update(shard, m);
        assert(lanes =~= a.lanes.update(shard, lanes[shard]));
    }
}

/// So is a worker's read: it takes what the shard holds, up to `max` items, writes its own row
/// of the pool's state, and closes the shard if it found nothing there and nothing will come.
pub proof fn law_reads_are_steps<T, W>(
    a: RunModel<T, W>,
    worker: int,
    shard: int,
    max: int,
    row: WorkerRow,
)
    requires
        0 <= worker < a.hands.len(),
        a.hands[worker].len() == 0,
        0 <= shard < a.lanes.len(),
        0 <= max,
    ensures
        ({
            let m = a.lanes[shard];
            let n = m.available(max);
            let noted = a.pool.with_row(worker, row);
            (RunModel {
                lanes: a.lanes.update(shard, m.popped_n(n).senders_notified(n as nat)),
                hands: a.hands.update(worker, values(m.pending.subrange(0, n))),
                pool: if n == 0 && m.drained() {
                    noted.shard_closed(shard)
                } else {
                    noted
                },
                ..a
            }).stepped(a, RunStep::Read { worker, shard, max })
        }),
{
}

} // verus!
