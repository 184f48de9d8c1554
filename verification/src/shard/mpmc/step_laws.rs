use super::super::errors::{
    ShardAsyncRecvError, ShardKeyTryBatchSendError, ShardRecvAnyError,
};
use super::super::recv::{ShardRecvFuture, ShardRecvOp, ShardRecvStep};
use super::batch::{
    batch_left, batch_models, batch_result, batch_sent, batch_taken, first_short, is_short,
    lemma_batch, short_reason, went, Budget,
};
use super::buf::{joined, GroupsModel};
use super::flow::{flow_answer, flowed, FlowModel, FlowStep};
use super::hash::shard_of;
use super::layout::{keyed, laid_out, numbered, picked};
use super::receiver::{around, first_hit, received_any, taken_of};
use super::recv_any::{released, waits_on};
use super::sender_group::{
    among, in_group, mapped, shards_of_route, stopped_left, stopped_models, Route,
};
use super::sender_key::shards_of_keys;
use crate::internal_channel::errors::{BatchSendError, SendBatchError, TrySendBatchError};
use crate::internal_channel::laws::live_waiters;
use crate::internal_channel::model::ChannelModel;
use crate::internal_channel::receiver::{poll_received, RecvEvent, RecvPoll, RecvStep};
use crate::internal_channel::step_laws::{
    law_batch_receive_stops_only_at_a_gap, law_batch_send_stops_only_when_full,
    law_blocking_receive_answers, law_blocking_receive_conserves_items, law_poll_of_a_receive,
    law_poll_of_a_send,
};
use vstd::arithmetic::div_mod::{lemma_mod_add_multiples_vanish, lemma_small_mod};
use vstd::prelude::*;

verus! {

/// Going round from `start`, one comes first to the shards from `start` on, and then to those
/// before it.
pub proof fn law_going_round(start: int, k: int, n: int)
    requires
        0 <= start < n,
        0 <= k < n,
    ensures
        start + k < n ==> around(start, k, n) == start + k,
        start + k >= n ==> around(start, k, n) == start + k - n,
{
    if start + k < n {
        lemma_small_mod((start + k) as nat, n as nat);
    } else {
        lemma_mod_add_multiples_vanish(start + k - n, n);
        lemma_small_mod((start + k - n) as nat, n as nat);
    }
}

/// A shard has an item that can be received.
pub open spec fn has_item<T, W>(m: ChannelModel<T, W>) -> bool {
    m.pending.len() > 0 && m.pending[0] is Some
}

/// Shard `j` comes before shard `i`, going round from `start`.
pub open spec fn comes_before(start: int, j: int, i: int) -> bool {
    if i >= start {
        start <= j < i
    } else {
        j >= start || j < i
    }
}

/// A receive from any shard takes the oldest item of one shard and nothing else: of the first
/// shard with an item, going round from the cursor, which stands behind that shard afterwards.
/// It comes back with nothing exactly if no shard has an item, and with an error exactly if
/// none ever will have one.
pub proof fn law_receive_from_any<T, W>(
    ms: Seq<ChannelModel<T, W>>,
    cursor: int,
    ms2: Seq<ChannelModel<T, W>>,
    cursor2: int,
    r: Result<Option<(usize, T)>, ShardRecvAnyError>,
)
    requires
        0 <= cursor < ms.len(),
        received_any(ms, cursor, ms2, cursor2, r),
    ensures
        match r {
            Ok(Some((i, v))) => {
                &&& i < ms.len()
                &&& has_item(ms[i as int])
                &&& Some(v) == ms[i as int].pending[0]
                &&& ms2.len() == ms.len()
                &&& ms2[i as int].pending == ms[i as int].pending.drop_first()
                &&& live_waiters(ms[i as int].send_waiters) > 0 ==> ms2[i as int].woken.len()
                    == ms[i as int].woken.len() + 1
                &&& forall|j: int| 0 <= j < ms.len() && j != i ==> #[trigger] ms2[j] == ms[j]
                &&& forall|j: int|
                    0 <= j < ms.len() && comes_before(cursor, j, i as int) ==> !has_item(
                        #[trigger] ms[j],
                    )
                &&& cursor2 == if i + 1 == ms.len() {
                    0
                } else {
                    i + 1
                }
            },
            Ok(None) => {
                &&& ms2 == ms && cursor2 == cursor
                &&& forall|j: int| 0 <= j < ms.len() ==> !has_item(#[trigger] ms[j])
                &&& exists|j: int|
                    0 <= j < ms.len() && !((#[trigger] ms[j]).tx_closed && ms[j].pending.len() == 0)
            },
            Err(e) => {
                &&& ms2 == ms && cursor2 == cursor
                &&& forall|j: int|
                    0 <= j < ms.len() ==> (#[trigger] ms[j]).tx_closed && ms[j].pending.len() == 0
                &&& e.disconnected_shards == ms.len()
            },
        },
{
    let n = ms.len() as int;
    match r {
        Ok(Some((i, v))) => {
            let k = choose|k: int| #[trigger]
                first_hit(ms, cursor, k) && i == around(cursor, k, n);
            law_going_round(cursor, k, n);
            crate::internal_channel::laws::lemma_notified_count(ms[i as int].send_waiters);
            if i + 1 < n {
                lemma_small_mod((i + 1) as nat, n as nat);
            } else {
                vstd::arithmetic::div_mod::lemma_mod_self_0(n);
            }
            assert forall|j: int|
                0 <= j < ms.len() && comes_before(cursor, j, i as int) implies !has_item(
                #[trigger] ms[j],
            ) by {
                let h = if j >= cursor {
                    j - cursor
                } else {
                    j - cursor + n
                };
                law_going_round(cursor, h, n);
                assert(around(cursor, h, n) == j);
                assert(h < k);
            }
        },
        Ok(None) => {
            let j = choose|j: int| 0 <= j < ms.len() && !(#[trigger] ms[j]).drained();
            assert(!(ms[j].tx_closed && ms[j].pending.len() == 0));
        },
        Err(e) => {
            assert forall|j: int| 0 <= j < ms.len() implies (#[trigger] ms[j]).tx_closed
                && ms[j].pending.len() == 0 by {
                assert(ms[j].drained());
            }
        },
    }
}

/// What a batch receive from every shard takes from one: its oldest items, in order, `max` of
/// them or as many as can be read.
pub proof fn law_batch_from_any_takes_the_oldest<T, W>(m: ChannelModel<T, W>, max: int)
    requires
        0 <= max,
    ensures
        ({
            let out = taken_of(m, max);
            &&& out.len() <= max
            &&& out.len() <= m.pending.len()
            &&& forall|k: int| 0 <= k < out.len() ==> Some(#[trigger] out[k]) == m.pending[k]
            &&& out.len() == max || out.len() == m.pending.len() || m.pending[out.len() as int] is None
            &&& out.len() == m.available(max)
        }),
{
    let n = m.available(max);
    law_batch_receive_stops_only_at_a_gap(m, max, n, m.popped_n(n).senders_notified(n as nat));
}

/// Each shard takes the front of its group, as far as it has room: with receivers there,
/// either the whole group is in the shard or the shard is full. What was not taken is left, in
/// order. Without receivers nothing is taken.
pub proof fn law_shards_take_what_fits<T, W>(
    groups: Seq<Seq<T>>,
    ms: Seq<ChannelModel<T, W>>,
    cap: int,
    s: int,
)
    requires
        groups.len() == ms.len(),
        0 <= s < ms.len(),
    ensures
        ({
            let m2 = batch_models(groups, ms, cap)[s];
            let left = batch_left(groups, ms, cap)[s];
            let n = m2.pending.len() - ms[s].pending.len();
            &&& batch_models(groups, ms, cap).len() == ms.len()
            &&& batch_left(groups, ms, cap).len() == groups.len()
            &&& 0 <= n <= groups[s].len()
            &&& left == groups[s].subrange(n, groups[s].len() as int)
            &&& forall|k: int|
                0 <= k < ms[s].pending.len() ==> #[trigger] m2.pending[k] == ms[s].pending[k]
            &&& forall|k: int|
                ms[s].pending.len() <= k < m2.pending.len() ==> #[trigger] m2.pending[k] == Some(
                    groups[s][k - ms[s].pending.len()],
                )
            &&& ms[s].rx_closed ==> n == 0
            &&& !ms[s].rx_closed ==> left.len() == 0 || m2.pending.len() >= cap
            &&& n > 0 ==> m2.pending.len() <= cap
            &&& is_short(groups, ms, cap, s) <==> left.len() > 0
            &&& m2.woken.len() == ms[s].woken.len() + if n < live_waiters(ms[s].recv_waiters) {
                n
            } else {
                live_waiters(ms[s].recv_waiters) as int
            }
        }),
{
    let n = batch_taken(groups, ms, cap, s);
    law_batch_send_stops_only_when_full(
        ms[s],
        cap,
        groups[s],
        n,
        batch_models(groups, ms, cap)[s],
    );
}

/// A batch by key says that everything went exactly if nothing is left, and how many items
/// that were; otherwise it names the first shard that has something left, says truly whether
/// its receivers are gone or it is full, and names the key of the first item that is left.
pub proof fn law_batch_answer<T, W, F: for<'k> Fn(&'k T) -> &'k str>(
    key_fn: F,
    groups: Seq<Seq<T>>,
    ms: Seq<ChannelModel<T, W>>,
    cap: int,
    r: Result<usize, ShardKeyTryBatchSendError>,
)
    requires
        groups.len() == ms.len(),
        batch_result(key_fn, groups, ms, cap, r),
    ensures
        ({
            let left = batch_left(groups, ms, cap);
            match r {
                Ok(n) => {
                    &&& n == joined(groups).len()
                    &&& forall|s: int| 0 <= s < left.len() ==> (#[trigger] left[s]).len() == 0
                },
                Err(e) => {
                    let f = e.shard as int;
                    &&& 0 <= f < left.len()
                    &&& left[f].len() > 0
                    &&& forall|s: int| 0 <= s < f ==> (#[trigger] left[s]).len() == 0
                    &&& e.reason is Disconnected <==> ms[f].rx_closed
                    &&& e.reason is Full ==> batch_models(groups, ms, cap)[f].pending.len() >= cap
                    &&& e.sent + joined(left).len() == joined(groups).len()
                    &&& keyed(key_fn, left[f][0], e.key@)
                },
            }
        }),
{
    let left = batch_left(groups, ms, cap);
    let n = groups.len() as int;
    lemma_sent_and_left(groups, ms, cap, n);
    assert(groups.subrange(0, n) =~= groups);
    assert(left.subrange(0, n) =~= left);
    match r {
        Ok(k) => {
            assert forall|s: int| 0 <= s < left.len() implies (#[trigger] left[s]).len() == 0 by {
                assert(!is_short(groups, ms, cap, s));
                law_shards_take_what_fits(groups, ms, cap, s);
            }
            super::layout::lemma_joined_empty(left);
        },
        Err(e) => {
            let f = e.shard as int;
            assert forall|s: int| 0 <= s < f implies (#[trigger] left[s]).len() == 0 by {
                assert(!is_short(groups, ms, cap, s));
                law_shards_take_what_fits(groups, ms, cap, s);
            }
            law_shards_take_what_fits(groups, ms, cap, f);
        },
    }
}

/// What went and what is left of the first groups are those groups.
proof fn lemma_sent_and_left<T, W>(
    groups: Seq<Seq<T>>,
    ms: Seq<ChannelModel<T, W>>,
    cap: int,
    k: int,
)
    requires
        groups.len() == ms.len(),
        0 <= k <= groups.len(),
    ensures
        batch_sent(groups, ms, cap, k) + joined(batch_left(groups, ms, cap).subrange(0, k)).len()
            == joined(groups.subrange(0, k)).len(),
    decreases k,
{
    lemma_batch(groups, ms, cap, k);
    if k > 0 {
        lemma_sent_and_left(groups, ms, cap, k - 1);
        let p = groups.subrange(0, k);
        let q = batch_left(groups, ms, cap).subrange(0, k);
        assert(p.drop_last() =~= groups.subrange(0, k - 1));
        assert(q.drop_last() =~= batch_left(groups, ms, cap).subrange(0, k - 1));
        assert(0 <= batch_taken(groups, ms, cap, k - 1) <= groups[k - 1].len());
    }
}

/// A batch by group that stops at a shard leaves the shards after it, and their groups, as
/// they were; the shards up to it have taken what fits.
pub proof fn law_stopped_batch_touches_nothing_after<T, W>(
    groups: Seq<Seq<T>>,
    ms: Seq<ChannelModel<T, W>>,
    cap: int,
    f: int,
    s: int,
)
    requires
        groups.len() == ms.len(),
        0 <= s < ms.len(),
    ensures
        s > f ==> stopped_models(groups, ms, cap, f)[s] == ms[s] && stopped_left(
            groups,
            ms,
            cap,
            f,
        )[s] == groups[s],
        s <= f ==> stopped_models(groups, ms, cap, f)[s] == batch_models(groups, ms, cap)[s]
            && stopped_left(groups, ms, cap, f)[s] == batch_left(groups, ms, cap)[s],
        stopped_models(groups, ms, cap, f).len() == ms.len(),
        stopped_left(groups, ms, cap, f).len() == groups.len(),
        first_short(groups, ms, cap, f) && s < f ==> stopped_left(groups, ms, cap, f)[s].len()
            == 0,
        first_short(groups, ms, cap, f) && s == f ==> stopped_left(groups, ms, cap, f)[s].len()
            > 0,
        short_reason(ms[s]) is Disconnected <==> ms[s].rx_closed,
        short_reason(ms[s]) == TrySendBatchError::Full <==> !ms[s].rx_closed,
{
    law_shards_take_what_fits(groups, ms, cap, s);
    if first_short(groups, ms, cap, f) && s < f {
        assert(!is_short(groups, ms, cap, s));
    }
}

/// A step of a batch that a task sends makes all the progress it can. An item on its way is
/// in its shard as soon as there is room, and comes back exactly if the receivers are gone.
/// Without one, the shard whose turn it is takes from its group until the group is empty or the
/// shard is full; a full shard gets the next item set on its way; an empty group passes the turn
/// on. The batch is over exactly when the last shard has had its turn. What is counted as sent
/// is what went into that shard, and no other shard is touched.
pub proof fn law_flow_makes_progress<T, W>(
    f: FlowModel<T>,
    ms: Seq<ChannelModel<T, W>>,
    cap: int,
    waker: W,
    f2: FlowModel<T>,
    ms2: Seq<ChannelModel<T, W>>,
    step: FlowStep,
)
    requires
        f.sound(),
        f2.sound(),
        ms.len() == f.groups.groups.len(),
        f.shard < ms.len() ==> ms[f.shard].send_waiters.sound(),
        flowed(f, ms, cap, waker, f2, ms2, step),
    ensures
        step is Done <==> f.groups.pending is None && f.shard == ms.len(),
        step is Done ==> f2 == f && ms2 == ms,
        step is Disconnected <==> f.groups.pending is Some && ms[f.shard].rx_closed,
        step is Pending <==> f.groups.pending is Some && !ms[f.shard].rx_closed
            && ms[f.shard].pending.len() >= cap,
        !(step is Done) ==> {
            let s = f.shard;
            let went = ms2[s].pending.len() - ms[s].pending.len();
            &&& f2.sent - f.sent == went
            &&& forall|t: int| 0 <= t < ms.len() && t != s ==> #[trigger] ms2[t] == ms[t]
            &&& step is Pending || step is Disconnected ==> went == 0 && f2.groups == f.groups
                && f2.shard == s
            &&& step is Again && f.groups.pending is Some ==> went == 1 && f2.groups.pending is None
                && f2.groups.groups == f.groups.groups && f2.shard == s
            &&& step is Again && f.groups.pending is None && f.groups.groups[s].len() == 0
                ==> went == 0 && f2.shard == s + 1 && f2.groups == f.groups
            &&& f.groups.pending is None && f.groups.groups[s].len() > 0 ==> {
                &&& f2.shard == s
                &&& f2.groups.pending is None <==> went > 0
                &&& went > 0 ==> f2.groups.groups[s].len() == 0 || ms2[s].pending.len() >= cap
                &&& went == 0 ==> ms[s].rx_closed || ms[s].pending.len() >= cap
                &&& went == 0 ==> f2.groups.pending == Some(f.groups.groups[s][0])
            }
            &&& f2.groups.unused == f.groups.unused
        },
{
    let s = f.shard;
    match f.groups.pending {
        Some(v) => {
            let left = match step {
                FlowStep::Pending => Some(v),
                _ => None,
            };
            law_poll_of_a_send(
                ms[s],
                cap,
                v,
                f.slot,
                waker,
                ms2[s],
                left,
                f2.slot,
                flow_answer(step, v),
            );
        },
        None => {
            if s < ms.len() {
                let g = f.groups.groups[s];
                let n = ms[s].room(cap, g.len() as int);
                law_batch_send_stops_only_when_full(
                    ms[s],
                    cap,
                    g,
                    n,
                    ms[s].pushed_all(g.subrange(0, n)).receivers_notified(n as nat),
                );
            }
        },
    }
}

/// What waits for a shard is the item on its way to it, then what is staged for it, then its
/// group; an item on its way, or staged, for another shard does not count.
pub proof fn law_what_waits_for_a_shard<T>(g: GroupsModel<T>, s: int)
    requires
        0 <= s < g.groups.len(),
    ensures
        g.by_shard().len() == g.groups.len(),
        g.by_shard()[s] == g.of_shard(s),
        ({
            let on_its_way = g.pending is Some && g.pending_shard == s;
            let staged = g.scratch_shard == s;
            &&& on_its_way && staged ==> g.of_shard(s) == seq![g.pending->Some_0] + g.scratch
                + g.groups[s]
            &&& on_its_way && !staged ==> g.of_shard(s) == seq![g.pending->Some_0] + g.groups[s]
            &&& !on_its_way && staged ==> g.of_shard(s) == g.scratch + g.groups[s]
            &&& !on_its_way && !staged ==> g.of_shard(s) == g.groups[s]
        }),
{
    let e = Seq::<T>::empty();
    assert(e + e =~= e);
    assert(e + g.groups[s] =~= g.groups[s]);
    assert(e + g.scratch =~= g.scratch);
    if g.pending is Some {
        assert(seq![g.pending->Some_0] + e =~= seq![g.pending->Some_0]);
    }
}

/// Groups are joined in order, each whole.
pub proof fn law_joined_in_order<T>(groups: Seq<Seq<T>>, g: Seq<T>)
    ensures
        joined(Seq::<Seq<T>>::empty()).len() == 0,
        joined(groups.push(g)) == joined(groups) + g,
{
    assert(groups.push(g).drop_last() =~= groups);
}

/// `v` is one of the items that are assigned to shard `s`.
pub open spec fn assigned<T>(items: Seq<T>, shards: Seq<int>, s: int, v: T) -> bool {
    exists|i: int| 0 <= i < items.len() && #[trigger] items[i] == v && shards[i] == s
}

/// Each shard's group has exactly the items that are assigned to it, in order.
pub proof fn law_layout_by_shard<T>(items: Seq<T>, shards: Seq<int>, n: int, s: int)
    requires
        items.len() == shards.len(),
        0 <= s < n,
    ensures
        laid_out(items, shards, n).len() == n,
        laid_out(items, shards, n)[s] == picked(items, shards, s),
        forall|i: int|
            0 <= i < items.len() && #[trigger] shards[i] == s ==> laid_out(items, shards, n)[s].contains(
                items[i],
            ),
        forall|j: int|
            0 <= j < laid_out(items, shards, n)[s].len() ==> assigned(
                items,
                shards,
                s,
                #[trigger] laid_out(items, shards, n)[s][j],
            ),
{
    lemma_picked(items, shards, s);
}

proof fn lemma_picked<T>(items: Seq<T>, shards: Seq<int>, s: int)
    requires
        items.len() == shards.len(),
    ensures
        forall|i: int|
            0 <= i < items.len() && #[trigger] shards[i] == s ==> picked(items, shards, s).contains(
                items[i],
            ),
        forall|j: int|
            0 <= j < picked(items, shards, s).len() ==> assigned(
                items,
                shards,
                s,
                #[trigger] picked(items, shards, s)[j],
            ),
    decreases items.len(),
{
    if items.len() > 0 {
        let (i0, s0) = (items.drop_last(), shards.drop_last());
        let p0 = picked(i0, s0, s);
        let p = picked(items, shards, s);
        lemma_picked(i0, s0, s);
        assert forall|i: int| 0 <= i < items.len() && #[trigger] shards[i] == s implies p.contains(
            items[i],
        ) by {
            if i < i0.len() {
                assert(s0[i] == s);
                let j = choose|j: int| 0 <= j < p0.len() && p0[j] == i0[i];
                assert(p[j] == items[i]);
            } else {
                assert(p[p0.len() as int] == items[i]);
            }
        }
        assert forall|j: int| 0 <= j < p.len() implies assigned(
            items,
            shards,
            s,
            #[trigger] p[j],
        ) by {
            if j < p0.len() {
                assert(assigned(i0, s0, s, p0[j]));
                let i = choose|i: int|
                    0 <= i < i0.len() && #[trigger] i0[i] == p0[j] && s0[i] == s;
                assert(items[i] == p[j]);
            } else {
                assert(items[items.len() - 1] == p[j]);
            }
        }
    }
}

/// A route sends a key to the shard of its group, the groups going round over the shards, and
/// knows no shard for a key that is in no group.
pub proof fn law_route(route: Route, key: Seq<char>)
    requires
        route.count() > 0,
    ensures
        !route.map().contains_key(key) ==> route.at(key) == -1,
        route.map().contains_key(key) ==> 0 <= route.at(key) < route.count(),
        route.map().contains_key(key) && route.map()[key] < route.count() ==> route.at(key)
            == route.map()[key],
        route.map().contains_key(key) ==> exists|q: int|
            route.map()[key] == #[trigger] (q * route.count()) + route.at(key),
{
    if route.map().contains_key(key) {
        let g = route.map()[key] as int;
        let n = route.count();
        vstd::arithmetic::div_mod::lemma_fundamental_div_mod(g, n);
        vstd::arithmetic::div_mod::lemma_mod_bound(g, n);
        assert(n * (g / n) == (g / n) * n) by (nonlinear_arith);
        assert(g == ((g / n) * n) + route.at(key));
        if g < n {
            lemma_small_mod(g as nat, n as nat);
        }
    }
}

/// A task that gives up its wait on a shard takes no item from it; the wake-up that it may have
/// used up goes on, if it waited there at all.
pub proof fn law_released_shard_keeps_its_items<T, W>(m: ChannelModel<T, W>, slot: Option<usize>)
    ensures
        released(m, slot).pending == m.pending,
        released(m, slot).send_waiters == m.send_waiters,
        (released(m, slot).tx_closed, released(m, slot).rx_closed) == (m.tx_closed, m.rx_closed),
        slot is None ==> released(m, slot) == m,
        slot is Some && live_waiters(m.recv_waiters.task_gone(slot)) > 0 ==> released(
            m,
            slot,
        ).woken.len() == m.woken.len() + 1,
{
    crate::internal_channel::laws::lemma_notified_count(m.recv_waiters.task_gone(slot));
}

/// A task that waits on a shard takes no item from it and stands in its queue with the waker
/// that it gave.
pub proof fn law_waiting_task_stands_in_the_queue<T, W>(
    m: ChannelModel<T, W>,
    slot: Option<usize>,
    waker: W,
    m2: ChannelModel<T, W>,
    slot2: Option<usize>,
)
    requires
        waits_on(m, slot, waker, m2, slot2),
    ensures
        slot2 is Some,
        m2.pending == m.pending,
        m2.send_waiters == m.send_waiters,
        m2.woken == m.woken,
        m2.recv_waiters.blocking == m.recv_waiters.blocking,
        m2.recv_waiters.tasks.queue.contains((slot2->Some_0, Some(waker))),
{
    crate::internal_channel::step_laws::lemma_queued(
        m.recv_waiters,
        slot,
        waker,
        slot2->Some_0,
        m2.recv_waiters,
    );
}

/// A blocking receive from a shard conserves items: a step either ends with the oldest item of
/// the shard and takes exactly that one, or leaves what is pending as it is. An error names the
/// shard.
pub proof fn law_blocking_receive_from_a_shard<T, W>(
    pre: ShardRecvOp,
    m: ChannelModel<T, W>,
    ev: RecvEvent<W>,
    post: ShardRecvOp,
    m2: ChannelModel<T, W>,
    r: ShardRecvStep<T>,
)
    requires
        pre.op().fits(m),
        pre.op().expects(ev),
        post.stepped(&pre, m, ev, m2, r),
    ensures
        post.shard() == pre.shard(),
        r matches ShardRecvStep::Done(Ok(v)) ==> has_item(m) && m.pending[0] == Some(v)
            && m2.pending == m.pending.drop_first(),
        !(r matches ShardRecvStep::Done(Ok(_))) ==> m2.pending == m.pending,
        pre.op().phase() is Attempt && has_item(m) ==> r == ShardRecvStep::Done(
            Ok::<T, super::super::errors::ShardRecvError>(m.pending[0]->Some_0),
        ),
        r matches ShardRecvStep::Done(Err(e)) ==> {
            &&& e.shard == pre.shard()
            &&& e.err is Disconnected ==> m.tx_closed && m.pending.len() == 0
            &&& e.err is TimeOut ==> ev is Expired
        },
        r is Wait ==> !(r->Wait_0 is Done),
{
    let s = choose|s: RecvStep<T>| #[trigger]
        post.op().stepped(&pre.op(), m, ev, m2, s) && r == super::super::recv::of_shard(
            s,
            pre.shard(),
        );
    law_blocking_receive_conserves_items(pre.op(), m, ev, post.op(), m2, s);
    law_blocking_receive_answers(pre.op(), m, ev, post.op(), m2, s);
}

/// The same of a receive from a shard that a task awaits.
pub proof fn law_awaited_receive_from_a_shard<T, W>(
    pre: ShardRecvFuture,
    m: ChannelModel<T, W>,
    waker: W,
    post: ShardRecvFuture,
    m2: ChannelModel<T, W>,
    r: Option<Result<T, ShardAsyncRecvError>>,
)
    requires
        m.recv_waiters.sound(),
        post.polled(&pre, m, waker, m2, r),
    ensures
        post.shard() == pre.shard(),
        r matches Some(Ok(v)) ==> has_item(m) && m.pending[0] == Some(v) && m2.pending
            == m.pending.drop_first(),
        !(r matches Some(Ok(_))) ==> m2.pending == m.pending,
        has_item(m) ==> r matches Some(Ok(_)),
        r matches Some(Err(_)) <==> m.tx_closed && m.pending.len() == 0,
        r matches Some(Err(e)) ==> e.shard == pre.shard(),
{
    let p = choose|p: RecvPoll<T>| #[trigger]
        poll_received(m, pre.recv().slot(), waker, m2, post.recv().slot(), p)
            && super::super::recv::answers(r, p, pre.shard());
    law_poll_of_a_receive(m, pre.recv().slot(), waker, m2, post.recv().slot(), p);
}

/// The shard of each item is that of its key: by its hash, or by the route.
pub proof fn law_items_follow_their_keys(
    keys: Seq<Seq<char>>,
    n: int,
    route: Route,
    at: Seq<Option<usize>>,
    i: int,
)
    requires
        0 <= i < keys.len(),
    ensures
        shards_of_keys(keys, n).len() == keys.len(),
        shards_of_keys(keys, n)[i] == shard_of(keys[i], n),
        shards_of_route(route, keys).len() == keys.len(),
        shards_of_route(route, keys)[i] == route.at(keys[i]),
        i < at.len() && at[i] is Some ==> numbered(at)[i] == at[i]->Some_0,
        i < at.len() && at[i] is None ==> numbered(at)[i] == -1,
{
}

/// A route that was made of groups knows exactly the keys that are in a group.
pub proof fn law_route_knows_its_groups(
    groups: Seq<&[&str]>,
    map: Map<Seq<char>, usize>,
    k: Seq<char>,
)
    requires
        mapped(map, groups, groups.len() as int, 0),
    ensures
        map.contains_key(k) <==> exists|t: int|
            0 <= t < groups.len() && #[trigger] in_group(groups, t, k),
        map.contains_key(k) ==> {
            &&& map[k] < groups.len()
            &&& in_group(groups, map[k] as int, k)
            &&& forall|t: int| map[k] < t < groups.len() ==> !#[trigger] in_group(groups, t, k)
        },
        forall|t: int| #[trigger]
            in_group(groups, t, k) <==> 0 <= t < groups.len() && exists|i: int|
                0 <= i < groups[t]@.len() && (#[trigger] groups[t]@[i])@ == k,
{
    assert(!among(groups, groups.len() as int, 0, k));
    if map.contains_key(k) {
        assert(map[k] != groups.len());
    }
}

/// A budget for each shard gives every shard the same time, and one without end gives none a
/// limit.
pub proof fn law_budgets(d: u64, now: u64, later: u64)
    ensures
        Budget::Each(d).left_at(now) == Some(d),
        Budget::Each(d).left_at(now) == Budget::Each(d).left_at(later),
        Budget::Endless.left_at(now) is None,
{
}

/// What went of a group is what its answer says, also if it was cut short.
pub proof fn law_cut_short_group_counts(
    r: Result<usize, BatchSendError<SendBatchError>>,
)
    ensures
        r is Ok ==> went(r) == r->Ok_0,
        r is Err ==> went(r) == r->Err_0.sent,
{
}

} // verus!
