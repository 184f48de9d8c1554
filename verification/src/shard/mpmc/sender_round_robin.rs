use super::super::errors::{ShardTryBatchSendError, ShardTrySendError};
use super::buf::RestoreOne;
use super::lanes::{add_senders, drop_senders, initial_models, lanes_wf, models, new_lanes};
use super::receiver::ShardReceiver;
use crate::internal_channel::inner::SeqInner;
use crate::internal_channel::model::ChannelModel;
use crate::internal_channel::sender::{
    batch_began, try_send, try_send_batch, try_sent, BatchStart, GenericSendFuture, SendBatchOp,
    SendOp,
};
use crate::internal_channel::traits::InnerChannel;
use crate::pow2::{
    is_pow2, is_pow2_ceil, lemma_mask_is_mod, lemma_pow2_divides_word, nearest_power_of_two, word,
};
use crate::ring::{lemma_next, next_pos, pos_after};
use vstd::arithmetic::div_mod::{
    lemma_fundamental_div_mod, lemma_mod_mod, lemma_small_mod,
};
use vstd::prelude::*;

verus! {

/// The right to send to a sharded channel without a key: each send goes to the next shard.
pub struct ShardRoundRobin {
    cursor: usize,
    mask: usize,
}

impl ShardRoundRobin {
    /// How many shards there are.
    pub closed spec fn count(&self) -> int {
        self.mask + 1
    }

    /// How many turns have been taken, up to the machine word.
    pub closed spec fn cursor(&self) -> usize {
        self.cursor
    }

    /// The shard whose turn it is.
    pub open spec fn turn(&self) -> int {
        self.cursor() as int % self.count()
    }

    pub closed spec fn wf(&self) -> bool {
        &&& self.mask < usize::MAX
        &&& is_pow2(self.mask + 1)
    }

    pub proof fn lemma_wf(&self)
        requires
            self.wf(),
        ensures
            is_pow2(self.count()),
            0 < self.count() <= usize::MAX,
            0 <= self.turn() < self.count(),
    {
    }

    /// Takes the next turn.
    pub fn next_shard(&mut self) -> (s: usize)
        requires
            old(self).wf(),
        ensures
            final(self).wf(),
            final(self).count() == old(self).count(),
            final(self).cursor() == next_pos(old(self).cursor()),
            s == old(self).turn(),
            s < old(self).count(),
    {
        let c: usize = self.cursor;
        proof {
            lemma_mask_is_mod(c, (self.mask + 1) as usize);
            lemma_next(c);
        }
        self.cursor = c.wrapping_add(1);
        c & self.mask
    }

    pub fn shards(&self) -> (n: usize)
        requires
            self.wf(),
        ensures
            n == self.count(),
    {
        self.mask + 1
    }

    /// Sends `value` to the next shard without waiting.
    pub fn try_send<T, const CAP: usize, W>(
        &mut self,
        lanes: &mut Vec<SeqInner<T, CAP, W>>,
        value: T,
    ) -> (r: Result<(), ShardTrySendError<T>>)
        requires
            old(self).wf(),
            lanes_wf(old(lanes)@, old(self).count()),
        ensures
            final(self).wf(),
            final(self).count() == old(self).count(),
            final(self).cursor() == next_pos(old(self).cursor()),
            lanes_wf(final(lanes)@, old(self).count()),
            ({
                let s = old(self).turn();
                let (m, a) = try_sent(models(old(lanes)@)[s], CAP as int, value);
                &&& models(final(lanes)@) == models(old(lanes)@).update(s, m)
                &&& match r {
                    Ok(()) => a is Ok,
                    Err(e) => a == Err::<(), _>(e.err) && e.shard == s,
                }
            }),
    {
        let shard: usize = self.next_shard();
        let ghost pre = lanes@;
        let r = try_send(&mut lanes[shard], value);
        assert(models(lanes@) =~= models(pre).update(shard as int, lanes@[shard as int].model()));
        match r {
            Ok(()) => Ok(()),
            Err(err) => Err(ShardTrySendError { shard, err }),
        }
    }

    /// A send to the next shard that waits for room, and that shard.
    pub fn send<T>(&mut self, value: T) -> (r: (usize, SendOp<T>))
        requires
            old(self).wf(),
        ensures
            final(self).wf(),
            final(self).count() == old(self).count(),
            final(self).cursor() == next_pos(old(self).cursor()),
            r.0 == old(self).turn(),
            r.1.value() == Some(value),
            r.1.phase() is Begin,
            !r.1.timed(),
    {
        (self.next_shard(), SendOp::new(value))
    }

    /// A send to the next shard that waits for room until a deadline, and that shard.
    pub fn send_timeout<T>(&mut self, value: T) -> (r: (usize, SendOp<T>))
        requires
            old(self).wf(),
        ensures
            final(self).wf(),
            final(self).count() == old(self).count(),
            final(self).cursor() == next_pos(old(self).cursor()),
            r.0 == old(self).turn(),
            r.1.value() == Some(value),
            r.1.phase() is Attempt,
            r.1.timed(),
    {
        (self.next_shard(), SendOp::with_deadline(value))
    }

    /// A send to the next shard for a task to await, and that shard.
    pub fn send_async<T>(&mut self, value: T) -> (r: (usize, GenericSendFuture<T>))
        requires
            old(self).wf(),
        ensures
            final(self).wf(),
            final(self).count() == old(self).count(),
            final(self).cursor() == next_pos(old(self).cursor()),
            r.0 == old(self).turn(),
            r.1.value() == Some(value),
            r.1.slot() is None,
    {
        (self.next_shard(), GenericSendFuture::new(value))
    }

    /// Sends a batch to the next shard without waiting; what did not fit stays in `buf`.
    pub fn try_send_batch<T, const CAP: usize, W>(
        &mut self,
        lanes: &mut Vec<SeqInner<T, CAP, W>>,
        buf: &mut Vec<T>,
    ) -> (r: Result<usize, ShardTryBatchSendError>)
        requires
            old(self).wf(),
            lanes_wf(old(lanes)@, old(self).count()),
        ensures
            final(self).wf(),
            final(self).count() == old(self).count(),
            final(self).cursor() == next_pos(old(self).cursor()),
            lanes_wf(final(lanes)@, old(self).count()),
            ({
                let s = old(self).turn();
                let m = models(old(lanes)@)[s];
                let n = m.room(CAP as int, old(buf)@.len() as int);
                &&& models(final(lanes)@) == models(old(lanes)@).update(
                    s,
                    m.pushed_all(old(buf)@.subrange(0, n)).receivers_notified(n as nat),
                )
                &&& final(buf)@ == old(buf)@.subrange(n, old(buf)@.len() as int)
                &&& match r {
                    Ok(k) => k == n && n == old(buf)@.len() && !m.rx_closed,
                    Err(e) => {
                        &&& e.shard == s
                        &&& e.sent == n
                        &&& e.reason == super::batch::short_reason(m)
                        &&& m.rx_closed || n < old(buf)@.len()
                    },
                }
            }),
            r is Ok ==> final(buf)@.len() == 0,
            r is Err && r->Err_0.reason is Full ==> final(buf)@.len() > 0 && models(
                final(lanes)@,
            )[r->Err_0.shard as int].pending.len() >= CAP,
    {
        let shard: usize = self.next_shard();
        let ghost pre = lanes@;
        let r = try_send_batch(&mut lanes[shard], buf);
        assert(models(lanes@) =~= models(pre).update(shard as int, lanes@[shard as int].model()));
        match r {
            Ok(n) => Ok(n),
            Err(e) => Err(ShardTryBatchSendError { shard, sent: e.sent, reason: e.err }),
        }
    }

    /// Sets out to send a batch to the next shard with waiting, until a deadline if
    /// `timed`; and that shard.
    pub fn send_batch<T, const CAP: usize, W>(
        &mut self,
        lanes: &mut Vec<SeqInner<T, CAP, W>>,
        buf: &mut Vec<T>,
        timed: bool,
    ) -> (r: (usize, BatchStart<T>))
        requires
            old(self).wf(),
            lanes_wf(old(lanes)@, old(self).count()),
        ensures
            final(self).wf(),
            final(self).count() == old(self).count(),
            final(self).cursor() == next_pos(old(self).cursor()),
            lanes_wf(final(lanes)@, old(self).count()),
            r.0 == old(self).turn(),
            models(final(lanes)@) == models(old(lanes)@).update(
                r.0 as int,
                models(final(lanes)@)[r.0 as int],
            ),
            batch_began(
                models(old(lanes)@)[r.0 as int],
                CAP as int,
                old(buf)@,
                timed,
                models(final(lanes)@)[r.0 as int],
                final(buf)@,
                r.1,
            ),
    {
        let shard: usize = self.next_shard();
        let ghost pre = lanes@;
        let r = SendBatchOp::begin(&mut lanes[shard], buf, timed);
        assert(models(lanes@) =~= models(pre).update(shard as int, lanes@[shard as int].model()));
        (shard, r)
    }

    /// One round of a batch that a task sends: the batch goes to the next shard as far as
    /// there is room. If items are left, the last of them is set on its way to the shard
    /// after that, for the task to await. Says how many items went.
    pub fn send_batch_round<T, const CAP: usize, W>(
        &mut self,
        lanes: &mut Vec<SeqInner<T, CAP, W>>,
        buf: &mut Vec<T>,
    ) -> (r: (usize, Option<(usize, RestoreOne<T>)>))
        requires
            old(self).wf(),
            lanes_wf(old(lanes)@, old(self).count()),
        ensures
            final(self).wf(),
            final(self).count() == old(self).count(),
            lanes_wf(final(lanes)@, old(self).count()),
            ({
                let s = old(self).turn();
                let m = models(old(lanes)@)[s];
                let n = m.room(CAP as int, old(buf)@.len() as int);
                let rest = old(buf)@.subrange(n, old(buf)@.len() as int);
                let next = next_pos(old(self).cursor());
                &&& models(final(lanes)@) == models(old(lanes)@).update(
                    s,
                    m.pushed_all(old(buf)@.subrange(0, n)).receivers_notified(n as nat),
                )
                &&& r.0 == n
                &&& if rest.len() == 0 {
                    r.1 is None && final(buf)@ == rest && final(self).cursor() == next
                } else {
                    &&& r.1 is Some
                    &&& r.1->Some_0.0 == next as int % old(self).count()
                    &&& r.1->Some_0.1.pending() == Some(rest.last())
                    &&& !r.1->Some_0.1.front()
                    &&& final(buf)@ == rest.drop_last()
                    &&& final(self).cursor() == next_pos(next)
                }
            }),
            r.1 is Some ==> models(old(lanes)@)[old(self).turn()].rx_closed || models(
                final(lanes)@,
            )[old(self).turn()].pending.len() >= CAP,
            r.1 is None ==> r.0 == old(buf)@.len() && final(buf)@.len() == 0,
            r.1 is Some ==> r.0 + 1 + final(buf)@.len() == old(buf)@.len(),
    {
        let n: usize = match self.try_send_batch(lanes, buf) {
            Ok(n) => n,
            Err(e) => e.sent,
        };
        match buf.pop() {
            None => (n, None),
            Some(v) => {
                let shard: usize = self.next_shard();
                (n, Some((shard, RestoreOne::back(v))))
            },
        }
    }

    /// One more sender, with a cursor of its own that starts from 0.
    pub fn clone<T, const CAP: usize, W>(&self, lanes: &mut Vec<SeqInner<T, CAP, W>>) -> (s: Self)
        requires
            self.wf(),
            lanes_wf(old(lanes)@, self.count()),
        ensures
            s.wf(),
            s.count() == self.count(),
            s.cursor() == 0,
            lanes_wf(final(lanes)@, self.count()),
            models(final(lanes)@) == models(old(lanes)@).map_values(
                |m: ChannelModel<T, W>| m.senders_changed(true, 1),
            ),
    {
        add_senders(lanes);
        ShardRoundRobin { cursor: 0, mask: self.mask }
    }

    /// Gives the right up on every shard.
    pub fn close<T, const CAP: usize, W>(self, lanes: &mut Vec<SeqInner<T, CAP, W>>)
        requires
            self.wf(),
            lanes_wf(old(lanes)@, self.count()),
        ensures
            lanes_wf(final(lanes)@, self.count()),
            models(final(lanes)@) == models(old(lanes)@).map_values(
                |m: ChannelModel<T, W>| m.sender_gone(true),
            ),
    {
        drop_senders(lanes);
    }
}

/// A sharded channel without keys: its first sender, its first receiver and its shards.
/// The number of shards is rounded up to a power of two.
pub fn round_robin<T, const CAP: usize, W>(num_shards: usize) -> (r: (
    ShardRoundRobin,
    ShardReceiver<T, CAP, W>,
    Vec<SeqInner<T, CAP, W>>,
))
    requires
        is_pow2(CAP as int),
        num_shards <= usize::MAX / 2 + 1,
    ensures
        r.0.wf(),
        r.1.wf(),
        is_pow2_ceil(num_shards as int, r.0.count()),
        r.0.cursor() == 0,
        r.1.count() == r.0.count(),
        r.1.cursor() == 0,
        lanes_wf(r.2@, r.0.count()),
        models(r.2@) == initial_models::<T, W>(r.0.count()),
{
    let n: usize = nearest_power_of_two(num_shards);
    (ShardRoundRobin { cursor: 0, mask: n - 1 }, ShardReceiver::new(n), new_lanes(n))
}

/// Turns go round: `k` turns after cursor `c` comes the shard `k` places on, also where the
/// cursor wraps. So any `n` turns in a row reach each of `n` shards once.
pub proof fn law_turns_go_round(c: usize, n: int, k: int)
    requires
        is_pow2(n),
        n <= usize::MAX,
        0 <= k,
    ensures
        n > 0,
        pos_after(c, k) as int % n == (c + k) % n,
        forall|j: int|
            0 <= j < n && 0 <= k < n && j != k ==> #[trigger] pos_after(c, j) as int % n != pos_after(
                c,
                k,
            ) as int % n,
{
    lemma_pow2_divides_word(n);
    lemma_fundamental_div_mod(word(), n);
    lemma_turn(c, n, k);
    assert forall|j: int| 0 <= j < n && 0 <= k < n && j != k implies #[trigger] pos_after(c, j) as int
        % n != pos_after(c, k) as int % n by {
        lemma_turn(c, n, j);
        if j < k {
            lemma_apart(c as int, j, k, n);
        } else {
            lemma_apart(c as int, k, j, n);
        }
    }
}

proof fn lemma_turn(c: usize, n: int, k: int)
    requires
        n > 0,
        word() == n * (word() / n) + word() % n,
        word() % n == 0,
    ensures
        pos_after(c, k) as int % n == (c + k) % n,
{
    vstd::arithmetic::div_mod::lemma_mod_bound(c + k, word());
    lemma_mod_mod(c + k, n, word() / n);
}

proof fn lemma_apart(c: int, j: int, k: int, n: int)
    requires
        0 <= j < k < n,
    ensures
        (c + j) % n != (c + k) % n,
{
    if (c + j) % n == (c + k) % n {
        vstd::arithmetic::div_mod::lemma_mod_equivalence(c + k, c + j, n);
        lemma_small_mod((k - j) as nat, n as nat);
        assert((c + k) - (c + j) == k - j);
    }
}

/// After each turn it is the turn of the next shard, and after the last one that of the first,
/// also where the cursor wraps.
pub proof fn law_next_turn(pre: ShardRoundRobin, post: ShardRoundRobin)
    requires
        pre.wf(),
        post.count() == pre.count(),
        post.cursor() == next_pos(pre.cursor()),
    ensures
        0 <= pre.turn() < pre.count(),
        post.turn() == if pre.turn() + 1 == pre.count() {
            0
        } else {
            pre.turn() + 1
        },
{
    pre.lemma_wf();
    let n = pre.count();
    let c = pre.cursor() as int;
    law_turns_go_round(pre.cursor(), n, 1);
    crate::ring::lemma_pos_after(pre.cursor(), 1);
    vstd::arithmetic::div_mod::lemma_add_mod_noop(c, 1, n);
    if n > 1 {
        lemma_small_mod(1, n as nat);
        if pre.turn() + 1 < n {
            lemma_small_mod((pre.turn() + 1) as nat, n as nat);
        } else {
            vstd::arithmetic::div_mod::lemma_mod_self_0(n);
        }
    } else {
        lemma_small_mod(0, n as nat);
    }
}

} // verus!
