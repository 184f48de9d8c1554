use super::super::errors::{ShardKeyTryBatchSendError, ShardKeyTrySendError};
use super::batch::{batch_left, batch_models, batch_result, try_send_groups, Budget, ShardBatch};
use super::buf::{join_into, joined, vec_views};
use super::flow::BatchFlow;
use super::hash::{hash_key, hash_shard, shard_of};
use super::lanes::{add_senders, drop_senders, initial_models, lanes_wf, models, new_lanes};
use super::layout::{
    all_keyed, can_key, keyed, laid_out, lay_out, lemma_layout_len, lemma_picked_in, numbered,
};
use super::receiver::ShardReceiver;
use crate::internal_channel::helper::deadline_after;
use crate::internal_channel::inner::SeqInner;
use crate::internal_channel::model::ChannelModel;
use crate::internal_channel::sender::{try_send, try_sent, GenericSendFuture, SendOp, SendPending};
use crate::internal_channel::traits::InnerChannel;
use crate::pow2::{is_pow2, is_pow2_ceil, nearest_power_of_two};
use vstd::prelude::*;

verus! {

/// The right to send to a sharded channel by key: the hash of the key picks the shard, so
/// all items of one key go the same way, in order.
pub struct ShardKey {
    mask: usize,
}

/// The shards of keys.
pub open spec fn shards_of_keys(keys: Seq<Seq<char>>, n: int) -> Seq<int> {
    keys.map_values(|k: Seq<char>| shard_of(k, n))
}

impl ShardKey {
    /// How many shards there are.
    pub closed spec fn count(&self) -> int {
        self.mask + 1
    }

    pub closed spec fn wf(&self) -> bool {
        &&& self.mask < usize::MAX
        &&& is_pow2(self.mask + 1)
    }

    /// The number of shards is a power of two that fits a machine word.
    pub proof fn lemma_wf(&self)
        requires
            self.wf(),
        ensures
            is_pow2(self.count()),
            0 < self.count() <= usize::MAX,
    {
    }

    /// The shard of a key.
    pub fn shard_for(&self, key: &str) -> (s: usize)
        requires
            self.wf(),
        ensures
            s == shard_of(key@, self.count()),
            s < self.count(),
    {
        hash_shard(hash_key(key), self.mask + 1)
    }

    pub fn shards(&self) -> (n: usize)
        requires
            self.wf(),
        ensures
            n == self.count(),
    {
        self.mask + 1
    }

    /// Sends `value` to the shard of `key` without waiting.
    pub fn try_send<T, const CAP: usize, W>(
        &self,
        lanes: &mut Vec<SeqInner<T, CAP, W>>,
        key: &str,
        value: T,
    ) -> (r: Result<(), ShardKeyTrySendError<T>>)
        requires
            self.wf(),
            lanes_wf(old(lanes)@, self.count()),
        ensures
            lanes_wf(final(lanes)@, self.count()),
            ({
                let s = shard_of(key@, self.count());
                let (m, a) = try_sent(models(old(lanes)@)[s], CAP as int, value);
                &&& models(final(lanes)@) == models(old(lanes)@).update(s, m)
                &&& match r {
                    Ok(()) => a is Ok,
                    Err(e) => a == Err::<(), _>(e.err) && e.key@ == key@ && e.shard == s,
                }
            }),
    {
        let shard: usize = self.shard_for(key);
        let ghost pre = lanes@;
        let r = try_send(&mut lanes[shard], value);
        assert(models(lanes@) =~= models(pre).update(shard as int, lanes@[shard as int].model()));
        match r {
            Ok(()) => Ok(()),
            Err(err) => Err(ShardKeyTrySendError { key: key.to_owned(), shard, err }),
        }
    }

    /// A send to the shard of `key` that waits for room, and that shard.
    pub fn send<T>(&self, key: &str, value: T) -> (r: (usize, SendOp<T>))
        requires
            self.wf(),
        ensures
            r.0 == shard_of(key@, self.count()),
            r.0 < self.count(),
            r.1.value() == Some(value),
            r.1.phase() is Begin,
            !r.1.timed(),
    {
        (self.shard_for(key), SendOp::new(value))
    }

    /// A send to the shard of `key` for a task to await, and that shard.
    pub fn send_async<T>(&self, key: &str, value: T) -> (r: (usize, GenericSendFuture<T>))
        requires
            self.wf(),
        ensures
            r.0 == shard_of(key@, self.count()),
            r.0 < self.count(),
            r.1.value() == Some(value),
            r.1.slot() is None,
    {
        (self.shard_for(key), GenericSendFuture::new(value))
    }

    /// A send to the shard of `key` for a task to await, whose item stays with the caller;
    /// and that shard. A retry goes to the same shard.
    pub fn send_ref_async(&self, key: &str) -> (r: (usize, SendPending))
        requires
            self.wf(),
        ensures
            r.0 == shard_of(key@, self.count()),
            r.0 < self.count(),
            r.1.slot() is None,
    {
        (self.shard_for(key), SendPending::new())
    }

    /// Lays `buf` out by shard. Every key is read before the first item moves.
    pub fn group_by_shard<T, F: for<'k> Fn(&'k T) -> &'k str>(
        &self,
        buf: &mut Vec<T>,
        key_fn: &F,
    ) -> (groups: Vec<Vec<T>>)
        requires
            self.wf(),
            can_key(*key_fn, old(buf)@),
        ensures
            final(buf)@.len() == 0,
            groups@.len() == self.count(),
            exists|keys: Seq<Seq<char>>| #[trigger]
                all_keyed(*key_fn, old(buf)@, keys) && vec_views(groups@) == laid_out(
                    old(buf)@,
                    shards_of_keys(keys, self.count()),
                    self.count(),
                ),
    {
        let n: usize = self.mask + 1;
        let mut at: Vec<Option<usize>> = Vec::with_capacity(buf.len());
        let ghost mut keys: Seq<Seq<char>> = Seq::empty();
        let mut i: usize = 0;
        assert(numbered(at@) =~= shards_of_keys(keys, n as int));
        while i < buf.len()
            invariant
                self.wf(),
                n == self.count(),
                can_key(*key_fn, buf@),
                i <= buf@.len(),
                at@.len() == i,
                forall|j: int|
                    0 <= j < i ==> ((#[trigger] at@[j]) is Some ==> at@[j]->Some_0 < n),
                numbered(at@) == shards_of_keys(keys, n as int),
                keys.len() == i,
                forall|j: int| 0 <= j < i ==> keyed(*key_fn, #[trigger] buf@[j], keys[j]),
            decreases buf@.len() - i,
        {
            let key = key_fn(&buf[i]);
            let shard = Some(self.shard_for(key));
            proof {
                let k = key@;
                assert(keyed(*key_fn, buf@[i as int], k));
                assert(numbered(at@.push(shard)) =~= numbered(at@).push(shard_of(k, n as int)));
                assert(shards_of_keys(keys.push(k), n as int) =~= numbered(
                    at@,
                ).push(shard_of(k, n as int)));
                keys = keys.push(k);
            }
            at.push(shard);
            i = i + 1;
        }
        assert(all_keyed(*key_fn, buf@, keys));
        let (groups, _) = lay_out(buf, &at, n);
        assert(vec_views(groups@).len() == n);
        groups
    }

    /// Sends the items of `buf` to the shards of their keys without waiting. Every shard is
    /// tried; what did not fit stays in `buf`, by shard and in order. An error names the
    /// first shard that fell short, with the key of its first unsent item.
    pub fn try_send_batch<T, const CAP: usize, W, F: for<'k> Fn(&'k T) -> &'k str>(
        &self,
        lanes: &mut Vec<SeqInner<T, CAP, W>>,
        buf: &mut Vec<T>,
        key_fn: F,
    ) -> (r: Result<usize, ShardKeyTryBatchSendError>)
        requires
            self.wf(),
            lanes_wf(old(lanes)@, self.count()),
            can_key(key_fn, old(buf)@),
        ensures
            lanes_wf(final(lanes)@, self.count()),
            exists|keys: Seq<Seq<char>>| #[trigger]
                all_keyed(key_fn, old(buf)@, keys) && ({
                    let n = self.count();
                    let gs = laid_out(old(buf)@, shards_of_keys(keys, n), n);
                    let ms = models(old(lanes)@);
                    &&& models(final(lanes)@) == batch_models(gs, ms, CAP as int)
                    &&& final(buf)@ == joined(batch_left(gs, ms, CAP as int))
                    &&& batch_result(key_fn, gs, ms, CAP as int, r)
                }),
    {
        let ghost all = buf@;
        let ghost most: nat = buf.len() as nat;
        let ghost n = self.count();
        let ghost pre = lanes@;
        let mut groups = self.group_by_shard(buf, &key_fn);
        let ghost keys = choose|keys: Seq<Seq<char>>| #[trigger]
            all_keyed(key_fn, all, keys) && vec_views(groups@) == laid_out(
                all,
                shards_of_keys(keys, n),
                n,
            );
        let ghost gs = vec_views(groups@);
        proof {
            lemma_layout_len(all, shards_of_keys(keys, n), n);
            assert(joined(gs).len() <= most);
        }
        let (total, short) = try_send_groups(lanes, &mut groups, Ghost(most));
        let r = match short {
            None => Ok(total),
            Some((shard, reason)) => {
                proof {
                    let left = batch_left(gs, models(pre), CAP as int)[shard as int];
                    assert(groups@[shard as int]@ == left);
                    lemma_picked_in(all, shards_of_keys(keys, n), shard as int);
                    assert(left[0] == gs[shard as int][gs[shard as int].len() - left.len()]);
                    assert(all.contains(left[0]));
                }
                let key = key_fn(&groups[shard][0]).to_owned();
                Err(ShardKeyTryBatchSendError { key, shard, sent: total, reason })
            },
        };
        join_into(buf, groups);
        proof {
            assert(buf@ =~= joined(batch_left(gs, models(pre), CAP as int)));
        }
        r
    }

    /// Lays `buf` out by shard, to be sent shard by shard with waiting as long as it takes.
    pub fn send_batch<T, F: for<'k> Fn(&'k T) -> &'k str>(
        &self,
        buf: &mut Vec<T>,
        key_fn: &F,
    ) -> (b: ShardBatch<T>)
        requires
            self.wf(),
            can_key(*key_fn, old(buf)@),
        ensures
            final(buf)@.len() == 0,
            b.wf(),
            b.sent() == 0,
            b.next() == 0,
            b.budget() is Endless,
            b.unused().len() == 0,
            exists|keys: Seq<Seq<char>>| #[trigger]
                all_keyed(*key_fn, old(buf)@, keys) && b.groups() == laid_out(
                    old(buf)@,
                    shards_of_keys(keys, self.count()),
                    self.count(),
                ),
    {
        let groups = self.group_by_shard(buf, key_fn);
        ShardBatch::new(groups, Vec::new(), Budget::Endless)
    }

    /// Lays `buf` out by shard, to be sent shard by shard with waiting. It is `now`;
    /// `d` from now, or at the farthest point in time, the wait ends for all shards together.
    pub fn send_batch_timeout<T, F: for<'k> Fn(&'k T) -> &'k str>(
        &self,
        buf: &mut Vec<T>,
        key_fn: &F,
        now: u64,
        d: u64,
    ) -> (b: ShardBatch<T>)
        requires
            self.wf(),
            can_key(*key_fn, old(buf)@),
        ensures
            final(buf)@.len() == 0,
            b.wf(),
            b.sent() == 0,
            b.next() == 0,
            b.budget() == Budget::Until(
                if now + d <= u64::MAX {
                    (now + d) as u64
                } else {
                    u64::MAX
                },
            ),
            b.unused().len() == 0,
            exists|keys: Seq<Seq<char>>| #[trigger]
                all_keyed(*key_fn, old(buf)@, keys) && b.groups() == laid_out(
                    old(buf)@,
                    shards_of_keys(keys, self.count()),
                    self.count(),
                ),
    {
        let groups = self.group_by_shard(buf, key_fn);
        ShardBatch::new(groups, Vec::new(), Budget::Until(deadline_after(now, d)))
    }

    /// Lays `buf` out by shard, to be sent shard by shard by a task.
    pub fn send_batch_async<T, F: for<'k> Fn(&'k T) -> &'k str>(
        &self,
        buf: &mut Vec<T>,
        key_fn: &F,
    ) -> (f: BatchFlow<T>)
        requires
            self.wf(),
            can_key(*key_fn, old(buf)@),
        ensures
            final(buf)@.len() == 0,
            f@.sound(),
            f@.groups.pending is None,
            f@.shard == 0,
            f@.sent == 0,
            f@.slot is None,
            f@.groups.unused.len() == 0,
            exists|keys: Seq<Seq<char>>| #[trigger]
                all_keyed(*key_fn, old(buf)@, keys) && f@.groups.groups == laid_out(
                    old(buf)@,
                    shards_of_keys(keys, self.count()),
                    self.count(),
                ),
    {
        let ghost all = buf@;
        let ghost n = self.count();
        let most: usize = buf.len();
        let groups = self.group_by_shard(buf, key_fn);
        proof {
            let keys = choose|keys: Seq<Seq<char>>| #[trigger]
                all_keyed(*key_fn, all, keys) && vec_views(groups@) == laid_out(
                    all,
                    shards_of_keys(keys, n),
                    n,
                );
            lemma_layout_len(all, shards_of_keys(keys, n), n);
            assert(joined(vec_views(groups@)).len() <= most);
        }
        BatchFlow::new(groups, Vec::new())
    }

    /// One more sender, with the same routing.
    pub fn clone<T, const CAP: usize, W>(&self, lanes: &mut Vec<SeqInner<T, CAP, W>>) -> (s: Self)
        requires
            self.wf(),
            lanes_wf(old(lanes)@, self.count()),
        ensures
            s.wf(),
            s.count() == self.count(),
            lanes_wf(final(lanes)@, self.count()),
            models(final(lanes)@) == models(old(lanes)@).map_values(
                |m: ChannelModel<T, W>| m.senders_changed(true, 1),
            ),
    {
        add_senders(lanes);
        ShardKey { mask: self.mask }
    }

    /// Gives the right up on every shard.
    pub fn close<T, const CAP: usize, W>(self, lanes: &mut Vec<SeqInner<T, CAP, W>>)
        requires
            self.wf(),
            lanes_wf(old(lanes)@, self.count()),
        ensures
            lanes_wf(final(lanes)@, self.count()),
            models(final(lanes)@) == models(old(lanes)@).map_values(
                |m: ChannelModel<T, W>| m.sender_gone(true),
            ),
    {
        drop_senders(lanes);
    }
}

/// A sharded channel routed by key: its first sender, its first receiver and its shards.
/// The number of shards is rounded up to a power of two.
pub fn shard_key<T, const CAP: usize, W>(num_shards: usize) -> (r: (
    ShardKey,
    ShardReceiver<T, CAP, W>,
    Vec<SeqInner<T, CAP, W>>,
))
    requires
        is_pow2(CAP as int),
        num_shards <= usize::MAX / 2 + 1,
    ensures
        r.0.wf(),
        r.1.wf(),
        is_pow2_ceil(num_shards as int, r.0.count()),
        r.1.count() == r.0.count(),
        r.1.cursor() == 0,
        lanes_wf(r.2@, r.0.count()),
        models(r.2@) == initial_models::<T, W>(r.0.count()),
{
    let n: usize = nearest_power_of_two(num_shards);
    (ShardKey { mask: n - 1 }, ShardReceiver::new(n), new_lanes(n))
}

} // verus!
