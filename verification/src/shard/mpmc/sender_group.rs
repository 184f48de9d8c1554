use super::super::errors::{ShardKeyTryBatchSendError, ShardTrySendError};
use super::batch::{
    batch_left, batch_models, batch_sent, batch_taken, first_short, is_short, lemma_batch,
    short_reason, Budget, ShardBatch,
};
use super::buf::{join_into, joined, vec_views};
use super::flow::BatchFlow;
use super::hash::hash_shard;
use super::lanes::{add_senders, drop_senders, initial_models, lanes_wf, models, new_lanes};
use super::layout::{
    all_keyed, can_key, keyed, laid_out, lay_out, lemma_layout_len, lemma_picked_in, numbered,
    picked,
};
use super::receiver::ShardReceiver;
use crate::internal_channel::errors::TrySendBatchError;
use crate::internal_channel::inner::SeqInner;
use crate::internal_channel::model::ChannelModel;
use crate::internal_channel::sender::{
    try_send, try_send_batch, try_sent, GenericSendFuture, SendOp,
};
use crate::internal_channel::traits::InnerChannel;
use crate::pow2::{is_pow2, is_pow2_ceil, nearest_power_of_two};
use crate::ring::written;
use std::sync::Arc;
use vstd::hash_map::StringHashMap;
use vstd::prelude::*;

verus! {

/// Which group each key belongs to.
pub struct RouteMap {
    entries: StringHashMap<usize>,
}

impl RouteMap {
    pub closed spec fn view(&self) -> Map<Seq<char>, usize> {
        self.entries@
    }

    pub fn new() -> (m: Self)
        ensures
            m@ == Map::<Seq<char>, usize>::empty(),
    {
        RouteMap { entries: StringHashMap::new() }
    }

    /// Puts `key` into `group`; a key belongs to the group it was put into last.
    pub fn insert(&mut self, key: String, group: usize)
        ensures
            final(self)@ == old(self)@.insert(key@, group),
    {
        self.entries.insert(key, group);
    }

    pub fn get(&self, key: &str) -> (r: Option<usize>)
        ensures
            r == if self@.contains_key(key@) {
                Some(self@[key@])
            } else {
                None
            },
    {
        match self.entries.get(key) {
            Some(g) => Some(*g),
            None => None,
        }
    }

    /// How many keys there are.
    pub fn len(&self) -> (n: usize)
        ensures
            n == self@.len(),
    {
        self.entries.len()
    }
}

/// The groups of a [`RouteMap`], spread over a number of shards.
pub struct Route {
    map: RouteMap,
    shards: usize,
}

impl Route {
    pub closed spec fn map(&self) -> Map<Seq<char>, usize> {
        self.map@
    }

    pub closed spec fn count(&self) -> int {
        self.shards as int
    }

    /// The shard of a key, or -1 for a key that has none.
    pub open spec fn at(&self, key: Seq<char>) -> int {
        if self.map().contains_key(key) {
            self.map()[key] as int % self.count()
        } else {
            -1
        }
    }

    pub fn new(map: RouteMap, shards: usize) -> (r: Self)
        requires
            shards > 0,
        ensures
            r.map() == map@,
            r.count() == shards,
    {
        Route { map, shards }
    }

    /// The shard of a key, if it has one.
    pub fn shard_for(&self, key: &str) -> (r: Option<usize>)
        requires
            self.count() > 0,
        ensures
            r is Some <==> self.map().contains_key(key@),
            r is Some ==> r->Some_0 == self.at(key@) && r->Some_0 < self.count(),
            r is None ==> self.at(key@) == -1,
    {
        match self.map.get(key) {
            Some(g) => Some(g % self.shards),
            None => None,
        }
    }

    /// How many keys there are.
    pub fn keys_count(&self) -> (n: usize)
        ensures
            n == self.map().len(),
    {
        self.map.len()
    }
}

/// A key that has been looked up: sending with it takes no further look-up.
#[derive(Clone, Copy, Debug, PartialEq, Eq, Structural)]
pub struct SymbolHandle {
    shard: usize,
}

impl SymbolHandle {
    pub closed spec fn at(&self) -> usize {
        self.shard
    }

    pub fn shard(&self) -> (s: usize)
        ensures
            s == self.at(),
    {
        self.shard
    }
}

/// Looks keys up in a route, apart from the sender.
pub struct ShardHandle {
    route: Arc<Route>,
}

impl ShardHandle {
    pub closed spec fn route(&self) -> Route {
        *self.route
    }

    pub fn new(route: Arc<Route>) -> (h: Self)
        ensures
            h.route() == *route,
    {
        ShardHandle { route }
    }

    /// The handle of a key, if it has a shard.
    pub fn handle(&self, symbol: &str) -> (r: Option<SymbolHandle>)
        requires
            self.route().count() > 0,
        ensures
            r is Some <==> self.route().map().contains_key(symbol@),
            r is Some ==> r->Some_0.at() == self.route().at(symbol@),
    {
        match self.route.shard_for(symbol) {
            Some(shard) => Some(SymbolHandle { shard }),
            None => None,
        }
    }
}

/// Key `k` is among the first `j` keys of group `s`.
pub open spec fn among(groups: Seq<&[&str]>, s: int, j: int, k: Seq<char>) -> bool {
    exists|i: int| 0 <= i < j && (#[trigger] groups[s]@[i])@ == k
}

/// Key `k` is in group `s`.
pub open spec fn in_group(groups: Seq<&[&str]>, s: int, k: Seq<char>) -> bool {
    0 <= s < groups.len() && among(groups, s, groups[s]@.len() as int, k)
}

/// `map` has the keys of the first `s` groups and of the first `j` keys of the next one,
/// each with the last group that it is in.
pub open spec fn mapped(map: Map<Seq<char>, usize>, groups: Seq<&[&str]>, s: int, j: int) -> bool {
    forall|k: Seq<char>|
        {
            &&& #[trigger] map.contains_key(k) <==> {
                ||| exists|t: int| 0 <= t < s && #[trigger] in_group(groups, t, k)
                ||| among(groups, s, j, k)
            }
            &&& map.contains_key(k) ==> {
                &&& map[k] <= s
                &&& map[k] == s ==> among(groups, s, j, k)
                &&& map[k] < s ==> in_group(groups, map[k] as int, k) && !among(groups, s, j, k)
                &&& forall|t: int| map[k] < t < s ==> !#[trigger] in_group(groups, t, k)
            }
        }
}

/// The keys of `groups`, each with the last group that it is in.
fn route_of(groups: &[&[&str]]) -> (m: RouteMap)
    ensures
        mapped(m@, groups@, groups@.len() as int, 0),
{
    let mut m = RouteMap::new();
    let mut s: usize = 0;
    while s < groups.len()
        invariant
            s <= groups@.len(),
            mapped(m@, groups@, s as int, 0),
        decreases groups@.len() - s,
    {
        let mut j: usize = 0;
        while j < groups[s].len()
            invariant
                s < groups@.len(),
                j <= groups@[s as int]@.len(),
                mapped(m@, groups@, s as int, j as int),
            decreases groups@[s as int]@.len() - j,
        {
            let ghost pre = m@;
            let ghost g = groups@;
            m.insert(groups[s][j].to_owned(), s);
            proof {
                let new = g[s as int]@[j as int]@;
                assert forall|k: Seq<char>| #![trigger m@.contains_key(k)] among(
                    g,
                    s as int,
                    j + 1,
                    k,
                ) <==> (among(g, s as int, j as int, k) || k == new) by {
                    if k == new {
                        assert(g[s as int]@[j as int]@ == k);
                    }
                    if among(g, s as int, j as int, k) {
                        let i = choose|i: int|
                            0 <= i < j && (#[trigger] g[s as int]@[i])@ == k;
                        assert(0 <= i < j + 1 && g[s as int]@[i]@ == k);
                    }
                }
                assert forall|k: Seq<char>|
                    {
                        &&& #[trigger] m@.contains_key(k) <==> {
                            ||| exists|t: int| 0 <= t < s && #[trigger] in_group(g, t, k)
                            ||| among(g, s as int, j + 1, k)
                        }
                        &&& m@.contains_key(k) ==> {
                            &&& m@[k] <= s
                            &&& m@[k] == s ==> among(g, s as int, j + 1, k)
                            &&& m@[k] < s ==> in_group(g, m@[k] as int, k) && !among(
                                g,
                                s as int,
                                j + 1,
                                k,
                            )
                            &&& forall|t: int|
                                m@[k] < t < s ==> !#[trigger] in_group(g, t, k)
                        }
                    } by {
                    assert(pre.contains_key(k) || !pre.contains_key(k));
                    assert(among(g, s as int, j + 1, k) <==> (among(g, s as int, j as int, k)
                        || k == new));
                }
            }
            j = j + 1;
        }
        proof {
            let g = groups@;
            let old_m = m@;
            assert forall|k: Seq<char>|
                {
                    &&& #[trigger] m@.contains_key(k) <==> {
                        ||| exists|t: int| 0 <= t < s + 1 && #[trigger] in_group(g, t, k)
                        ||| among(g, s + 1, 0, k)
                    }
                    &&& m@.contains_key(k) ==> {
                        &&& m@[k] <= s + 1
                        &&& m@[k] == s + 1 ==> among(g, s + 1, 0, k)
                        &&& m@[k] < s + 1 ==> in_group(g, m@[k] as int, k) && !among(g, s + 1, 0, k)
                        &&& forall|t: int|
                            m@[k] < t < s + 1 ==> !#[trigger] in_group(g, t, k)
                    }
                } by {
                assert(in_group(g, s as int, k) <==> among(g, s as int, j as int, k));
            }
        }
        s = s + 1;
    }
    m
}

/// The right to send to a sharded channel by an explicit route: many keys, few shards.
pub struct ShardGroup {
    route: Arc<Route>,
    mask: usize,
}

/// Where a route sends keys.
pub open spec fn shards_of_route(route: Route, keys: Seq<Seq<char>>) -> Seq<int> {
    keys.map_values(|k: Seq<char>| route.at(k))
}

/// The shards after the groups up to shard `f` have been tried.
pub open spec fn stopped_models<T, W>(
    groups: Seq<Seq<T>>,
    ms: Seq<ChannelModel<T, W>>,
    cap: int,
    f: int,
) -> Seq<ChannelModel<T, W>> {
    Seq::new(
        ms.len(),
        |s: int|
            if s <= f {
                batch_models(groups, ms, cap)[s]
            } else {
                ms[s]
            },
    )
}

/// What is left of the groups then.
pub open spec fn stopped_left<T, W>(
    groups: Seq<Seq<T>>,
    ms: Seq<ChannelModel<T, W>>,
    cap: int,
    f: int,
) -> Seq<Seq<T>> {
    Seq::new(
        groups.len(),
        |s: int|
            if s <= f {
                batch_left(groups, ms, cap)[s]
            } else {
                groups[s]
            },
    )
}

impl ShardGroup {
    /// How many shards there are.
    pub closed spec fn count(&self) -> int {
        self.mask + 1
    }

    pub closed spec fn route(&self) -> Route {
        *self.route
    }

    pub closed spec fn wf(&self) -> bool {
        &&& self.mask < usize::MAX
        &&& is_pow2(self.mask + 1)
        &&& self.route.count() == self.mask + 1
    }

    pub proof fn lemma_wf(&self)
        requires
            self.wf(),
        ensures
            is_pow2(self.count()),
            0 < self.count() <= usize::MAX,
            self.route().count() == self.count(),
    {
    }

    /// Group `i` goes to shard `i`; there are as many shards as groups, rounded up to a
    /// power of two. A key in several groups belongs to the last of them.
    pub fn from_groups<T, const CAP: usize, W>(groups: &[&[&str]]) -> (r: (
        Self,
        ShardReceiver<T, CAP, W>,
        Vec<SeqInner<T, CAP, W>>,
    ))
        requires
            is_pow2(CAP as int),
            groups@.len() <= usize::MAX / 2 + 1,
        ensures
            r.0.wf(),
            r.1.wf(),
            is_pow2_ceil(
                if groups@.len() == 0 {
                    1
                } else {
                    groups@.len() as int
                },
                r.0.count(),
            ),
            mapped(r.0.route().map(), groups@, groups@.len() as int, 0),
            r.1.count() == r.0.count(),
            r.1.cursor() == 0,
            lanes_wf(r.2@, r.0.count()),
            models(r.2@) == initial_models::<T, W>(r.0.count()),
    {
        let len: usize = if groups.len() == 0 { 1 } else { groups.len() };
        let n: usize = nearest_power_of_two(len);
        let route = Arc::new(Route::new(route_of(groups), n));
        (ShardGroup { route, mask: n - 1 }, ShardReceiver::new(n), new_lanes(n))
    }

    /// Group `g` goes to shard `g` modulo the number of shards, which is `num_groups`
    /// rounded up to a power of two.
    pub fn from_map<T, const CAP: usize, W>(map: RouteMap, num_groups: usize) -> (r: (
        Self,
        ShardReceiver<T, CAP, W>,
        Vec<SeqInner<T, CAP, W>>,
    ))
        requires
            is_pow2(CAP as int),
            num_groups <= usize::MAX / 2 + 1,
        ensures
            r.0.wf(),
            r.1.wf(),
            is_pow2_ceil(
                if num_groups == 0 {
                    1
                } else {
                    num_groups as int
                },
                r.0.count(),
            ),
            r.0.route().map() == map@,
            r.1.count() == r.0.count(),
            r.1.cursor() == 0,
            lanes_wf(r.2@, r.0.count()),
            models(r.2@) == initial_models::<T, W>(r.0.count()),
    {
        let len: usize = if num_groups == 0 { 1 } else { num_groups };
        let n: usize = nearest_power_of_two(len);
        let route = Arc::new(Route::new(map, n));
        (ShardGroup { route, mask: n - 1 }, ShardReceiver::new(n), new_lanes(n))
    }

    /// The handle of a key, if it has a shard.
    pub fn handle(&self, symbol: &str) -> (r: Option<SymbolHandle>)
        requires
            self.wf(),
        ensures
            r is Some <==> self.route().map().contains_key(symbol@),
            r is Some ==> r->Some_0.at() == self.route().at(symbol@),
    {
        match self.route.shard_for(symbol) {
            Some(shard) => Some(SymbolHandle { shard }),
            None => None,
        }
    }

    /// A resolver over the same route.
    pub fn shard_handle(&self) -> (h: ShardHandle)
        requires
            self.wf(),
        ensures
            h.route() == self.route(),
    {
        ShardHandle::new(self.route.clone())
    }

    /// The shard of a key, if it has one.
    pub fn shard_for(&self, symbol: &str) -> (r: Option<usize>)
        requires
            self.wf(),
        ensures
            r is Some <==> self.route().map().contains_key(symbol@),
            r is Some ==> r->Some_0 == self.route().at(symbol@) && r->Some_0 < self.count(),
    {
        self.route.shard_for(symbol)
    }

    pub fn shards(&self) -> (n: usize)
        requires
            self.wf(),
        ensures
            n == self.count(),
    {
        self.mask + 1
    }

    /// How many keys are routed.
    pub fn keys_count(&self) -> (n: usize)
        ensures
            n == self.route().map().len(),
    {
        self.route.keys_count()
    }

    /// Sends `value` to the shard of a handle without waiting.
    pub fn try_send<T, const CAP: usize, W>(
        &self,
        lanes: &mut Vec<SeqInner<T, CAP, W>>,
        h: SymbolHandle,
        value: T,
    ) -> (r: Result<(), ShardTrySendError<T>>)
        requires
            self.wf(),
            lanes_wf(old(lanes)@, self.count()),
        ensures
            lanes_wf(final(lanes)@, self.count()),
            ({
                let s = h.at() as int % self.count();
                let (m, a) = try_sent(models(old(lanes)@)[s], CAP as int, value);
                &&& models(final(lanes)@) == models(old(lanes)@).update(s, m)
                &&& match r {
                    Ok(()) => a is Ok,
                    Err(e) => a == Err::<(), _>(e.err) && e.shard == s,
                }
            }),
    {
        let shard: usize = hash_shard(h.shard, self.mask + 1);
        let ghost pre = lanes@;
        let r = try_send(&mut lanes[shard], value);
        assert(models(lanes@) =~= models(pre).update(shard as int, lanes@[shard as int].model()));
        match r {
            Ok(()) => Ok(()),
            Err(err) => Err(ShardTrySendError { shard, err }),
        }
    }

    /// A send to the shard of a handle that waits for room, and that shard.
    pub fn send<T>(&self, h: SymbolHandle, value: T) -> (r: (usize, SendOp<T>))
        requires
            self.wf(),
        ensures
            r.0 == h.at() as int % self.count(),
            r.0 < self.count(),
            r.1.value() == Some(value),
            r.1.phase() is Begin,
            !r.1.timed(),
    {
        (hash_shard(h.shard, self.mask + 1), SendOp::new(value))
    }

    /// A send to the shard of a handle that waits for room until a deadline, and that
    /// shard.
    pub fn send_timeout<T>(&self, h: SymbolHandle, value: T) -> (r: (usize, SendOp<T>))
        requires
            self.wf(),
        ensures
            r.0 == h.at() as int % self.count(),
            r.0 < self.count(),
            r.1.value() == Some(value),
            r.1.phase() is Attempt,
            r.1.timed(),
    {
        (hash_shard(h.shard, self.mask + 1), SendOp::with_deadline(value))
    }

    /// A send to the shard of a handle for a task to await, and that shard.
    pub fn send_async<T>(&self, h: SymbolHandle, value: T) -> (r: (usize, GenericSendFuture<T>))
        requires
            self.wf(),
        ensures
            r.0 == h.at() as int % self.count(),
            r.0 < self.count(),
            r.1.value() == Some(value),
            r.1.slot() is None,
    {
        (hash_shard(h.shard, self.mask + 1), GenericSendFuture::new(value))
    }

    /// Lays `buf` out by shard; items whose key has no shard are kept apart. Every key is
    /// read before the first item moves.
    pub fn group_by_route<T, F: for<'k> Fn(&'k T) -> &'k str>(
        &self,
        buf: &mut Vec<T>,
        key_fn: &F,
    ) -> (r: (Vec<Vec<T>>, Vec<T>))
        requires
            self.wf(),
            can_key(*key_fn, old(buf)@),
        ensures
            final(buf)@.len() == 0,
            r.0@.len() == self.count(),
            exists|keys: Seq<Seq<char>>| #[trigger]
                all_keyed(*key_fn, old(buf)@, keys) && ({
                    let at = shards_of_route(self.route(), keys);
                    &&& vec_views(r.0@) == laid_out(old(buf)@, at, self.count())
                    &&& r.1@ == picked(old(buf)@, at, -1)
                }),
    {
        let n: usize = self.mask + 1;
        let mut at: Vec<Option<usize>> = Vec::with_capacity(buf.len());
        let ghost mut keys: Seq<Seq<char>> = Seq::empty();
        let mut i: usize = 0;
        assert(numbered(at@) =~= shards_of_route(self.route(), keys));
        while i < buf.len()
            invariant
                self.wf(),
                n == self.count(),
                can_key(*key_fn, buf@),
                i <= buf@.len(),
                at@.len() == i,
                forall|j: int|
                    0 <= j < i ==> ((#[trigger] at@[j]) is Some ==> at@[j]->Some_0 < n),
                numbered(at@) == shards_of_route(self.route(), keys),
                keys.len() == i,
                forall|j: int| 0 <= j < i ==> keyed(*key_fn, #[trigger] buf@[j], keys[j]),
            decreases buf@.len() - i,
        {
            let key = key_fn(&buf[i]);
            let shard = self.route.shard_for(key);
            proof {
                let k = key@;
                assert(keyed(*key_fn, buf@[i as int], k));
                assert(numbered(at@.push(shard)) =~= numbered(at@).push(self.route().at(k)));
                assert(shards_of_route(self.route(), keys.push(k)) =~= numbered(
                    at@,
                ).push(self.route().at(k)));
                keys = keys.push(k);
            }
            at.push(shard);
            i = i + 1;
        }
        assert(all_keyed(*key_fn, buf@, keys));
        let (groups, unused) = lay_out(buf, &at, n);
        assert(vec_views(groups@).len() == n);
        (groups, unused)
    }

    /// Sends the items of `buf` to the shards of their keys without waiting, and stops at
    /// the first shard that falls short. What was not sent stays in `buf`: by shard and in
    /// order, then the items whose key has no shard.
    pub fn try_send_batch<T, const CAP: usize, W, F: for<'k> Fn(&'k T) -> &'k str>(
        &self,
        lanes: &mut Vec<SeqInner<T, CAP, W>>,
        buf: &mut Vec<T>,
        key_fn: F,
    ) -> (r: Result<usize, ShardKeyTryBatchSendError>)
        requires
            self.wf(),
            lanes_wf(old(lanes)@, self.count()),
            can_key(key_fn, old(buf)@),
        ensures
            lanes_wf(final(lanes)@, self.count()),
            exists|keys: Seq<Seq<char>>| #[trigger]
                all_keyed(key_fn, old(buf)@, keys) && ({
                    let at = shards_of_route(self.route(), keys);
                    let gs = laid_out(old(buf)@, at, self.count());
                    let ms = models(old(lanes)@);
                    let cap = CAP as int;
                    match r {
                        Ok(n) => {
                            &&& forall|s: int|
                                0 <= s < gs.len() ==> !#[trigger] is_short(gs, ms, cap, s)
                            &&& n == batch_sent(gs, ms, cap, gs.len() as int)
                            &&& models(final(lanes)@) == batch_models(gs, ms, cap)
                            &&& final(buf)@ == picked(old(buf)@, at, -1)
                        },
                        Err(e) => {
                            let f = e.shard as int;
                            &&& first_short(gs, ms, cap, f)
                            &&& e.sent == batch_sent(gs, ms, cap, f + 1)
                            &&& e.reason == short_reason(ms[f])
                            &&& keyed(key_fn, batch_left(gs, ms, cap)[f][0], e.key@)
                            &&& models(final(lanes)@) == stopped_models(gs, ms, cap, f)
                            &&& final(buf)@ == joined(stopped_left(gs, ms, cap, f)) + picked(
                                old(buf)@,
                                at,
                                -1,
                            )
                        },
                    }
                }),
    {
        let ghost all = buf@;
        let ghost most: nat = buf.len() as nat;
        let ghost n = self.count();
        let ghost ms = models(lanes@);
        let ghost cap = CAP as int;
        let (mut groups, mut unused) = self.group_by_route(buf, &key_fn);
        let ghost keys = choose|keys: Seq<Seq<char>>| #[trigger]
            all_keyed(key_fn, all, keys) && ({
                let at = shards_of_route(self.route(), keys);
                &&& vec_views(groups@) == laid_out(all, at, n)
                &&& unused@ == picked(all, at, -1)
            });
        let ghost at = shards_of_route(self.route(), keys);
        let ghost gs = vec_views(groups@);
        proof {
            lemma_layout_len(all, at, n);
        }
        let (total, short) = try_send_groups_in_order(lanes, &mut groups, Ghost(most));
        let r = match short {
            None => Ok(total),
            Some((shard, reason)) => {
                proof {
                    let left = batch_left(gs, ms, cap)[shard as int];
                    assert(groups@[shard as int]@ == vec_views(groups@)[shard as int]);
                    assert(groups@[shard as int]@ == left);
                    lemma_batch(gs, ms, cap, 0);
                    lemma_picked_in(all, at, shard as int);
                    assert(left[0] == gs[shard as int][gs[shard as int].len() - left.len()]);
                    assert(all.contains(left[0]));
                }
                let key = key_fn(&groups[shard][0]).to_owned();
                Err(ShardKeyTryBatchSendError { key, shard, sent: total, reason })
            },
        };
        proof {
            if r is Ok {
                assert forall|s: int| 0 <= s < gs.len() implies (#[trigger] vec_views(
                    groups@,
                )[s]).len() == 0 by {
                    assert(!is_short(gs, ms, cap, s));
                    lemma_batch(gs, ms, cap, 0);
                    assert(0 <= batch_taken(gs, ms, cap, s) <= gs[s].len());
                }
                super::layout::lemma_joined_empty(vec_views(groups@));
            }
        }
        join_into(buf, groups);
        buf.append(&mut unused);
        proof {
            if r is Ok {
                assert(buf@ =~= picked(all, at, -1));
            } else {
                assert(buf@ =~= joined(
                    stopped_left(gs, ms, cap, short->Some_0.0 as int),
                ) + picked(all, at, -1));
            }
        }
        r
    }

    /// Lays `buf` out by shard, to be sent shard by shard with waiting as long as it takes.
    pub fn send_batch<T, F: for<'k> Fn(&'k T) -> &'k str>(
        &self,
        buf: &mut Vec<T>,
        key_fn: &F,
    ) -> (b: ShardBatch<T>)
        requires
            self.wf(),
            can_key(*key_fn, old(buf)@),
        ensures
            final(buf)@.len() == 0,
            b.wf(),
            b.sent() == 0,
            b.next() == 0,
            b.budget() is Endless,
            exists|keys: Seq<Seq<char>>| #[trigger]
                all_keyed(*key_fn, old(buf)@, keys) && ({
                    let at = shards_of_route(self.route(), keys);
                    &&& b.groups() == laid_out(old(buf)@, at, self.count())
                    &&& b.unused() == picked(old(buf)@, at, -1)
                }),
    {
        let (groups, unused) = self.group_by_route(buf, key_fn);
        ShardBatch::new(groups, unused, Budget::Endless)
    }

    /// Lays `buf` out by shard, to be sent shard by shard with waiting, up to `d` for
    /// each shard.
    pub fn send_batch_timeout<T, F: for<'k> Fn(&'k T) -> &'k str>(
        &self,
        buf: &mut Vec<T>,
        key_fn: &F,
        d: u64,
    ) -> (b: ShardBatch<T>)
        requires
            self.wf(),
            can_key(*key_fn, old(buf)@),
        ensures
            final(buf)@.len() == 0,
            b.wf(),
            b.sent() == 0,
            b.next() == 0,
            b.budget() == Budget::Each(d),
            exists|keys: Seq<Seq<char>>| #[trigger]
                all_keyed(*key_fn, old(buf)@, keys) && ({
                    let at = shards_of_route(self.route(), keys);
                    &&& b.groups() == laid_out(old(buf)@, at, self.count())
                    &&& b.unused() == picked(old(buf)@, at, -1)
                }),
    {
        let (groups, unused) = self.group_by_route(buf, key_fn);
        ShardBatch::new(groups, unused, Budget::Each(d))
    }

    /// Lays `buf` out by shard, to be sent shard by shard by a task.
    pub fn send_batch_async<T, F: for<'k> Fn(&'k T) -> &'k str>(
        &self,
        buf: &mut Vec<T>,
        key_fn: &F,
    ) -> (f: BatchFlow<T>)
        requires
            self.wf(),
            can_key(*key_fn, old(buf)@),
        ensures
            final(buf)@.len() == 0,
            f@.sound(),
            f@.groups.pending is None,
            f@.shard == 0,
            f@.sent == 0,
            f@.slot is None,
            exists|keys: Seq<Seq<char>>| #[trigger]
                all_keyed(*key_fn, old(buf)@, keys) && ({
                    let at = shards_of_route(self.route(), keys);
                    &&& f@.groups.groups == laid_out(old(buf)@, at, self.count())
                    &&& f@.groups.unused == picked(old(buf)@, at, -1)
                }),
    {
        let ghost all = buf@;
        let ghost n = self.count();
        let most: usize = buf.len();
        let (groups, unused) = self.group_by_route(buf, key_fn);
        proof {
            let keys = choose|keys: Seq<Seq<char>>| #[trigger]
                all_keyed(*key_fn, all, keys) && ({
                    let at = shards_of_route(self.route(), keys);
                    &&& vec_views(groups@) == laid_out(all, at, n)
                    &&& unused@ == picked(all, at, -1)
                });
            lemma_layout_len(all, shards_of_route(self.route(), keys), n);
            assert(joined(vec_views(groups@)).len() <= most);
        }
        BatchFlow::new(groups, unused)
    }

    /// One more sender, with the same route.
    pub fn clone<T, const CAP: usize, W>(&self, lanes: &mut Vec<SeqInner<T, CAP, W>>) -> (s: Self)
        requires
            self.wf(),
            lanes_wf(old(lanes)@, self.count()),
        ensures
            s.wf(),
            s.count() == self.count(),
            s.route() == self.route(),
            lanes_wf(final(lanes)@, self.count()),
            models(final(lanes)@) == models(old(lanes)@).map_values(
                |m: ChannelModel<T, W>| m.senders_changed(true, 1),
            ),
    {
        add_senders(lanes);
        ShardGroup { route: self.route.clone(), mask: self.mask }
    }

    /// Gives the right up on every shard.
    pub fn close<T, const CAP: usize, W>(self, lanes: &mut Vec<SeqInner<T, CAP, W>>)
        requires
            self.wf(),
            lanes_wf(old(lanes)@, self.count()),
        ensures
            lanes_wf(final(lanes)@, self.count()),
            models(final(lanes)@) == models(old(lanes)@).map_values(
                |m: ChannelModel<T, W>| m.sender_gone(true),
            ),
    {
        drop_senders(lanes);
    }
}

/// Sends each group to its shard without waiting, up to the first shard that falls short.
/// Says how many items went, and which shard that was.
fn try_send_groups_in_order<T, const CAP: usize, W>(
    lanes: &mut Vec<SeqInner<T, CAP, W>>,
    groups: &mut Vec<Vec<T>>,
    most: Ghost<nat>,
) -> (r: (usize, Option<(usize, TrySendBatchError)>))
    requires
        lanes_wf(old(lanes)@, old(groups)@.len() as int),
        joined(vec_views(old(groups)@)).len() <= most@,
        most@ <= usize::MAX,
    ensures
        lanes_wf(final(lanes)@, old(groups)@.len() as int),
        ({
            let gs = vec_views(old(groups)@);
            let ms = models(old(lanes)@);
            let cap = CAP as int;
            &&& final(groups)@.len() == old(groups)@.len()
            &&& match r.1 {
                None => {
                    &&& forall|s: int| 0 <= s < gs.len() ==> !#[trigger] is_short(gs, ms, cap, s)
                    &&& r.0 == batch_sent(gs, ms, cap, gs.len() as int)
                    &&& models(final(lanes)@) == batch_models(gs, ms, cap)
                    &&& vec_views(final(groups)@) == batch_left(gs, ms, cap)
                },
                Some((f, why)) => {
                    &&& first_short(gs, ms, cap, f as int)
                    &&& why == short_reason(ms[f as int])
                    &&& r.0 == batch_sent(gs, ms, cap, f + 1)
                    &&& models(final(lanes)@) == stopped_models(gs, ms, cap, f as int)
                    &&& vec_views(final(groups)@) == stopped_left(gs, ms, cap, f as int)
                },
            }
        }),
{
    let ghost gs = vec_views(groups@);
    let ghost ms = models(lanes@);
    let ghost cap = CAP as int;
    let n: usize = groups.len();
    let mut total: usize = 0;
    let mut s: usize = 0;
    while s < n
        invariant
            s <= n,
            n == gs.len(),
            ms.len() == n,
            gs == vec_views(old(groups)@),
            ms == models(old(lanes)@),
            groups@.len() == n,
            lanes_wf(lanes@, n as int),
            cap == CAP,
            joined(gs).len() <= most@,
            most@ <= usize::MAX,
            total == batch_sent(gs, ms, cap, s as int),
            forall|k: int|
                0 <= k < s ==> (#[trigger] lanes@[k]).model() == batch_models(gs, ms, cap)[k],
            forall|k: int| s <= k < n ==> (#[trigger] lanes@[k]).model() == ms[k],
            forall|k: int|
                0 <= k < s ==> (#[trigger] groups@[k])@ == batch_left(gs, ms, cap)[k],
            forall|k: int| s <= k < n ==> (#[trigger] groups@[k])@ == gs[k],
            forall|k: int| 0 <= k < s ==> !#[trigger] is_short(gs, ms, cap, k),
        decreases n - s,
    {
        proof {
            lemma_batch(gs, ms, cap, s + 1);
        }
        if groups[s].len() > 0 {
            match try_send_batch(&mut lanes[s], &mut groups[s]) {
                Ok(sent) => {
                    total = total + sent;
                },
                Err(e) => {
                    total = total + e.sent;
                    proof {
                        assert(models(lanes@) =~= stopped_models(gs, ms, cap, s as int));
                        assert(vec_views(groups@) =~= stopped_left(gs, ms, cap, s as int));
                    }
                    return (total, Some((s, e.err)));
                },
            }
        } else {
            proof {
                let m = ms[s as int];
                let g = gs[s as int];
                assert(g.subrange(0, 0) =~= g);
                assert(written(g) =~= Seq::empty());
                assert(m.pending + written(g) =~= m.pending);
                assert(m.woken + Seq::<W>::empty() =~= m.woken);
            }
        }
        s = s + 1;
    }
    proof {
        assert(models(lanes@) =~= batch_models(gs, ms, cap));
        assert(vec_views(groups@) =~= batch_left(gs, ms, cap));
    }
    (total, None)
}

/// How to set up a [`ShardGroup`].
pub enum ShardGroupCase<'a> {
    /// The keys of each group.
    Groups {
        groups: &'a [&'a [&'a str]],
    },
    /// The group of each key, and how many groups there are.
    Routes {
        map: RouteMap,
        num_groups: usize,
    },
}

impl<'a> ShardGroupCase<'a> {
    /// How many groups there are.
    pub open spec fn size(self) -> int {
        match self {
            ShardGroupCase::Groups { groups } => groups@.len() as int,
            ShardGroupCase::Routes { map, num_groups } => num_groups as int,
        }
    }
}

/// A sharded channel with an explicit route: its first sender, its first receiver and its
/// shards.
pub fn shard_group<T, const CAP: usize, W>(case: ShardGroupCase<'_>) -> (r: (
    ShardGroup,
    ShardReceiver<T, CAP, W>,
    Vec<SeqInner<T, CAP, W>>,
))
    requires
        is_pow2(CAP as int),
        case.size() <= usize::MAX / 2 + 1,
    ensures
        r.0.wf(),
        r.1.wf(),
        is_pow2_ceil(
            if case.size() == 0 {
                1
            } else {
                case.size()
            },
            r.0.count(),
        ),
        match case {
            ShardGroupCase::Groups { groups } => mapped(
                r.0.route().map(),
                groups@,
                groups@.len() as int,
                0,
            ),
            ShardGroupCase::Routes { map, num_groups } => r.0.route().map() == map@,
        },
        r.1.count() == r.0.count(),
        r.1.cursor() == 0,
        lanes_wf(r.2@, r.0.count()),
        models(r.2@) == initial_models::<T, W>(r.0.count()),
{
    match case {
        ShardGroupCase::Groups { groups } => ShardGroup::from_groups(groups),
        ShardGroupCase::Routes { map, num_groups } => ShardGroup::from_map(map, num_groups),
    }
}

/// A key of an explicit group goes to the shard of the last group that lists it.
pub proof fn law_group_is_shard(groups: Seq<&[&str]>, route: Route, k: Seq<char>, s: int)
    requires
        mapped(route.map(), groups, groups.len() as int, 0),
        groups.len() <= route.count(),
        in_group(groups, s, k),
        forall|t: int| s < t < groups.len() ==> !#[trigger] in_group(groups, t, k),
    ensures
        route.at(k) == s,
{
    assert(route.map().contains_key(k));
    let m = route.map()[k] as int;
    assert(!among(groups, groups.len() as int, 0, k));
    if m < s {
        assert(!in_group(groups, s, k));
    }
    assert(m == s);
    vstd::arithmetic::div_mod::lemma_small_mod(m as nat, route.count() as nat);
}

} // verus!
