use super::buf::{joined, vec_views};
use crate::stack::stacked;
use vstd::prelude::*;
use vstd::seq_lib::*;

verus! {

/// The items that are assigned to shard `s`, in their order.
pub open spec fn picked<T>(items: Seq<T>, shards: Seq<int>, s: int) -> Seq<T>
    decreases items.len(),
{
    if items.len() == 0 {
        Seq::empty()
    } else {
        let r = picked(items.drop_last(), shards.drop_last(), s);
        if shards.last() == s {
            r.push(items.last())
        } else {
            r
        }
    }
}

/// The items laid out over `n` shards.
pub open spec fn laid_out<T>(items: Seq<T>, shards: Seq<int>, n: int) -> Seq<Seq<T>> {
    Seq::new(n as nat, |s: int| picked(items, shards, s))
}

/// `key` is what `key_fn` gives for `item`.
pub open spec fn keyed<T, F: for<'k> Fn(&'k T) -> &'k str>(
    key_fn: F,
    item: T,
    key: Seq<char>,
) -> bool {
    exists|k: &str| call_ensures(key_fn, (&item,), k) && k@ == key
}

/// `keys` are what `key_fn` gives for `items`.
pub open spec fn all_keyed<T, F: for<'k> Fn(&'k T) -> &'k str>(
    key_fn: F,
    items: Seq<T>,
    keys: Seq<Seq<char>>,
) -> bool {
    &&& keys.len() == items.len()
    &&& forall|i: int| 0 <= i < items.len() ==> keyed(key_fn, #[trigger] items[i], keys[i])
}

/// `key_fn` can be asked for the keys of `items`.
pub open spec fn can_key<T, F: for<'k> Fn(&'k T) -> &'k str>(key_fn: F, items: Seq<T>) -> bool {
    forall|i: int| 0 <= i < items.len() ==> call_requires(key_fn, (&#[trigger] items[i],))
}

/// The shards as numbers; -1 for no shard.
pub open spec fn numbered(at: Seq<Option<usize>>) -> Seq<int> {
    at.map_values(
        |s: Option<usize>|
            match s {
                Some(k) => k as int,
                None => -1,
            },
    )
}

/// `n` empty groups.
fn empty_groups<T>(n: usize) -> (groups: Vec<Vec<T>>)
    ensures
        vec_views(groups@) == laid_out(Seq::<T>::empty(), Seq::empty(), n as int),
{
    let mut groups: Vec<Vec<T>> = Vec::with_capacity(n);
    let mut i: usize = 0;
    while i < n
        invariant
            i <= n,
            groups@.len() == i,
            forall|k: int| 0 <= k < i ==> (#[trigger] groups@[k])@ == Seq::<T>::empty(),
        decreases n - i,
    {
        let group: Vec<T> = Vec::new();
        assert(group@ =~= Seq::empty());
        groups.push(group);
        i = i + 1;
    }
    assert(vec_views(groups@) =~= laid_out(Seq::<T>::empty(), Seq::empty(), n as int));
    groups
}

/// Lays `buf` out over `n` shards, item `i` to shard `at[i]`; what belongs to no shard is
/// kept apart.
pub fn lay_out<T>(buf: &mut Vec<T>, at: &Vec<Option<usize>>, n: usize) -> (r: (
    Vec<Vec<T>>,
    Vec<T>,
))
    requires
        at@.len() == old(buf)@.len(),
        forall|i: int|
            0 <= i < at@.len() ==> ((#[trigger] at@[i]) is Some ==> at@[i]->Some_0 < n),
    ensures
        final(buf)@.len() == 0,
        vec_views(r.0@) == laid_out(old(buf)@, numbered(at@), n as int),
        r.1@ == picked(old(buf)@, numbered(at@), -1),
{
    let ghost all = buf@;
    let mut stack = stacked(buf);
    let mut groups: Vec<Vec<T>> = empty_groups(n);
    let mut unused: Vec<T> = Vec::new();
    let mut i: usize = 0;
    proof {
        assert(all.subrange(0, 0) =~= Seq::empty());
        assert(numbered(at@).subrange(0, 0) =~= Seq::empty());
        assert(unused@ =~= Seq::empty());
    }
    while i < at.len()
        invariant
            at@.len() == all.len(),
            forall|j: int|
                0 <= j < at@.len() ==> ((#[trigger] at@[j]) is Some ==> at@[j]->Some_0 < n),
            i <= at@.len(),
            stack@.len() == all.len() - i,
            forall|j: int|
                0 <= j < stack@.len() ==> #[trigger] stack@[j] == all[all.len() - 1 - j],
            vec_views(groups@) == laid_out(
                all.subrange(0, i as int),
                numbered(at@).subrange(0, i as int),
                n as int,
            ),
            unused@ == picked(all.subrange(0, i as int), numbered(at@).subrange(0, i as int), -1),
        decreases at@.len() - i,
    {
        let ghost k = i as int;
        let ghost was = groups@;
        let ghost to = numbered(at@)[k];
        assert(vec_views(was).len() == n);
        match stack.pop() {
            Some(item) => {
                assert(item == all[k]);
                match at[i] {
                    Some(s) => {
                        groups[s].push(item);
                    },
                    None => {
                        unused.push(item);
                    },
                }
                proof {
                    let items = all.subrange(0, k + 1);
                    let shards = numbered(at@).subrange(0, k + 1);
                    assert(items.drop_last() =~= all.subrange(0, k));
                    assert(shards.drop_last() =~= numbered(at@).subrange(0, k));
                    assert forall|s: int| 0 <= s < n implies vec_views(groups@)[s]
                        == #[trigger] picked(items, shards, s) by {
                        assert(vec_views(was)[s] == picked(
                            items.drop_last(),
                            shards.drop_last(),
                            s,
                        ));
                        if s == to {
                            assert(groups@[s]@ == was[s]@.push(item));
                        } else {
                            assert(groups@[s] == was[s]);
                        }
                    }
                    assert(vec_views(groups@) =~= laid_out(items, shards, n as int));
                }
            },
            None => {},
        }
        i = i + 1;
    }
    proof {
        assert(all.subrange(0, i as int) =~= all);
        assert(numbered(at@).subrange(0, i as int) =~= numbered(at@));
    }
    (groups, unused)
}

proof fn lemma_joined_push<T>(groups: Seq<Seq<T>>, s: int, item: T)
    requires
        0 <= s < groups.len(),
    ensures
        joined(groups.update(s, groups[s].push(item))).to_multiset() == joined(
            groups,
        ).to_multiset().insert(item),
    decreases groups.len(),
{
    let u = groups.update(s, groups[s].push(item));
    let t = groups.drop_last();
    vstd::seq_lib::lemma_multiset_commutative(joined(t), groups.last());
    vstd::seq_lib::lemma_multiset_commutative(joined(u.drop_last()), u.last());
    if s == groups.len() - 1 {
        assert(u.drop_last() =~= t);
        groups.last().to_multiset_ensures();
        assert(u.last().to_multiset() == groups.last().to_multiset().insert(item));
        assert(joined(u).to_multiset() =~= joined(groups).to_multiset().insert(item));
    } else {
        lemma_joined_push(t, s, item);
        assert(u.drop_last() =~= t.update(s, t[s].push(item)));
        assert(joined(u).to_multiset() =~= joined(groups).to_multiset().insert(item));
    }
}

/// Empty groups are nothing together.
pub proof fn lemma_joined_empty<T>(groups: Seq<Seq<T>>)
    requires
        forall|s: int| 0 <= s < groups.len() ==> (#[trigger] groups[s]).len() == 0,
    ensures
        joined(groups).len() == 0,
    decreases groups.len(),
{
    if groups.len() > 0 {
        lemma_joined_empty(groups.drop_last());
    }
}

/// Laying a batch out loses nothing and invents nothing: the groups and what belongs to
/// none hold, together, the items of the batch.
pub proof fn law_layout_conserves<T>(items: Seq<T>, shards: Seq<int>, n: int)
    requires
        items.len() == shards.len(),
        0 <= n,
        forall|i: int| 0 <= i < shards.len() ==> -1 <= #[trigger] shards[i] < n,
    ensures
        (joined(laid_out(items, shards, n)) + picked(items, shards, -1)).to_multiset()
            == items.to_multiset(),
    decreases items.len(),
{
    let j = joined(laid_out(items, shards, n));
    let p = picked(items, shards, -1);
    vstd::seq_lib::lemma_multiset_commutative(j, p);
    if items.len() == 0 {
        lemma_joined_empty(laid_out(items, shards, n));
        assert(j + p =~= items);
    } else {
        let i0 = items.drop_last();
        let s0 = shards.drop_last();
        let x = items.last();
        let s = shards[shards.len() - 1];
        law_layout_conserves(i0, s0, n);
        let j0 = joined(laid_out(i0, s0, n));
        let p0 = picked(i0, s0, -1);
        vstd::seq_lib::lemma_multiset_commutative(j0, p0);
        assert(i0.push(x) =~= items);
        i0.to_multiset_ensures();
        if s == -1 {
            assert(laid_out(items, shards, n) =~= laid_out(i0, s0, n));
            p0.to_multiset_ensures();
        } else {
            let l0 = laid_out(i0, s0, n);
            assert(laid_out(items, shards, n) =~= l0.update(s, l0[s].push(x)));
            lemma_joined_push(l0, s, x);
        }
        assert((j + p).to_multiset() =~= items.to_multiset());
    }
}

/// No group is longer than the batch, and neither are the groups together.
pub proof fn lemma_layout_len<T>(items: Seq<T>, shards: Seq<int>, n: int)
    requires
        items.len() == shards.len(),
        0 <= n,
        forall|i: int| 0 <= i < shards.len() ==> -1 <= #[trigger] shards[i] < n,
    ensures
        joined(laid_out(items, shards, n)).len() + picked(items, shards, -1).len() == items.len(),
{
    law_layout_conserves(items, shards, n);
    let all = joined(laid_out(items, shards, n)) + picked(items, shards, -1);
    all.to_multiset_ensures();
    items.to_multiset_ensures();
}

/// A laid out item was in the batch.
pub proof fn lemma_picked_in<T>(items: Seq<T>, shards: Seq<int>, s: int)
    requires
        items.len() == shards.len(),
    ensures
        forall|i: int|
            0 <= i < picked(items, shards, s).len() ==> items.contains(
                #[trigger] picked(items, shards, s)[i],
            ),
    decreases items.len(),
{
    if items.len() > 0 {
        let i0 = items.drop_last();
        let s0 = shards.drop_last();
        lemma_picked_in(i0, s0, s);
        let p = picked(items, shards, s);
        assert forall|i: int| 0 <= i < p.len() implies items.contains(#[trigger] p[i]) by {
            let q = picked(i0, s0, s);
            if i < q.len() {
                assert(q[i] == p[i]);
                let k = choose|k: int| 0 <= k < i0.len() && i0[k] == q[i];
                assert(items[k] == p[i]);
            } else {
                assert(items[items.len() - 1] == p[i]);
            }
        }
    }
}

/// Within a shard the items keep their order: an item placed later comes later.
pub proof fn law_layout_keeps_order<T>(items: Seq<T>, shards: Seq<int>, item: T, at: int, s: int)
    requires
        items.len() == shards.len(),
    ensures
        picked(items.push(item), shards.push(at), s) == if at == s {
            picked(items, shards, s).push(item)
        } else {
            picked(items, shards, s)
        },
{
    assert(items.push(item).drop_last() =~= items);
    assert(shards.push(at).drop_last() =~= shards);
}

} // verus!
