use crate::stack::turned;
use std::collections::VecDeque;
use vstd::prelude::*;

verus! {

/// Groups, one after the other.
pub open spec fn joined<T>(groups: Seq<Seq<T>>) -> Seq<T>
    decreases groups.len(),
{
    if groups.len() == 0 {
        Seq::empty()
    } else {
        joined(groups.drop_last()) + groups.last()
    }
}

/// The contents of vectors.
pub open spec fn vec_views<T>(groups: Seq<Vec<T>>) -> Seq<Seq<T>> {
    groups.map_values(|g: Vec<T>| g@)
}

/// The contents of queues.
pub open spec fn deque_views<T>(groups: Seq<VecDeque<T>>) -> Seq<Seq<T>> {
    groups.map_values(|g: VecDeque<T>| g@)
}

/// Puts what is left of a batch back into `buf`: the rest of the group that failed, then
/// the groups that were not tried, each in its order.
pub fn refill_on_error<T>(buf: &mut Vec<T>, failed_group: Vec<T>, remaining: Vec<Vec<T>>)
    ensures
        final(buf)@ == old(buf)@ + failed_group@ + joined(vec_views(remaining@)),
{
    let mut failed = failed_group;
    buf.append(&mut failed);
    join_into(buf, remaining);
}

/// Puts groups into `buf`, one after the other.
pub fn join_into<T>(buf: &mut Vec<T>, groups: Vec<Vec<T>>)
    ensures
        final(buf)@ == old(buf)@ + joined(vec_views(groups@)),
{
    let ghost b0 = buf@;
    let ghost all = groups@;
    let mut groups = turned(groups);
    let ghost mut k: int = 0;
    proof {
        assert(vec_views(all).subrange(0, 0) =~= Seq::empty());
        assert(b0 =~= b0 + joined(vec_views(all).subrange(0, 0)));
    }
    while groups.len() > 0
        invariant
            0 <= k <= all.len(),
            groups@.len() == all.len() - k,
            forall|i: int| 0 <= i < groups@.len() ==> #[trigger] groups@[i] == all[all.len() - 1 - i],
            buf@ == b0 + joined(vec_views(all).subrange(0, k)),
        decreases groups@.len(),
    {
        match groups.pop() {
            Some(g) => {
                let mut g = g;
                proof {
                    assert(g == all[k]);
                    let s = vec_views(all).subrange(0, k + 1);
                    assert(s.drop_last() =~= vec_views(all).subrange(0, k));
                    assert(s.last() == g@);
                    assert(b0 + joined(s) =~= b0 + joined(s.drop_last()) + g@);
                }
                buf.append(&mut g);
            },
            None => {},
        }
        proof {
            k = k + 1;
        }
    }
    proof {
        assert(vec_views(all).subrange(0, k) =~= vec_views(all));
    }
}

/// The one item of a batch that is on its way. However the send ends, `restore` puts it
/// back unless it was sent.
pub struct RestoreOne<T> {
    pending: Option<T>,
    front: bool,
}

impl<T> RestoreOne<T> {
    pub closed spec fn pending(&self) -> Option<T> {
        self.pending
    }

    /// The item goes back to the front of the batch, not to its end.
    pub closed spec fn front(&self) -> bool {
        self.front
    }

    /// An item that was taken from the end of its batch.
    pub fn back(value: T) -> (g: Self)
        ensures
            g.pending() == Some(value),
            !g.front(),
    {
        RestoreOne { pending: Some(value), front: false }
    }

    /// An item that was taken from the front of its batch.
    pub fn at_front(value: T) -> (g: Self)
        ensures
            g.pending() == Some(value),
            g.front(),
    {
        RestoreOne { pending: Some(value), front: true }
    }

    /// The place of the item.
    pub fn slot(&mut self) -> (r: &mut Option<T>)
        ensures
            *r == old(self).pending(),
            final(self).pending() == *final(r),
            final(self).front() == old(self).front(),
    {
        &mut self.pending
    }

    /// Puts the item back into `buf`, if it was not sent.
    pub fn restore(self, buf: &mut Vec<T>)
        ensures
            final(buf)@ == match self.pending() {
                None => old(buf)@,
                Some(v) => if self.front() {
                    seq![v] + old(buf)@
                } else {
                    old(buf)@.push(v)
                },
            },
    {
        match self.pending {
            None => {},
            Some(v) => {
                if self.front {
                    let ghost b = buf@;
                    buf.insert(0, v);
                    assert(buf@ =~= seq![v] + b);
                } else {
                    buf.push(v);
                }
            },
        }
    }
}

/// A batch that has been laid out by shard, while it is being sent.
///
/// Everything that has not been sent is in here: in its group, in the staging buffer, or
/// on its way. `restore` puts it all back.
pub struct RestoreGroups<T> {
    groups: Vec<VecDeque<T>>,
    scratch: Vec<T>,
    scratch_shard: usize,
    unused: Vec<T>,
    pending: Option<T>,
    pending_shard: usize,
}

/// What a [`RestoreGroups`] holds.
pub struct GroupsModel<T> {
    /// The items of each shard that wait for their turn, in order.
    pub groups: Seq<Seq<T>>,
    /// The staged items, and the shard they belong to.
    pub scratch: Seq<T>,
    pub scratch_shard: usize,
    /// The items that belong to no shard.
    pub unused: Seq<T>,
    /// The item on its way, and the shard it belongs to.
    pub pending: Option<T>,
    pub pending_shard: usize,
}

impl<T> GroupsModel<T> {
    /// What waits for shard `s`, in order: the item on its way, the staged items, the rest.
    pub open spec fn of_shard(self, s: int) -> Seq<T> {
        let staged = if self.scratch_shard == s {
            self.scratch
        } else {
            Seq::empty()
        };
        let ahead = match self.pending {
            Some(v) => if self.pending_shard == s {
                seq![v]
            } else {
                Seq::empty()
            },
            None => Seq::empty(),
        };
        ahead + staged + self.groups[s]
    }

    /// What waits for each shard.
    pub open spec fn by_shard(self) -> Seq<Seq<T>> {
        Seq::new(self.groups.len(), |s: int| self.of_shard(s))
    }

    pub open spec fn sound(self) -> bool {
        &&& self.scratch.len() > 0 ==> self.scratch_shard < self.groups.len()
        &&& self.pending is Some ==> self.pending_shard < self.groups.len()
    }
}

impl<T> RestoreGroups<T> {
    pub closed spec fn view(&self) -> GroupsModel<T> {
        GroupsModel {
            groups: deque_views(self.groups@),
            scratch: self.scratch@,
            scratch_shard: self.scratch_shard,
            unused: self.unused@,
            pending: self.pending,
            pending_shard: self.pending_shard,
        }
    }

    pub fn new(groups: Vec<Vec<T>>, unused: Vec<T>) -> (g: Self)
        ensures
            g@.groups == vec_views(groups@),
            g@.scratch.len() == 0,
            g@.unused == unused@,
            g@.pending is None,
            g@.sound(),
    {
        let ghost all = groups@;
        let mut rest = turned(groups);
        let mut queues: Vec<VecDeque<T>> = Vec::with_capacity(rest.len());
        while rest.len() > 0
            invariant
                queues@.len() + rest@.len() == all.len(),
                forall|i: int| 0 <= i < rest@.len() ==> #[trigger] rest@[i] == all[all.len() - 1 - i],
                forall|i: int| 0 <= i < queues@.len() ==> (#[trigger] queues@[i])@ == all[i]@,
            decreases rest@.len(),
        {
            match rest.pop() {
                Some(g) => queues.push(queue_of(g)),
                None => {},
            }
        }
        assert(deque_views(queues@) =~= vec_views(all));
        RestoreGroups {
            groups: queues,
            scratch: Vec::new(),
            scratch_shard: 0,
            unused,
            pending: None,
            pending_shard: 0,
        }
    }

    pub fn num_groups(&self) -> (n: usize)
        ensures
            n == self@.groups.len(),
    {
        self.groups.len()
    }

    pub fn is_group_empty(&self, shard: usize) -> (b: bool)
        requires
            shard < self@.groups.len(),
        ensures
            b == (self@.groups[shard as int].len() == 0),
    {
        self.groups[shard].len() == 0
    }

    /// The item whose turn it is.
    pub fn head(&self, shard: usize) -> (r: &T)
        requires
            shard < self@.groups.len(),
            self@.groups[shard as int].len() > 0,
        ensures
            *r == self@.groups[shard as int][0],
    {
        &self.groups[shard][0]
    }

    /// Moves up to `max` items from the front of a group to the staging buffer and lends
    /// that out.
    pub fn bulk_stage(&mut self, shard: usize, max: usize) -> (r: &mut Vec<T>)
        requires
            shard < old(self)@.groups.len(),
            old(self)@.scratch.len() == 0,
        ensures
            ({
                let g = old(self)@.groups[shard as int];
                let n = if max < g.len() {
                    max as int
                } else {
                    g.len() as int
                };
                &&& r@ == g.subrange(0, n)
                &&& final(self)@ == (GroupsModel {
                    groups: old(self)@.groups.update(shard as int, g.subrange(n, g.len() as int)),
                    scratch: final(r)@,
                    scratch_shard: shard,
                    ..old(self)@
                })
            }),
    {
        let ghost pre = self@;
        let ghost g = self.groups@[shard as int]@;
        let len: usize = self.groups[shard].len();
        let n: usize = if max < len { max } else { len };
        let mut i: usize = 0;
        let mut staged: Vec<T> = Vec::with_capacity(n);
        proof {
            assert(g.subrange(0, 0) =~= Seq::empty());
            assert(g.subrange(0, g.len() as int) =~= g);
            assert(pre.groups =~= pre.groups.update(shard as int, g));
        }
        while i < n
            invariant
                i <= n,
                n <= g.len(),
                shard < self.groups@.len(),
                staged@ == g.subrange(0, i as int),
                self.groups@[shard as int]@ == g.subrange(i as int, g.len() as int),
                self@ == (GroupsModel {
                    groups: pre.groups.update(
                        shard as int,
                        g.subrange(i as int, g.len() as int),
                    ),
                    ..pre
                }),
                self.groups@.len() == pre.groups.len(),
            decreases n - i,
        {
            let ghost mid = self.groups@;
            match self.groups[shard].pop_front() {
                Some(v) => {
                    proof {
                        assert(v == g[i as int]);
                        assert(g.subrange(0, i + 1) =~= g.subrange(0, i as int).push(v));
                        assert(g.subrange(i as int, g.len() as int).subrange(
                            1,
                            g.len() - i,
                        ) =~= g.subrange(i + 1, g.len() as int));
                    }
                    staged.push(v);
                    assert(deque_views(self.groups@) =~= deque_views(mid).update(
                        shard as int,
                        self.groups@[shard as int]@,
                    ));
                    assert(deque_views(self.groups@) =~= pre.groups.update(
                        shard as int,
                        g.subrange(i + 1, g.len() as int),
                    ));
                },
                None => {},
            }
            i = i + 1;
        }
        self.scratch = staged;
        self.scratch_shard = shard;
        &mut self.scratch
    }

    /// Puts what is left in the staging buffer back to the front of its group, in order.
    pub fn bulk_return(&mut self)
        requires
            old(self)@.scratch_shard < old(self)@.groups.len(),
        ensures
            ({
                let s = old(self)@.scratch_shard as int;
                final(self)@ == (GroupsModel {
                    groups: old(self)@.groups.update(
                        s,
                        old(self)@.scratch + old(self)@.groups[s],
                    ),
                    scratch: Seq::empty(),
                    ..old(self)@
                })
            }),
    {
        let ghost pre = self@;
        let s: usize = self.scratch_shard;
        let ghost st = self.scratch@;
        let ghost g = self.groups@[s as int]@;
        proof {
            assert(st.subrange(0, st.len() as int) =~= st);
            assert(g =~= st.subrange(st.len() as int, st.len() as int) + g);
            assert(pre.groups =~= pre.groups.update(s as int, g));
        }
        while self.scratch.len() > 0
            invariant
                s < self.groups@.len(),
                self.scratch@.len() <= st.len(),
                self.scratch@ == st.subrange(0, self.scratch@.len() as int),
                self.scratch_shard == s,
                self@ == (GroupsModel {
                    groups: pre.groups.update(
                        s as int,
                        st.subrange(self.scratch@.len() as int, st.len() as int) + g,
                    ),
                    scratch: self.scratch@,
                    ..pre
                }),
                self.groups@[s as int]@ == st.subrange(self.scratch@.len() as int, st.len() as int)
                    + g,
                self.groups@.len() == pre.groups.len(),
            decreases self.scratch@.len(),
        {
            match self.scratch.pop() {
                Some(v) => {
                    let ghost n = self.scratch@.len() as int;
                    let ghost mid = self.groups@;
                    self.groups[s].push_front(v);
                    proof {
                        assert(deque_views(self.groups@) =~= deque_views(mid).update(
                            s as int,
                            self.groups@[s as int]@,
                        ));
                        assert(self.scratch@ =~= st.subrange(0, n));
                        assert(v == st[n]);
                        assert(seq![v] + (st.subrange(n + 1, st.len() as int) + g) =~= st.subrange(
                            n,
                            st.len() as int,
                        ) + g);
                        assert(deque_views(self.groups@) =~= pre.groups.update(
                            s as int,
                            st.subrange(n, st.len() as int) + g,
                        ));
                    }
                },
                None => {},
            }
        }
        assert(self.scratch@ =~= Seq::empty());
        assert(st.subrange(0, st.len() as int) =~= st);
    }

    /// Sets the item of a group whose turn it is on its way, and lends out its place.
    pub fn take_head(&mut self, shard: usize) -> (r: &mut Option<T>)
        requires
            shard < old(self)@.groups.len(),
            old(self)@.groups[shard as int].len() > 0,
            old(self)@.pending is None,
        ensures
            ({
                let g = old(self)@.groups[shard as int];
                &&& *r == Some(g[0])
                &&& final(self)@ == (GroupsModel {
                    groups: old(self)@.groups.update(shard as int, g.drop_first()),
                    pending: *final(r),
                    pending_shard: shard,
                    ..old(self)@
                })
            }),
    {
        let ghost pre = self@;
        let ghost g = self.groups@[shard as int]@;
        let head = self.groups[shard].pop_front();
        proof {
            assert(deque_views(self.groups@) =~= pre.groups.update(shard as int, g.drop_first()));
        }
        self.pending = head;
        self.pending_shard = shard;
        &mut self.pending
    }

    /// There is an item on its way.
    pub fn is_pending(&self) -> (b: bool)
        ensures
            b == (self@.pending is Some),
    {
        self.pending.is_some()
    }

    /// The place of the item on its way.
    pub fn pending_slot(&mut self) -> (r: &mut Option<T>)
        ensures
            *r == old(self)@.pending,
            final(self)@ == (GroupsModel { pending: *final(r), ..old(self)@ }),
    {
        &mut self.pending
    }

    /// Puts everything that was not sent back into `buf`: what waits for each shard, in
    /// order, then what belongs to no shard.
    pub fn restore(self, buf: &mut Vec<T>)
        requires
            self@.sound(),
        ensures
            final(buf)@ == old(buf)@ + joined(self@.by_shard()) + self@.unused,
    {
        let ghost m = self@;
        let ghost b0 = buf@;
        let mut this = self;
        if this.scratch.len() > 0 {
            this.bulk_return();
        }
        let ghost m1 = this@;
        proof {
            assert(m1.groups.len() == m.groups.len());
            assert(this.groups@.len() == m1.groups.len());
            if m.scratch.len() == 0 {
                assert(m.scratch =~= Seq::empty());
            }
        }
        let p: Option<T> = this.pending.take();
        match p {
            Some(v) => {
                let s: usize = this.pending_shard;
                let ghost mid = this.groups@;
                let ghost g = this.groups@[s as int]@;
                this.groups[s].push_front(v);
                assert(deque_views(this.groups@) =~= deque_views(mid).update(
                    s as int,
                    this.groups@[s as int]@,
                ));
                assert(deque_views(this.groups@) =~= m1.groups.update(s as int, seq![v] + g));
            },
            None => {},
        }
        proof {
            assert forall|s: int| 0 <= s < m.groups.len() implies this@.groups[s] == m.by_shard()[s] by {
                let staged = if m.scratch_shard == s {
                    m.scratch
                } else {
                    Seq::empty()
                };
                assert(m1.groups[s] =~= staged + m.groups[s]);
                match m.pending {
                    Some(v) => {
                        if m.pending_shard == s {
                            assert(this@.groups[s] == seq![v] + m1.groups[s]);
                        } else {
                            assert(this@.groups[s] == m1.groups[s]);
                        }
                    },
                    None => {
                        assert(this@.groups[s] == m1.groups[s]);
                    },
                }
                assert(this@.groups[s] =~= m.of_shard(s));
            }
            assert(this@.groups =~= m.by_shard());
        }
        let RestoreGroups { groups, scratch, scratch_shard, unused, pending, pending_shard } = this;
        let mut unused = unused;
        let mut groups = groups;
        let ghost all = groups@;
        let n: usize = groups.len();
        let mut k: usize = 0;
        proof {
            assert(deque_views(all).subrange(0, 0) =~= Seq::empty());
            assert(b0 =~= b0 + joined(deque_views(all).subrange(0, 0)));
        }
        while k < n
            invariant
                k <= n,
                n == all.len(),
                groups@.len() == n,
                forall|i: int| k <= i < n ==> #[trigger] groups@[i] == all[i],
                buf@ == b0 + joined(deque_views(all).subrange(0, k as int)),
            decreases n - k,
        {
            proof {
                let s = deque_views(all).subrange(0, k + 1);
                assert(s.drop_last() =~= deque_views(all).subrange(0, k as int));
                assert(s.last() == all[k as int]@);
                assert(b0 + joined(s) =~= b0 + joined(s.drop_last()) + all[k as int]@);
            }
            pour(&mut groups[k], buf);
            k = k + 1;
        }
        proof {
            assert(deque_views(all).subrange(0, n as int) =~= deque_views(all));
        }
        buf.append(&mut unused);
    }
}

/// Moves all items of a queue to the end of `buf`.
fn pour<T>(q: &mut VecDeque<T>, buf: &mut Vec<T>)
    ensures
        final(q)@.len() == 0,
        final(buf)@ == old(buf)@ + old(q)@,
{
    let ghost all = q@;
    let ghost b0 = buf@;
    let ghost mut k: int = 0;
    proof {
        assert(all.subrange(0, all.len() as int) =~= all);
        assert(b0 =~= b0 + all.subrange(0, 0));
    }
    while q.len() > 0
        invariant
            0 <= k <= all.len(),
            q@ == all.subrange(k, all.len() as int),
            buf@ == b0 + all.subrange(0, k),
        decreases q@.len(),
    {
        match q.pop_front() {
            Some(v) => {
                proof {
                    assert(v == all[k]);
                    assert(all.subrange(k, all.len() as int).subrange(1, all.len() - k)
                        =~= all.subrange(k + 1, all.len() as int));
                    assert(b0 + all.subrange(0, k + 1) =~= (b0 + all.subrange(0, k)).push(v));
                    k = k + 1;
                }
                buf.push(v);
            },
            None => {},
        }
    }
    assert(all.subrange(0, k) =~= all);
}

/// A queue of the items of a vector.
fn queue_of<T>(items: Vec<T>) -> (q: VecDeque<T>)
    ensures
        q@ == items@,
{
    let ghost all = items@;
    let mut items = items;
    let mut q: VecDeque<T> = VecDeque::with_capacity(items.len());
    while items.len() > 0
        invariant
            items@ == all.subrange(0, items@.len() as int),
            items@.len() <= all.len(),
            q@ == all.subrange(items@.len() as int, all.len() as int),
        decreases items@.len(),
    {
        match items.pop() {
            Some(v) => {
                proof {
                    let n = items@.len() as int;
                    assert(items@ =~= all.subrange(0, n));
                    assert(seq![v] + all.subrange(n + 1, all.len() as int) =~= all.subrange(
                        n,
                        all.len() as int,
                    ));
                }
                q.push_front(v);
            },
            None => {},
        }
    }
    assert(q@ =~= all);
    q
}

} // verus!
