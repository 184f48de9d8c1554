use vstd::prelude::*;

verus! {

/// A node of a [`SyncRawList`]: who to wake, and the neighbours while it is linked.
pub struct SyncNode<W> {
    kind: Option<W>,
    prev: Option<usize>,
    next: Option<usize>,
    in_list: bool,
}

/// A doubly linked list of waiters with removal from the middle in constant time.
///
/// The nodes live in an arena and are named by their index, so a waiter can keep the
/// name of its node and unlink it later, whether or not it was woken meanwhile. The view
/// lists the linked nodes in order, each with who it wakes, and the nodes that are
/// allocated but not linked.
pub struct SyncRawList<W> {
    nodes: Vec<SyncNode<W>>,
    free: Vec<usize>,
    head: Option<usize>,
    tail: Option<usize>,
    order: Ghost<Seq<usize>>,
    idle: Ghost<Set<usize>>,
}

/// What a [`SyncRawList`] holds.
pub struct ListModel<W> {
    /// The linked nodes, oldest first.
    pub linked: Seq<(usize, W)>,
    /// The allocated nodes that are not linked.
    pub idle: Set<usize>,
}

impl<W> ListModel<W> {
    /// Where node `id` stands in the list, if it is linked.
    pub open spec fn at(self, id: usize, k: int) -> bool {
        0 <= k < self.linked.len() && self.linked[k].0 == id
    }

    /// Node `id` is linked.
    pub open spec fn has(self, id: usize) -> bool {
        exists|k: int| self.at(id, k)
    }

    /// Node `id` is allocated, linked or not.
    pub open spec fn holds(self, id: usize) -> bool {
        self.idle.contains(id) || self.has(id)
    }

    /// No node is allocated.
    pub open spec fn empty() -> Self {
        ListModel { linked: Seq::empty(), idle: Set::empty() }
    }

    /// The list with a new node `id` at the back.
    pub open spec fn joined_by(self, id: usize, target: W) -> Self {
        ListModel { linked: self.linked.push((id, target)), idle: self.idle }
    }

    /// The list with node `id` gone, linked or not.
    pub open spec fn left_by(self, id: usize) -> Self {
        ListModel { linked: without(self.linked, id), idle: self.idle.remove(id) }
    }

    /// The list with its oldest node unlinked, and who that node wakes.
    pub open spec fn first_out(self) -> (Self, Option<W>) {
        if self.linked.len() == 0 {
            (self, None)
        } else {
            (
                ListModel {
                    linked: self.linked.drop_first(),
                    idle: self.idle.insert(self.linked[0].0),
                },
                Some(self.linked[0].1),
            )
        }
    }

    /// The list with all nodes unlinked.
    pub open spec fn all_out(self) -> Self {
        ListModel { linked: Seq::empty(), idle: Set::new(|id: usize| self.holds(id)) }
    }

    /// Node `id` waits with `target` from now on: in its old place if it is linked, at the
    /// back if not.
    pub open spec fn retargeted(self, id: usize, target: W) -> Self {
        if self.has(id) {
            ListModel {
                linked: self.linked.map_values(
                    |p: (usize, W)|
                        if p.0 == id {
                            (id, target)
                        } else {
                            p
                        },
                ),
                idle: self.idle,
            }
        } else {
            ListModel { linked: self.linked.push((id, target)), idle: self.idle.remove(id) }
        }
    }

    /// The linked nodes are distinct, and none of them is idle.
    pub open spec fn sound(self) -> bool {
        &&& forall|i: int, j: int|
            0 <= i < j < self.linked.len() ==> self.linked[i].0 != self.linked[j].0
        &&& forall|k: int|
            0 <= k < self.linked.len() ==> !self.idle.contains((#[trigger] self.linked[k]).0)
    }

    /// The wake targets, oldest first.
    pub open spec fn targets(self) -> Seq<W> {
        self.linked.map_values(|p: (usize, W)| p.1)
    }
}

/// The linked nodes without node `id`.
pub open spec fn without<W>(s: Seq<(usize, W)>, id: usize) -> Seq<(usize, W)>
    decreases s.len(),
{
    if s.len() == 0 {
        s
    } else if s.last().0 == id {
        s.drop_last()
    } else {
        without(s.drop_last(), id).push(s.last())
    }
}

/// Leaving out the node at place `k` is removing that place.
pub proof fn lemma_without<W>(s: Seq<(usize, W)>, id: usize, k: int)
    requires
        0 <= k < s.len(),
        s[k].0 == id,
        forall|i: int, j: int| 0 <= i < j < s.len() ==> s[i].0 != s[j].0,
    ensures
        without(s, id) == s.remove(k),
    decreases s.len(),
{
    if s.last().0 == id {
        assert(k == s.len() - 1);
        assert(s.remove(k) =~= s.drop_last());
    } else {
        lemma_without(s.drop_last(), id, k);
        assert(s.drop_last().remove(k).push(s.last()) =~= s.remove(k));
    }
}

/// Leaving out a node that is not there changes nothing.
pub proof fn lemma_without_absent<W>(s: Seq<(usize, W)>, id: usize)
    requires
        forall|k: int| 0 <= k < s.len() ==> (#[trigger] s[k]).0 != id,
    ensures
        without(s, id) == s,
    decreases s.len(),
{
    if s.len() > 0 {
        lemma_without_absent(s.drop_last(), id);
        assert(s.drop_last().push(s.last()) =~= s);
    }
}

/// Leaving out one node keeps every other.
pub proof fn lemma_without_keeps<W>(s: Seq<(usize, W)>, id: usize, other: usize, k: int)
    requires
        0 <= k < s.len(),
        s[k].0 == id,
        id != other,
    ensures
        exists|j: int| 0 <= j < without(s, other).len() && without(s, other)[j].0 == id,
    decreases s.len(),
{
    let w = without(s, other);
    if s.last().0 == other {
        assert(w[k].0 == id);
    } else if k == s.len() - 1 {
        assert(w[w.len() - 1].0 == id);
    } else {
        lemma_without_keeps(s.drop_last(), id, other, k);
        let j = choose|j: int|
            0 <= j < without(s.drop_last(), other).len() && without(s.drop_last(), other)[j].0 == id;
        assert(w[j].0 == id);
    }
}

/// Everybody in the line `s` but node `id`, in order.
pub open spec fn others<W>(s: Seq<(usize, W)>, id: usize) -> Seq<(usize, W)> {
    s.filter(|p: (usize, W)| p.0 != id)
}

/// A waiter that leaves is gone, and takes nobody else's place: the others stand as before, in
/// order.
pub proof fn law_leaving_keeps_the_others<W>(l: ListModel<W>, id: usize)
    requires
        l.sound(),
    ensures
        l.left_by(id).linked == others(l.linked, id),
        !l.left_by(id).holds(id),
        forall|other: usize|
            other != id ==> (#[trigger] l.left_by(id).idle.contains(other) <==> l.idle.contains(
                other,
            )),
        forall|k: int|
            l.at(id, k) ==> l.left_by(id).linked == #[trigger] l.linked.remove(k),
{
    lemma_without_filter(l.linked, id);
    assert forall|k: int| l.at(id, k) implies l.left_by(id).linked == #[trigger] l.linked.remove(
        k,
    ) by {
        lemma_without(l.linked, id, k);
    }
    if l.left_by(id).has(id) {
        let k = choose|k: int| l.left_by(id).at(id, k);
        if l.has(id) {
            let j = choose|j: int| l.at(id, j);
            lemma_without(l.linked, id, j);
            assert(l.linked.remove(j)[k].0 == id);
        } else {
            assert forall|j: int| 0 <= j < l.linked.len() implies (#[trigger] l.linked[j]).0 != id by {
                assert(!l.at(id, j));
            }
            lemma_without_absent(l.linked, id);
            assert(l.at(id, k));
        }
    }
}

pub proof fn lemma_without_filter<W>(s: Seq<(usize, W)>, id: usize)
    requires
        forall|i: int, j: int| 0 <= i < j < s.len() ==> s[i].0 != s[j].0,
    ensures
        without(s, id) == others(s, id),
    decreases s.len(),
{
    reveal(Seq::filter);
    if s.len() > 0 {
        let t = s.drop_last();
        lemma_without_filter(t, id);
        if s.last().0 == id {
            assert forall|k: int| 0 <= k < t.len() implies (#[trigger] t[k]).0 != id by {
                assert(s[k].0 != s[s.len() - 1].0);
            }
            lemma_without_absent(t, id);
            assert(without(s, id) == t);
        }
    }
}

/// A waiter that waits again keeps its place and only changes whom to wake, if it still has
/// one, and goes to the back if not; nobody else moves.
pub proof fn law_waiting_again_keeps_the_place<W>(l: ListModel<W>, id: usize, target: W)
    requires
        l.sound(),
    ensures
        !l.has(id) ==> l.retargeted(id, target).linked == l.linked.push((id, target)),
        forall|k: int|
            #[trigger] l.at(id, k) ==> l.retargeted(id, target).linked == l.linked.update(
                k,
                (id, target),
            ),
        l.retargeted(id, target).has(id),
        l.joined_by(id, target).linked == l.linked.push((id, target)),
{
    assert forall|k: int| #[trigger] l.at(id, k) implies l.retargeted(id, target).linked
        == l.linked.update(k, (id, target)) by {
        assert(l.has(id));
        assert forall|j: int| 0 <= j < l.linked.len() && j != k implies (
        #[trigger] l.linked[j]).0 != id by {
            if j < k {
                assert(l.linked[j].0 != l.linked[k].0);
            } else {
                assert(l.linked[k].0 != l.linked[j].0);
            }
        }
        assert(l.retargeted(id, target).linked =~= l.linked.update(k, (id, target)));
    }
    if l.has(id) {
        let k = choose|k: int| l.at(id, k);
        assert(l.retargeted(id, target).at(id, k));
    } else {
        assert(l.retargeted(id, target).at(id, l.linked.len() as int));
    }
}

/// The waiter that has waited longest is woken first, and waking all wakes each once, by age.
/// Whoever was woken keeps the node until it gives it up.
pub proof fn law_waking_goes_by_age<W>(l: ListModel<W>, k: int)
    requires
        0 <= k < l.linked.len(),
    ensures
        l.first_out().1 == Some(l.linked[0].1),
        l.first_out().0.linked == l.linked.subrange(1, l.linked.len() as int),
        l.first_out().0.idle == l.idle.insert(l.linked[0].0),
        l.targets().len() == l.linked.len(),
        l.targets()[k] == l.linked[k].1,
        l.all_out().linked.len() == 0,
        l.all_out().idle.contains(l.linked[k].0),
{
    assert(l.at(l.linked[k].0, k));
    assert(l.first_out().0.linked =~= l.linked.subrange(1, l.linked.len() as int));
}

/// Distinct names below `n` are at most `n` many.
pub proof fn lemma_distinct_names(s: Seq<usize>, n: nat)
    requires
        s.no_duplicates(),
        forall|k: int| 0 <= k < s.len() ==> (#[trigger] s[k]) < n,
    ensures
        s.len() <= n,
    decreases n,
{
    if n == 0 {
        if s.len() > 0 {
            assert(s[0] < n);
        }
    } else if exists|k: int| 0 <= k < s.len() && s[k] == n - 1 {
        let k = choose|k: int| 0 <= k < s.len() && s[k] == n - 1;
        let t = s.remove(k);
        assert forall|i: int| 0 <= i < t.len() implies (#[trigger] t[i]) < n - 1 by {
            let m = if i < k { i } else { i + 1 };
            assert(t[i] == s[m]);
            assert(s[m] != s[k]);
        }
        assert forall|i: int, j: int| 0 <= i < t.len() && 0 <= j < t.len() && i != j implies t[i] != t[j] by {
            let mi = if i < k { i } else { i + 1 };
            let mj = if j < k { j } else { j + 1 };
            assert(s[mi] != s[mj]);
        }
        lemma_distinct_names(t, (n - 1) as nat);
    } else {
        assert forall|k: int| 0 <= k < s.len() implies (#[trigger] s[k]) < n - 1 by {}
        lemma_distinct_names(s, (n - 1) as nat);
    }
}

impl<W> SyncRawList<W> {
    pub closed spec fn view(&self) -> ListModel<W> {
        ListModel {
            linked: Seq::new(
                self.order@.len(),
                |k: int| (self.order@[k], self.nodes@[self.order@[k] as int].kind->Some_0),
            ),
            idle: self.idle@,
        }
    }

    spec fn linked_at(&self, k: int) -> bool {
        let o = self.order@;
        let id = o[k];
        &&& id < self.nodes@.len()
        &&& self.nodes@[id as int].in_list
        &&& self.nodes@[id as int].kind is Some
        &&& self.nodes@[id as int].prev == if k == 0 { None } else { Some(o[k - 1]) }
        &&& self.nodes@[id as int].next == if k + 1 == o.len() { None } else { Some(o[k + 1]) }
    }

    /// The links form one chain, and no node is both linked and idle.
    pub closed spec fn wf(&self) -> bool {
        let o = self.order@;
        &&& o.no_duplicates()
        &&& forall|k: int| 0 <= k < o.len() ==> #[trigger] self.linked_at(k)
        &&& self.head == if o.len() == 0 { None } else { Some(o[0]) }
        &&& self.tail == if o.len() == 0 { None } else { Some(o.last()) }
        &&& forall|i: usize|
            i < self.nodes@.len() && (#[trigger] self.nodes@[i as int]).in_list ==> o.contains(i)
        &&& self.free@.no_duplicates()
        &&& forall|j: int| 0 <= j < self.free@.len() ==> {
            let i = #[trigger] self.free@[j];
            &&& i < self.nodes@.len()
            &&& !self.nodes@[i as int].in_list
            &&& !self.idle@.contains(i)
        }
        &&& forall|i: usize| #[trigger] self.idle@.contains(i) ==> i < self.nodes@.len() && !self.nodes@[i as int].in_list
    }

    /// The linked nodes are distinct, none of them is idle, and a `usize` counts them.
    pub proof fn lemma_wf(&self)
        requires
            self.wf(),
        ensures
            forall|i: int, j: int|
                0 <= i < j < self@.linked.len() ==> self@.linked[i].0 != self@.linked[j].0,
            forall|k: int|
                0 <= k < self@.linked.len() ==> !self@.idle.contains((#[trigger] self@.linked[k]).0),
            self@.linked.len() <= usize::MAX,
    {
        assert forall|k: int| 0 <= k < self.order@.len() implies (#[trigger] self.order@[k]) < self.nodes.len() by {
            assert(self.linked_at(k));
        }
        lemma_distinct_names(self.order@, self.nodes.len() as nat);
        assert forall|k: int| 0 <= k < self@.linked.len() implies !self@.idle.contains(
            (#[trigger] self@.linked[k]).0,
        ) by {
            assert(self.linked_at(k));
        }
    }

    pub fn new() -> (l: Self)
        ensures
            l.wf(),
            l@ == ListModel::<W>::empty(),
    {
        let l = SyncRawList {
            nodes: Vec::new(),
            free: Vec::new(),
            head: None,
            tail: None,
            order: Ghost(Seq::empty()),
            idle: Ghost(Set::empty()),
        };
        assert(l@.linked =~= Seq::empty());
        l
    }

    /// A new node, not linked.
    pub fn new_node(&mut self) -> (id: usize)
        requires
            old(self).wf(),
        ensures
            final(self).wf(),
            !old(self)@.holds(id),
            final(self)@.linked == old(self)@.linked,
            final(self)@.idle == old(self)@.idle.insert(id),
    {
        let ghost pre = *self;
        let id: usize = match self.free.pop() {
            Some(id) => id,
            None => {
                let id: usize = self.nodes.len();
                self.nodes.push(SyncNode { kind: None, prev: None, next: None, in_list: false });
                id
            },
        };
        self.idle = Ghost(self.idle@.insert(id));
        proof {
            assert forall|k: int| 0 <= k < self.order@.len() implies #[trigger] self.linked_at(k) by {
                assert(pre.linked_at(k));
            }
            assert forall|k: int| #[trigger] pre@.at(id, k) implies false by {
                assert(pre.linked_at(k));
            }
            assert forall|k: int| 0 <= k < self.order@.len() implies self@.linked[k] == pre@.linked[k] by {
                assert(pre.linked_at(k));
            }
            assert(self@.linked =~= pre@.linked);
        }
        id
    }

    /// Node `id` is linked.
    pub fn is_in_list(&self, id: usize) -> (b: bool)
        requires
            self.wf(),
            self@.holds(id),
        ensures
            b == self@.has(id),
    {
        proof {
            if self@.idle.contains(id) {
                assert forall|k: int| #[trigger] self@.at(id, k) implies false by {
                    assert(self.linked_at(k));
                }
            } else {
                let k = choose|k: int| self@.at(id, k);
                assert(self.linked_at(k));
            }
        }
        self.nodes[id].in_list
    }

    /// Links idle node `id` at the back, to wake `kind`.
    pub fn push_back(&mut self, id: usize, kind: W)
        requires
            old(self).wf(),
            old(self)@.idle.contains(id),
        ensures
            final(self).wf(),
            final(self)@.linked == old(self)@.linked.push((id, kind)),
            final(self)@.idle == old(self)@.idle.remove(id),
    {
        let ghost pre = *self;
        let ghost o = self.order@;
        proof {
            if o.len() > 0 {
                assert(pre.linked_at(o.len() - 1));
            }
            assert forall|k: int| 0 <= k < o.len() implies o[k] != id by {
                assert(pre.linked_at(k));
            }
        }
        let node = SyncNode { kind: Some(kind), prev: self.tail, next: None, in_list: true };
        self.nodes.set(id, node);
        match self.tail {
            None => {
                self.head = Some(id);
            },
            Some(t) => {
                self.nodes[t].next = Some(id);
            },
        }
        self.tail = Some(id);
        self.order = Ghost(self.order@.push(id));
        self.idle = Ghost(self.idle@.remove(id));
        proof {
            let o2 = self.order@;
            assert forall|k: int| 0 <= k < o2.len() implies #[trigger] self.linked_at(k) by {
                if k < o.len() {
                    assert(pre.linked_at(k));
                    if k + 1 < o.len() {
                        assert(o[k] != o[o.len() - 1]);
                    }
                }
            }
            assert forall|i: usize|
                i < self.nodes@.len() && (#[trigger] self.nodes@[i as int]).in_list implies o2.contains(i) by {
                if i == id {
                    assert(o2[o.len() as int] == i);
                } else {
                    assert(pre.nodes@[i as int].in_list);
                    let k = choose|k: int| 0 <= k < o.len() && o[k] == i;
                    assert(o2[k] == i);
                }
            }
            assert forall|k: int| 0 <= k < o.len() implies self@.linked[k] == pre@.linked[k] by {
                assert(pre.linked_at(k));
                assert(self.linked_at(k));
            }
            assert(self@.linked =~= pre@.linked.push((id, kind)));
        }
    }

    /// Unlinks node `id`; does nothing if it is not linked.
    pub fn remove(&mut self, id: usize)
        requires
            old(self).wf(),
            old(self)@.holds(id),
        ensures
            final(self).wf(),
            final(self)@.linked == without(old(self)@.linked, id),
            final(self)@.idle == old(self)@.idle.insert(id),
            !final(self)@.has(id),
    {
        if !self.is_in_list(id) {
            proof {
                assert forall|k: int| 0 <= k < self@.linked.len() implies (#[trigger] self@.linked[k]).0 != id by {
                    if self@.linked[k].0 == id {
                        assert(self@.at(id, k));
                    }
                }
                lemma_without_absent(self@.linked, id);
                assert(self.idle@.insert(id) =~= self.idle@);
            }
            return;
        }
        let ghost k = choose|k: int| self@.at(id, k);
        proof {
            self.lemma_wf();
            lemma_without(self@.linked, id, k);
        }
        self.unlink(id, Ghost(k));
    }

    /// `self` is `pre` with the node at place `k` taken out of the chain.
    spec fn is_unlinked(&self, pre: &Self, k: int) -> bool {
        let o = pre.order@;
        let id = o[k];
        let prev = pre.nodes@[id as int].prev;
        let next = pre.nodes@[id as int].next;
        &&& self.free == pre.free
        &&& self.order@ == o.remove(k)
        &&& self.idle@ == pre.idle@.insert(id)
        &&& self.head == if prev is None { next } else { pre.head }
        &&& self.tail == if next is None { prev } else { pre.tail }
        &&& self.nodes@.len() == pre.nodes@.len()
        &&& forall|i: usize|
            i < pre.nodes@.len() ==> {
                let a = pre.nodes@[i as int];
                let b = #[trigger] self.nodes@[i as int];
                &&& b.kind == a.kind
                &&& b.in_list == (a.in_list && i != id)
                &&& i != id ==> b.next == if prev == Some(i) { next } else { a.next }
                &&& i != id ==> b.prev == if next == Some(i) { prev } else { a.prev }
            }
    }

    proof fn lemma_unlinked(&self, pre: &Self, k: int)
        requires
            pre.wf(),
            0 <= k < pre.order@.len(),
            self.is_unlinked(pre, k),
        ensures
            self.wf(),
            self@.linked == pre@.linked.remove(k),
            !self@.has(pre.order@[k]),
    {
        let o = pre.order@;
        let o2 = self.order@;
        let id = o[k];
        assert(pre.linked_at(k));
        assert forall|j: int| 0 <= j < o2.len() implies #[trigger] self.linked_at(j) by {
            let m = if j < k { j } else { j + 1 };
            assert(pre.linked_at(m));
            assert(o2[j] == o[m]);
            assert(o[m] != o[k]);
            if j > 0 {
                let m1 = if j - 1 < k { j - 1 } else { j };
                assert(o2[j - 1] == o[m1]);
            }
            if j + 1 < o2.len() {
                let m1 = if j + 1 < k { j + 1 } else { j + 2 };
                assert(o2[j + 1] == o[m1]);
            }
            if k > 0 {
                assert(o[k - 1] == o[m] <==> k - 1 == m);
            }
            if k + 1 < o.len() {
                assert(o[k + 1] == o[m] <==> k + 1 == m);
            }
        }
        assert forall|i: int, j: int| 0 <= i < o2.len() && 0 <= j < o2.len() && i != j implies o2[i] != o2[j] by {
            let mi = if i < k { i } else { i + 1 };
            let mj = if j < k { j } else { j + 1 };
            assert(o[mi] != o[mj]);
        }
        assert forall|i: usize|
            i < self.nodes@.len() && (#[trigger] self.nodes@[i as int]).in_list implies o2.contains(i) by {
            assert(pre.nodes@[i as int].in_list);
            let m = choose|m: int| 0 <= m < o.len() && o[m] == i;
            assert(pre.linked_at(m));
            let j = if m < k { m } else { m - 1 };
            assert(o2[j] == i);
        }
        assert forall|j: int| 0 <= j < o2.len() implies self@.linked[j] == pre@.linked.remove(k)[j] by {
            let m = if j < k { j } else { j + 1 };
            assert(pre.linked_at(m));
            assert(self.linked_at(j));
        }
        assert(self@.linked =~= pre@.linked.remove(k));
        assert forall|j: int| #[trigger] self@.at(id, j) implies false by {
            assert(self.linked_at(j));
        }
    }

    fn unlink(&mut self, id: usize, k: Ghost<int>)
        requires
            old(self).wf(),
            0 <= k@ < old(self).order@.len(),
            old(self).order@[k@] == id,
        ensures
            final(self).wf(),
            final(self)@.linked == old(self)@.linked.remove(k@),
            final(self)@.idle == old(self)@.idle.insert(id),
            !final(self)@.has(id),
            id < final(self).nodes@.len(),
            final(self).nodes@[id as int].kind == old(self).nodes@[id as int].kind,
    {
        let ghost pre = *self;
        let ghost o = self.order@;
        proof {
            assert(pre.linked_at(k@));
            if k@ > 0 {
                assert(pre.linked_at(k@ - 1));
            }
            if k@ + 1 < o.len() {
                assert(pre.linked_at(k@ + 1));
            }
        }
        let prev = self.nodes[id].prev;
        let next = self.nodes[id].next;
        match prev {
            None => {
                self.head = next;
            },
            Some(p) => {
                self.nodes[p].next = next;
            },
        }
        match next {
            None => {
                self.tail = prev;
            },
            Some(n) => {
                self.nodes[n].prev = prev;
            },
        }
        self.nodes[id].in_list = false;
        self.nodes[id].prev = None;
        self.nodes[id].next = None;
        self.order = Ghost(self.order@.remove(k@));
        self.idle = Ghost(self.idle@.insert(id));
        proof {
            assert(self.is_unlinked(&pre, k@));
            self.lemma_unlinked(&pre, k@);
        }
    }

    /// Unlinks the oldest node and hands out who it wakes.
    pub fn pop_front(&mut self) -> (r: Option<W>)
        requires
            old(self).wf(),
        ensures
            final(self).wf(),
            r is None <==> old(self)@.linked.len() == 0,
            r is None ==> final(self)@ == old(self)@,
            r is Some ==> {
                &&& r == Some(old(self)@.linked[0].1)
                &&& final(self)@.linked == old(self)@.linked.drop_first()
                &&& final(self)@.idle == old(self)@.idle.insert(old(self)@.linked[0].0)
            },
    {
        let ghost pre = *self;
        match self.head {
            None => None,
            Some(id) => {
                proof {
                    assert(pre.linked_at(0));
                    assert(pre@.linked.remove(0) =~= pre@.linked.drop_first());
                }
                self.unlink(id, Ghost(0));
                self.take_kind(id)
            },
        }
    }

    /// Takes out who an idle node would have woken.
    fn take_kind(&mut self, id: usize) -> (r: Option<W>)
        requires
            old(self).wf(),
            old(self)@.idle.contains(id),
        ensures
            final(self).wf(),
            final(self)@ == old(self)@,
            r == old(self).nodes@[id as int].kind,
    {
        let ghost pre = *self;
        let kind = self.nodes[id].kind.take();
        proof {
            assert forall|k: int| 0 <= k < self.order@.len() implies #[trigger] self.linked_at(k) by {
                assert(pre.linked_at(k));
            }
            assert forall|k: int| 0 <= k < self.order@.len() implies self@.linked[k] == pre@.linked[k] by {
                assert(pre.linked_at(k));
            }
            assert(self@.linked =~= pre@.linked);
        }
        kind
    }

    /// Replaces who linked node `id` wakes; its place in the list stays.
    pub fn set_kind(&mut self, id: usize, kind: W)
        requires
            old(self).wf(),
            old(self)@.has(id),
        ensures
            final(self).wf(),
            final(self)@.idle == old(self)@.idle,
            final(self)@.linked.len() == old(self)@.linked.len(),
            forall|k: int|
                0 <= k < old(self)@.linked.len() ==> #[trigger] final(self)@.linked[k] == if old(
                    self,
                )@.linked[k].0 == id {
                    (id, kind)
                } else {
                    old(self)@.linked[k]
                },
    {
        let ghost pre = *self;
        proof {
            let k = choose|k: int| self@.at(id, k);
            assert(self.linked_at(k));
        }
        self.nodes[id].kind = Some(kind);
        proof {
            assert forall|k: int| 0 <= k < self.order@.len() implies #[trigger] self.linked_at(k) by {
                assert(pre.linked_at(k));
            }
            assert forall|k: int| 0 <= k < pre@.linked.len() implies #[trigger] self@.linked[k] == if pre@.linked[k].0
                == id {
                (id, kind)
            } else {
                pre@.linked[k]
            } by {
                assert(pre.linked_at(k));
            }
        }
    }

    /// Gives an idle node back to the arena.
    pub fn drop_node(&mut self, id: usize)
        requires
            old(self).wf(),
            old(self)@.idle.contains(id),
        ensures
            final(self).wf(),
            final(self)@.linked == old(self)@.linked,
            final(self)@.idle == old(self)@.idle.remove(id),
            !final(self)@.holds(id),
    {
        let ghost pre = *self;
        self.free.push(id);
        self.idle = Ghost(self.idle@.remove(id));
        proof {
            assert forall|k: int| 0 <= k < self.order@.len() implies #[trigger] self.linked_at(k) by {
                assert(pre.linked_at(k));
            }
            assert(self@.linked =~= pre@.linked);
            assert forall|k: int| #[trigger] self@.at(id, k) implies false by {
                assert(pre.linked_at(k));
            }
        }
    }

    /// No node is linked.
    pub fn is_empty(&self) -> (b: bool)
        requires
            self.wf(),
        ensures
            b == (self@.linked.len() == 0),
    {
        self.head.is_none()
    }
}

} // verus!
