use crate::waiters::{ListModel, SyncRawList};
use vstd::prelude::*;

verus! {

/// The waiters on one side of a channel, threads and tasks in one line.
///
/// Whom to wake is handed out, so that the caller can wake after it has let go of the
/// list.
pub struct SyncList<W> {
    list: SyncRawList<W>,
}

impl<W> SyncList<W> {
    pub closed spec fn view(&self) -> ListModel<W> {
        self.list@
    }

    pub closed spec fn wf(&self) -> bool {
        self.list.wf()
    }

    pub proof fn lemma_wf(&self)
        requires
            self.wf(),
        ensures
            self@.sound(),
    {
        self.list.lemma_wf();
    }

    pub fn new() -> (l: Self)
        ensures
            l.wf(),
            l@ == ListModel::<W>::empty(),
    {
        SyncList { list: SyncRawList::new() }
    }

    /// Queues a parked thread; the result names its node.
    pub fn push_blocking(&mut self, thread: W) -> (node: usize)
        requires
            old(self).wf(),
        ensures
            final(self).wf(),
            !old(self)@.holds(node),
            final(self)@ == old(self)@.joined_by(node, thread),
            final(self)@.has(node),
    {
        let node: usize = self.list.new_node();
        self.list.push_back(node, thread);
        proof {
            assert(self@.idle =~= old(self)@.idle);
            assert(self@.at(node, old(self)@.linked.len() as int));
        }
        node
    }

    /// Queues a task; the result names its node.
    pub fn push_async(&mut self, waker: W) -> (node: usize)
        requires
            old(self).wf(),
        ensures
            final(self).wf(),
            !old(self)@.holds(node),
            final(self)@ == old(self)@.joined_by(node, waker),
            final(self)@.has(node),
    {
        self.push_blocking(waker)
    }

    /// Gives a task's node a new waker; queues it again if it was taken off the list.
    pub fn update_or_repush_async(&mut self, node: usize, waker: W)
        requires
            old(self).wf(),
            old(self)@.holds(node),
        ensures
            final(self).wf(),
            final(self)@ == old(self)@.retargeted(node, waker),
            final(self)@.has(node),
    {
        let ghost pre = self@;
        if self.list.is_in_list(node) {
            let ghost k = choose|k: int| pre.at(node, k);
            self.list.set_kind(node, waker);
            proof {
                assert(self@.linked =~= pre.retargeted(node, waker).linked);
                assert(self@.at(node, k));
            }
        } else {
            self.list.push_back(node, waker);
            proof {
                assert(self@.at(node, pre.linked.len() as int));
            }
        }
    }

    /// Takes a waiter off the list, whether or not it has been woken, and forgets it.
    pub fn remove(&mut self, node: usize)
        requires
            old(self).wf(),
            old(self)@.holds(node),
        ensures
            final(self).wf(),
            !final(self)@.holds(node),
            final(self)@ == old(self)@.left_by(node),
    {
        self.list.remove(node);
        self.list.drop_node(node);
        assert(self@.idle =~= old(self)@.idle.remove(node));
    }

    /// Takes the oldest waiter off the list.
    pub fn wake_one(&mut self) -> (r: Option<W>)
        requires
            old(self).wf(),
        ensures
            final(self).wf(),
            (final(self)@, r) == old(self)@.first_out(),
    {
        self.list.pop_front()
    }

    /// Takes all waiters off the list and adds them to `out`, oldest first.
    pub fn wake_all(&mut self, out: &mut Vec<W>)
        requires
            old(self).wf(),
        ensures
            final(self).wf(),
            final(self)@ == old(self)@.all_out(),
            final(out)@ == old(out)@ + old(self)@.targets(),
    {
        let ghost pre = self@;
        let ghost base = out@;
        let ghost mut j: int = 0;
        proof {
            assert(pre.targets().subrange(0, 0) =~= Seq::empty());
            assert(base =~= base + pre.targets().subrange(0, 0));
            assert(pre.linked.subrange(0, pre.linked.len() as int) =~= pre.linked);
        }
        while !self.list.is_empty()
            invariant
                self.wf(),
                0 <= j <= pre.linked.len(),
                self@.linked == pre.linked.subrange(j, pre.linked.len() as int),
                out@ == base + pre.targets().subrange(0, j),
                forall|id: usize|
                    #[trigger] self@.idle.contains(id) <==> pre.idle.contains(id) || exists|k: int|
                        0 <= k < j && #[trigger] pre.at(id, k),
            decreases self@.linked.len(),
        {
            let ghost mid = self@;
            match self.list.pop_front() {
                Some(k) => out.push(k),
                None => {},
            }
            proof {
                let e = pre.linked[j];
                assert(mid.linked[0] == e);
                assert(mid.linked.drop_first() =~= pre.linked.subrange(
                    j + 1,
                    pre.linked.len() as int,
                ));
                assert(pre.targets().subrange(0, j + 1) =~= pre.targets().subrange(0, j).push(e.1));
                assert(out@ =~= base + pre.targets().subrange(0, j + 1));
                assert forall|id: usize|
                    #[trigger] self@.idle.contains(id) <==> pre.idle.contains(id) || exists|k: int|
                        0 <= k < j + 1 && #[trigger] pre.at(id, k) by {
                    if id == e.0 {
                        assert(pre.at(id, j));
                    }
                    if exists|k: int| 0 <= k < j + 1 && #[trigger] pre.at(id, k) {
                        let k = choose|k: int| 0 <= k < j + 1 && #[trigger] pre.at(id, k);
                        if k < j {
                            assert(pre.at(id, k));
                        }
                    }
                    if exists|k: int| 0 <= k < j && #[trigger] pre.at(id, k) {
                        let k = choose|k: int| 0 <= k < j && #[trigger] pre.at(id, k);
                        assert(0 <= k < j + 1 && pre.at(id, k));
                    }
                }
                j = j + 1;
            }
        }
        proof {
            assert(j == pre.linked.len());
            assert(pre.targets().subrange(0, j) =~= pre.targets());
            assert(self@.linked =~= pre.all_out().linked);
            assert(self@.idle =~= pre.all_out().idle);
        }
    }

    /// Nobody waits.
    pub fn is_empty(&self) -> (b: bool)
        requires
            self.wf(),
        ensures
            b == (self@.linked.len() == 0),
    {
        self.list.is_empty()
    }
}

} // verus!
