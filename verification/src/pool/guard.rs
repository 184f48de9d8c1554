use super::instance::{PoolModel, State, NONE};
use crate::helper::panic::{PanicPayload, PanicReason};
use crate::stack::{stacked, unstacked};
use vstd::prelude::*;

verus! {

/// Has a worker give up its shards when it exits, however it exits.
pub struct OwnerGuard {
    id: usize,
}

/// The pool after worker `id` has given up all its shards.
pub open spec fn given_up(m: PoolModel, id: usize) -> PoolModel {
    PoolModel {
        owner: m.owner.map_values(
            |w: usize|
                if w == id {
                    NONE
                } else {
                    w
                },
        ),
        ..m
    }
}

impl OwnerGuard {
    pub closed spec fn id(&self) -> usize {
        self.id
    }

    pub fn new(id: usize) -> (g: Self)
        ensures
            g.id() == id,
    {
        OwnerGuard { id }
    }

    /// Gives up every shard that the worker still owns.
    pub fn release(self, state: &mut State)
        requires
            old(state).wf(),
        ensures
            final(state).wf(),
            final(state)@ == given_up(old(state)@, self.id()),
            final(state)@.owner.len() == old(state)@.owner.len(),
            forall|s: int|
                0 <= s < old(state)@.owner.len() ==> #[trigger] final(state)@.owner[s] == if old(state)@.owner[s] == self.id() {
                    NONE
                } else {
                    old(state)@.owner[s]
                },
    {
        let ghost m = state@;
        let n: usize = state.shards();
        let mut s: usize = 0;
        while s < n
            invariant
                s <= n,
                n == m.owner.len(),
                state.wf(),
                state@ == (PoolModel { owner: state@.owner, ..m }),
                state@.owner.len() == n,
                forall|k: int|
                    0 <= k < s ==> #[trigger] state@.owner[k] == given_up(m, self.id).owner[k],
                forall|k: int| s <= k < n ==> #[trigger] state@.owner[k] == m.owner[k],
            decreases n - s,
        {
            if state.owner(s) == self.id {
                state.set_owner(s, NONE);
            }
            s = s + 1;
        }
        assert(state@.owner =~= given_up(m, self.id).owner);
    }
}

/// An item while its handler runs. If the worker goes away before the handler is done, what
/// is in the slot goes to the dead letters.
pub struct CommitGuard<T> {
    slot: Option<T>,
    armed: bool,
}

impl<T> CommitGuard<T> {
    pub closed spec fn item(&self) -> Option<T> {
        self.slot
    }

    pub closed spec fn armed(&self) -> bool {
        self.armed
    }

    pub fn new(item: T) -> (g: Self)
        ensures
            g.item() == Some(item),
            g.armed(),
    {
        CommitGuard { slot: Some(item), armed: true }
    }

    /// The place that the handler takes the item from.
    pub fn slot(&mut self) -> (r: &mut Option<T>)
        ensures
            *r == old(self).item(),
            final(self).item() == *final(r),
            final(self).armed() == old(self).armed(),
    {
        &mut self.slot
    }

    /// Hands back what the handler left.
    pub fn disarm(&mut self) -> (r: Option<T>)
        ensures
            r == old(self).item(),
            final(self).item() is None,
            !final(self).armed(),
    {
        self.armed = false;
        self.slot.take()
    }

    /// What goes to the dead letters when the worker goes away.
    pub fn abandon(self) -> (r: Option<T>)
        ensures
            r == if self.armed() {
                self.item()
            } else {
                None
            },
    {
        if self.armed {
            self.slot
        } else {
            None
        }
    }
}

/// The items of a batch that wait for the handler. If the worker goes away, they go to the
/// dead letters.
pub struct CommitBatchGuard<T> {
    stack: Vec<T>,
}

impl<T> CommitBatchGuard<T> {
    /// The items, in the order in which they were received.
    pub closed spec fn items(&self) -> Seq<T> {
        unstacked(self.stack@)
    }

    /// Takes all items out of `buf`.
    pub fn new(buf: &mut Vec<T>) -> (g: Self)
        ensures
            g.items() == old(buf)@,
            final(buf)@.len() == 0,
    {
        CommitBatchGuard { stack: stacked(buf) }
    }

    /// The next item, in the order in which they were received.
    pub fn next(&mut self) -> (r: Option<T>)
        ensures
            r is Some <==> old(self).items().len() > 0,
            r is Some ==> {
                &&& r == Some(old(self).items()[0])
                &&& final(self).items() == old(self).items().drop_first()
            },
            r is None ==> final(self).items() == old(self).items(),
    {
        let ghost pre = self.items();
        let r = self.stack.pop();
        proof {
            if r is Some {
                assert(self.items() =~= pre.drop_first());
            } else {
                assert(self.items() =~= pre);
            }
        }
        r
    }

    /// What goes to the dead letters when the worker goes away: every item that has not been
    /// taken, once and in order, as cancelled.
    pub fn abandon<P>(self) -> (r: Vec<(T, PanicReason<P>)>)
        ensures
            r@ == letters::<T, P>(self.items()),
    {
        let ghost all = self.items();
        let mut this = self;
        let mut r: Vec<(T, PanicReason<P>)> = Vec::with_capacity(this.stack.len());
        proof {
            assert(all.subrange(0, all.len() as int) =~= all);
            assert(r@ =~= letters::<T, P>(all.subrange(0, 0)));
        }
        let ghost mut k: int = 0;
        while this.stack.len() > 0
            invariant
                0 <= k <= all.len(),
                this.items() == all.subrange(k, all.len() as int),
                this.stack@.len() == all.len() - k,
                r@ == letters::<T, P>(all.subrange(0, k)),
            decreases this.stack@.len(),
        {
            match this.next() {
                Some(v) => {
                    let reason: PanicReason<P> = PanicReason::cancelled();
                    proof {
                        assert(v == all[k]);
                        assert(all.subrange(k, all.len() as int).drop_first() =~= all.subrange(
                            k + 1,
                            all.len() as int,
                        ));
                        assert(this.items().len() == this.stack@.len());
                        assert(letters::<T, P>(all.subrange(0, k + 1)) =~= letters::<T, P>(
                            all.subrange(0, k),
                        ).push((v, reason)));
                        k = k + 1;
                    }
                    r.push((v, reason));
                },
                None => {},
            }
        }
        assert(all.subrange(0, k) =~= all);
        r
    }
}

/// Dead letters of a cancelled worker.
pub open spec fn letters<T, P>(items: Seq<T>) -> Seq<(T, PanicReason<P>)> {
    items.map_values(|v: T| (v, PanicReason(PanicPayload::<P>::Cancelled)))
}

/// What a batch holds after `j` items have been taken out, one after the other.
pub open spec fn after_next<T>(items: Seq<T>, j: nat) -> Seq<T>
    decreases j,
{
    if j == 0 || items.len() == 0 {
        items
    } else {
        after_next(items.drop_first(), (j - 1) as nat)
    }
}

/// A worker that goes away after `j` items of its batch hands all others to the dead
/// letters: once each, in order, as cancelled.
pub proof fn law_batch_is_handed_back<T, P>(items: Seq<T>, j: nat)
    requires
        j <= items.len(),
    ensures
        after_next(items, j) == items.subrange(j as int, items.len() as int),
        letters::<T, P>(after_next(items, j)).len() == items.len() - j,
        forall|i: int|
            j <= i < items.len() ==> {
                let l = #[trigger] letters::<T, P>(after_next(items, j))[i - j];
                l.0 == items[i] && l.1.0 is Cancelled
            },
    decreases j,
{
    if j > 0 {
        law_batch_is_handed_back::<T, P>(items.drop_first(), (j - 1) as nat);
        assert(items.drop_first().subrange(j - 1, items.len() - 1) =~= items.subrange(
            j as int,
            items.len() as int,
        ));
    } else {
        assert(items.subrange(0, items.len() as int) =~= items);
    }
}

} // verus!
