use super::traits::SyncSlotHandler;
use vstd::prelude::*;

verus! {

/// A handler that only looks at items: it never takes them out of their slot.
pub struct PerItem<S>(pub S);

impl<S> PerItem<S> {
    /// Shows the item in the slot to the handler, if there is one.
    pub fn show<T>(&self, slot: &Option<T>) where S: Fn(&T)
        requires
            slot is Some ==> call_requires(self.0, (&slot->Some_0,)),
        ensures
            slot is Some ==> call_ensures(self.0, (&slot->Some_0,), ()),
    {
        match slot {
            Some(v) => (self.0)(v),
            None => {},
        }
    }
}

impl<T, S: Fn(&T)> SyncSlotHandler<T> for PerItem<S> {
    open spec fn can_handle(&self, slot: Option<T>) -> bool {
        slot is Some ==> call_requires(self.0, (&slot->Some_0,))
    }

    open spec fn may_leave(&self, slot: Option<T>, left: Option<T>) -> bool {
        &&& left == slot
        &&& slot is Some ==> call_ensures(self.0, (&slot->Some_0,), ())
    }

    fn handle(&self, slot: &mut Option<T>) {
        self.show(slot);
    }
}

} // verus!
