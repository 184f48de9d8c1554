use vstd::prelude::*;

verus! {

/// What a worker does with an item.
///
/// The item lies in a slot that belongs to the worker; the handler takes it out at the
/// point from which on it answers for it. An item that the handler has not taken when it
/// panics goes to the dead letters.
pub trait SyncSlotHandler<T> {
    /// The handler can be called with this slot.
    spec fn can_handle(&self, slot: Option<T>) -> bool;

    /// A call with `slot` may leave `left` in it.
    spec fn may_leave(&self, slot: Option<T>, left: Option<T>) -> bool;

    fn handle(&self, slot: &mut Option<T>)
        requires
            self.can_handle(*old(slot)),
        ensures
            self.may_leave(*old(slot), *final(slot)),
    ;
}

} // verus!
