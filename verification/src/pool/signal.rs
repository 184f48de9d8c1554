use super::instance::{PoolModel, State};
use vstd::prelude::*;

verus! {

/// The right to stop a pool from outside.
#[derive(Clone, Copy)]
pub struct Stop {

}

impl Stop {
    pub fn new() -> (s: Self) {
        Stop {  }
    }

    /// Has the workers finish what they hold and exit.
    pub fn stop(&self, state: &mut State)
        requires
            old(state).wf(),
        ensures
            final(state).wf(),
            final(state)@ == (PoolModel { stopped: true, ..old(state)@ }),
    {
        state.stop();
    }
}

} // verus!
