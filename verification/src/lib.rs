//! Bounded channels for threads and tasks, sharded channels, and the rules of worker pools.
//!
//! A channel is an explicit state that its callers use one at a time. Operations that have to
//! wait go step by step and say what they wait for; whom to wake is handed out.
use vstd::prelude::*;

pub mod cache;
pub mod helper;
pub mod hybrid;
pub mod internal_channel;
pub mod pool;
pub mod pow2;
pub mod print;
pub mod ring;
pub mod shard;
pub mod shim;
pub mod stack;
pub mod text;
pub mod waiters;

verus! {

} // verus!
