use self::handles::{Receiver, Sender, SingleReceiver, SingleSender};
use self::inner::{SeqInner, SingleInner};
use self::model::ChannelModel;
use self::traits::InnerChannel;
use crate::pow2::is_pow2;
use vstd::prelude::*;

pub mod async_list;
pub mod batch_future;
pub mod batch_laws;
pub mod errors;
pub mod handles;
pub mod helper;
pub mod inner;
pub mod laws;
pub mod model;
pub mod place_laws;
pub mod receiver;
pub mod recv_batch;
pub mod sender;
pub mod step_laws;
pub mod sync;
pub mod traits;

verus! {

/// A channel of capacity `CAP` for any number of senders and receivers: its first sender,
/// its first receiver, and its state.
pub fn mpmc_bounded<T, const CAP: usize, W>() -> (r: (
    Sender<SeqInner<T, CAP, W>>,
    Receiver<SeqInner<T, CAP, W>>,
    SeqInner<T, CAP, W>,
))
    requires
        is_pow2(CAP as int),
    ensures
        r.2.wf(),
        r.2.model() == ChannelModel::<T, W>::initial(),
{
    (Sender::new(), Receiver::new(), SeqInner::new())
}

/// A channel of capacity `CAP` for one sender and one receiver.
pub fn scsp_bounded<T, const CAP: usize, W>() -> (r: (
    SingleSender<T, CAP, W>,
    SingleReceiver<T, CAP, W>,
    SingleInner<T, CAP, W>,
))
    requires
        is_pow2(CAP as int),
    ensures
        r.2.wf(),
        r.2.model() == ChannelModel::<T, W>::initial(),
{
    (Sender::new(), SingleReceiver::new(), SingleInner::new())
}

} // verus!
