use crate::internal_channel::inner::SeqInner;
use crate::internal_channel::model::ChannelModel;
use crate::internal_channel::traits::InnerChannel;
use crate::pow2::is_pow2;
use vstd::prelude::*;

verus! {

/// What the channels of a sharded channel hold.
pub open spec fn models<T, const CAP: usize, W>(lanes: Seq<SeqInner<T, CAP, W>>) -> Seq<
    ChannelModel<T, W>,
> {
    lanes.map_values(|l: SeqInner<T, CAP, W>| l.model())
}

/// There are `n` channels, each of them consistent.
pub open spec fn lanes_wf<T, const CAP: usize, W>(lanes: Seq<SeqInner<T, CAP, W>>, n: int) -> bool {
    &&& lanes.len() == n
    &&& forall|i: int| 0 <= i < n ==> (#[trigger] lanes[i]).wf()
}

/// `n` empty channels with one sender and one receiver each.
pub open spec fn initial_models<T, W>(n: int) -> Seq<ChannelModel<T, W>> {
    Seq::new(n as nat, |i: int| ChannelModel::<T, W>::initial())
}

/// The channels of a new sharded channel.
pub fn new_lanes<T, const CAP: usize, W>(n: usize) -> (lanes: Vec<SeqInner<T, CAP, W>>)
    requires
        is_pow2(CAP as int),
    ensures
        lanes_wf(lanes@, n as int),
        models(lanes@) == initial_models::<T, W>(n as int),
{
    let mut lanes: Vec<SeqInner<T, CAP, W>> = Vec::with_capacity(n);
    let mut i: usize = 0;
    while i < n
        invariant
            is_pow2(CAP as int),
            i <= n,
            lanes_wf(lanes@, i as int),
            forall|k: int|
                0 <= k < i ==> (#[trigger] lanes@[k]).model() == ChannelModel::<T, W>::initial(),
        decreases n - i,
    {
        lanes.push(SeqInner::new());
        i = i + 1;
    }
    assert(models(lanes@) =~= initial_models::<T, W>(n as int));
    lanes
}

/// Counts one more sender on every channel.
pub fn add_senders<T, const CAP: usize, W>(lanes: &mut Vec<SeqInner<T, CAP, W>>)
    requires
        lanes_wf(old(lanes)@, old(lanes)@.len() as int),
    ensures
        lanes_wf(final(lanes)@, old(lanes)@.len() as int),
        models(final(lanes)@) == models(old(lanes)@).map_values(
            |m: ChannelModel<T, W>| m.senders_changed(true, 1),
        ),
{
    let ghost pre = lanes@;
    let n: usize = lanes.len();
    let mut i: usize = 0;
    while i < n
        invariant
            i <= n,
            n == pre.len(),
            lanes_wf(lanes@, n as int),
            forall|k: int|
                0 <= k < n ==> (#[trigger] lanes@[k]).model() == if k < i {
                    pre[k].model().senders_changed(true, 1)
                } else {
                    pre[k].model()
                },
        decreases n - i,
    {
        let _ = lanes[i].sender_add();
        i = i + 1;
    }
    assert(models(lanes@) =~= models(pre).map_values(
        |m: ChannelModel<T, W>| m.senders_changed(true, 1),
    ));
}

/// Counts one sender less on every channel; a channel whose last one this was closes.
pub fn drop_senders<T, const CAP: usize, W>(lanes: &mut Vec<SeqInner<T, CAP, W>>)
    requires
        lanes_wf(old(lanes)@, old(lanes)@.len() as int),
    ensures
        lanes_wf(final(lanes)@, old(lanes)@.len() as int),
        models(final(lanes)@) == models(old(lanes)@).map_values(
            |m: ChannelModel<T, W>| m.sender_gone(true),
        ),
{
    let ghost pre = lanes@;
    let n: usize = lanes.len();
    let mut i: usize = 0;
    while i < n
        invariant
            i <= n,
            n == pre.len(),
            lanes_wf(lanes@, n as int),
            forall|k: int|
                0 <= k < n ==> (#[trigger] lanes@[k]).model() == if k < i {
                    pre[k].model().sender_gone(true)
                } else {
                    pre[k].model()
                },
        decreases n - i,
    {
        if lanes[i].sender_sub() == 1 {
            lanes[i].tx_close();
            lanes[i].notify_all_on_tx_close();
        }
        i = i + 1;
    }
    assert(models(lanes@) =~= models(pre).map_values(|m: ChannelModel<T, W>| m.sender_gone(true)));
}

/// Counts one receiver less on every channel; a channel whose last one this was refuses
/// further items.
pub fn drop_receivers<T, const CAP: usize, W>(lanes: &mut Vec<SeqInner<T, CAP, W>>)
    requires
        lanes_wf(old(lanes)@, old(lanes)@.len() as int),
    ensures
        lanes_wf(final(lanes)@, old(lanes)@.len() as int),
        models(final(lanes)@) == models(old(lanes)@).map_values(
            |m: ChannelModel<T, W>| m.receiver_gone(true),
        ),
{
    let ghost pre = lanes@;
    let n: usize = lanes.len();
    let mut i: usize = 0;
    while i < n
        invariant
            i <= n,
            n == pre.len(),
            lanes_wf(lanes@, n as int),
            forall|k: int|
                0 <= k < n ==> (#[trigger] lanes@[k]).model() == if k < i {
                    pre[k].model().receiver_gone(true)
                } else {
                    pre[k].model()
                },
        decreases n - i,
    {
        if lanes[i].receiver_sub() == 1 {
            lanes[i].rx_close();
            lanes[i].notify_all_on_rx_close();
        }
        i = i + 1;
    }
    assert(models(lanes@) =~= models(pre).map_values(
        |m: ChannelModel<T, W>| m.receiver_gone(true),
    ));
}

} // verus!
