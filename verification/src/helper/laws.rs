use super::batch::{
    batch_size, chunks, drained_by, handled, is_run, is_sink_run, sunk, Round, SinkRound,
};
use crate::internal_channel::laws::gapless;
use crate::internal_channel::model::ChannelModel;
use crate::shard::mpmc::buf::joined;
use vstd::prelude::*;

verus! {

/// A drain asks for as many items as it was told, and for one if it was told none.
pub proof fn law_batches_are_never_empty(max: usize)
    ensures
        max > 0 ==> batch_size(max) == max,
        max == 0 ==> batch_size(max) == 1,
{
}

/// Cutting items into pieces loses nothing and changes no order; every piece has `max` items,
/// but for the last, which may have fewer and never has none.
pub proof fn law_pieces_are_full_but_the_last<T>(items: Seq<T>, max: int)
    requires
        max > 0,
    ensures
        joined(chunks(items, max)) == items,
        forall|i: int|
            0 <= i < chunks(items, max).len() ==> 1 <= (#[trigger] chunks(items, max)[i]).len()
                <= max,
        forall|i: int|
            0 <= i < chunks(items, max).len() - 1 ==> (#[trigger] chunks(items, max)[i]).len()
                == max,
    decreases items.len(),
{
    let c = chunks(items, max);
    if items.len() == 0 {
        assert(joined(c) =~= items);
    } else if items.len() <= max {
        assert(c.drop_last() =~= Seq::empty());
        assert(joined(c.drop_last()) =~= Seq::empty());
        assert(joined(c) =~= items);
    } else {
        let head = items.subrange(0, max);
        let rest = items.subrange(max, items.len() as int);
        law_pieces_are_full_but_the_last(rest, max);
        lemma_joined_front(head, chunks(rest, max));
        assert(c =~= seq![head] + chunks(rest, max));
        assert(head + rest =~= items);
        assert(chunks(rest, max).len() > 0);
        assert forall|i: int| 0 <= i < c.len() implies 1 <= (#[trigger] c[i]).len() <= max by {
            if i > 0 {
                assert(c[i] == chunks(rest, max)[i - 1]);
            }
        }
        assert forall|i: int| 0 <= i < c.len() - 1 implies (#[trigger] c[i]).len() == max by {
            if i > 0 {
                assert(c[i] == chunks(rest, max)[i - 1]);
            }
        }
    }
}

proof fn lemma_joined_front<T>(g: Seq<T>, groups: Seq<Seq<T>>)
    ensures
        joined(seq![g] + groups) == g + joined(groups),
    decreases groups.len(),
{
    let all = seq![g] + groups;
    if groups.len() == 0 {
        assert(all.drop_last() =~= Seq::empty());
        assert(joined(all.drop_last()) =~= Seq::empty());
        assert(joined(all) =~= g + joined(groups));
    } else {
        lemma_joined_front(g, groups.drop_last());
        assert(all.drop_last() =~= seq![g] + groups.drop_last());
        assert(joined(all) =~= g + joined(groups));
    }
}

/// A channel without open reservations is read to its end, whatever the size of the batches;
/// nothing else but the line of senders changes.
pub proof fn law_closed_channel_is_read_to_its_end<T, W>(m: ChannelModel<T, W>, max: int)
    requires
        max > 0,
        gapless(m),
    ensures
        drained_by(m, max).pending.len() == 0,
        drained_by(m, max).recv_waiters == m.recv_waiters,
        drained_by(m, max).tx_closed == m.tx_closed,
        drained_by(m, max).rx_closed == m.rx_closed,
    decreases m.pending.len(),
{
    crate::ring::lemma_ready_all(m.pending);
    let n = m.available(max);
    if n > 0 && n <= m.pending.len() {
        let m2 = m.popped_n(n).senders_notified(n as nat);
        assert forall|k: int| 0 <= k < m2.pending.len() implies (
        #[trigger] m2.pending[k]) is Some by {
            assert(m.pending[k + n] is Some);
        }
        law_closed_channel_is_read_to_its_end(m2, max);
    }
}

/// A handler that has taken nothing has changed nothing, and it takes items one by one, the
/// first first, each with what the one before has left.
pub proof fn law_items_are_handled_one_by_one<T, O, H: Fn(T, O) -> O>(
    handler: H,
    items: Seq<T>,
    init: O,
    out: O,
)
    ensures
        items.len() == 0 ==> (handled(handler, items, init, out) <==> out == init),
        items.len() > 0 ==> (handled(handler, items, init, out) <==> exists|mid: O| #[trigger]
            call_ensures(handler, (items[0], init), mid) && handled(
                handler,
                items.subrange(1, items.len() as int),
                mid,
                out,
            )),
{
    if items.len() > 0 {
        assert(items.drop_first() =~= items.subrange(1, items.len() as int));
    }
}

/// A sink that was handed no batch has changed nothing, and it takes batches one by one, the
/// first first, each whole and with what the one before has left.
pub proof fn law_batches_are_sunk_one_by_one<T, O, S: Fn(Vec<T>, O) -> (Vec<T>, O)>(
    sink: S,
    batches: Seq<Seq<T>>,
    init: O,
    out: O,
)
    ensures
        batches.len() == 0 ==> (sunk(sink, batches, init, out) <==> out == init),
        batches.len() > 0 ==> (sunk(sink, batches, init, out) <==> exists|
            b: Vec<T>,
            r: (Vec<T>, O),
        |
            b@ == batches[0] && #[trigger] call_ensures(sink, (b, init), r) && sunk(
                sink,
                batches.subrange(1, batches.len() as int),
                r.1,
                out,
            )),
{
    if batches.len() > 0 {
        assert(batches.drop_first() =~= batches.subrange(1, batches.len() as int));
    }
}

/// A drain ends with the first receive that says that no more will come, and not before, as
/// long as the receives can be counted.
pub proof fn law_drain_goes_on_to_the_end<
    R,
    T,
    F: Fn(R, Vec<T>, usize) -> (R, Vec<T>, bool),
    G: Fn(R, Vec<T>, usize) -> (R, Vec<T>, usize, bool),
>(
    recv: F,
    rounds: Seq<Round<R, T>>,
    recv_into: G,
    sinks: Seq<SinkRound<R, T>>,
    max: int,
    from: R,
    to: R,
)
    ensures
        is_run(recv, max, rounds, from, to) ==> {
            &&& rounds.len() > 0
            &&& rounds.len() < u64::MAX ==> rounds.last().end
            &&& forall|i: int| 0 <= i < rounds.len() - 1 ==> !(#[trigger] rounds[i]).end
        },
        is_sink_run(recv_into, max, sinks, from, to) ==> {
            &&& sinks.len() > 0
            &&& sinks.len() < u64::MAX ==> sinks.last().end
            &&& forall|i: int| 0 <= i < sinks.len() - 1 ==> !(#[trigger] sinks[i]).end
        },
{
    if is_run(recv, max, rounds, from, to) {
        assert forall|i: int| 0 <= i < rounds.len() - 1 implies !(#[trigger] rounds[i]).end by {
            super::batch::law_no_receive_is_skipped(recv, max, rounds, from, to, i);
        }
    }
    if is_sink_run(recv_into, max, sinks, from, to) {
        assert forall|i: int| 0 <= i < sinks.len() - 1 implies !(#[trigger] sinks[i]).end by {
            super::batch::law_no_batch_is_skipped(recv_into, max, sinks, from, to, i);
        }
    }
}

} // verus!
