use crate::internal_channel::laws::gapless;
use crate::internal_channel::model::ChannelModel;
use crate::internal_channel::receiver::try_recv_batch;
use crate::internal_channel::traits::InnerChannel;
use crate::stack::turned;
use crate::ring::{lemma_pos_after, lemma_ready_all, values};
use vstd::prelude::*;

verus! {

/// `handler` can take the items one after the other, starting with `init`, and end with
/// `out`.
pub open spec fn handled<T, O, H: Fn(T, O) -> O>(
    handler: H,
    items: Seq<T>,
    init: O,
    out: O,
) -> bool
    decreases items.len(),
{
    if items.len() == 0 {
        out == init
    } else {
        exists|mid: O| #[trigger]
            call_ensures(handler, (items[0], init), mid) && handled(
                handler,
                items.drop_first(),
                mid,
                out,
            )
    }
}

/// `items` in pieces of `max`, the last one maybe shorter.
pub open spec fn chunks<T>(items: Seq<T>, max: int) -> Seq<Seq<T>>
    decreases items.len(),
{
    if items.len() == 0 || max <= 0 {
        Seq::empty()
    } else if items.len() <= max {
        seq![items]
    } else {
        seq![items.subrange(0, max)] + chunks(items.subrange(max, items.len() as int), max)
    }
}

/// `sink` can take a batch of `items`, starting with `init`, and hand back `out`.
pub open spec fn sunk_once<T, O, S: Fn(Vec<T>, O) -> (Vec<T>, O)>(
    sink: S,
    items: Seq<T>,
    init: O,
    out: (Vec<T>, O),
) -> bool {
    exists|b: Vec<T>| b@ == items && #[trigger] call_ensures(sink, (b, init), out)
}

/// `sink` can take the batches one after the other, starting with `init`, and end with
/// `out`.
pub open spec fn sunk<T, O, S: Fn(Vec<T>, O) -> (Vec<T>, O)>(
    sink: S,
    batches: Seq<Seq<T>>,
    init: O,
    out: O,
) -> bool
    decreases batches.len(),
{
    if batches.len() == 0 {
        out == init
    } else {
        exists|b: Vec<T>, r: (Vec<T>, O)|
            b@ == batches[0] && #[trigger] call_ensures(sink, (b, init), r) && sunk(
                sink,
                batches.drop_first(),
                r.1,
                out,
            )
    }
}

/// The channel after it was read to the end in batches of at most `max`.
pub open spec fn drained_by<T, W>(m: ChannelModel<T, W>, max: int) -> ChannelModel<T, W>
    decreases m.pending.len(),
{
    let n = m.available(max);
    if n <= 0 || n > m.pending.len() {
        m
    } else {
        drained_by(m.popped_n(n).senders_notified(n as nat), max)
    }
}

proof fn lemma_available<T, W>(m: ChannelModel<T, W>, max: int)
    requires
        gapless(m),
        max > 0,
    ensures
        m.available(max) == if m.pending.len() <= max {
            m.pending.len() as int
        } else {
            max
        },
        gapless(m.popped_n(m.available(max))),
        values(m.pending.subrange(0, m.available(max))) == values(m.pending).subrange(
            0,
            m.available(max),
        ),
        values(m.popped_n(m.available(max)).pending) == values(m.pending).subrange(
            m.available(max),
            m.pending.len() as int,
        ),
{
    lemma_ready_all(m.pending);
    let n = m.available(max);
    let p = m.popped_n(n);
    assert forall|k: int| 0 <= k < p.pending.len() implies (#[trigger] p.pending[k]) is Some by {
        assert(m.pending[k + n] is Some);
    }
    assert(values(m.pending.subrange(0, n)) =~= values(m.pending).subrange(0, n));
    assert(values(p.pending) =~= values(m.pending).subrange(n, m.pending.len() as int));
}

/// A batch without items changes nothing.
proof fn lemma_no_batch<T, W>(m: ChannelModel<T, W>)
    ensures
        m.popped_n(0).senders_notified(0) == m,
{
    lemma_pos_after(m.head, 0);
    assert(m.pending.subrange(0, m.pending.len() as int) =~= m.pending);
    assert(m.woken + Seq::<W>::empty() =~= m.woken);
}

/// What was handled in two parts was handled.
proof fn lemma_handled_join<T, O, H: Fn(T, O) -> O>(
    handler: H,
    a: Seq<T>,
    b: Seq<T>,
    init: O,
    mid: O,
    out: O,
)
    requires
        handled(handler, a, init, mid),
        handled(handler, b, mid, out),
    ensures
        handled(handler, a + b, init, out),
    decreases a.len(),
{
    if a.len() == 0 {
        assert(a + b =~= b);
    } else {
        let next = choose|next: O| #[trigger]
            call_ensures(handler, (a[0], init), next) && handled(
                handler,
                a.drop_first(),
                next,
                mid,
            );
        lemma_handled_join(handler, a.drop_first(), b, next, mid, out);
        assert((a + b).drop_first() =~= a.drop_first() + b);
        assert((a + b)[0] == a[0]);
    }
}

/// Has `handler` take every item of a batch, in order.
pub fn handle_batch<T, H: Fn(T, O) -> O, O>(buf: Vec<T>, handler: &H, init: O) -> (out: O)
    requires
        forall|v: T, o: O| #[trigger] call_requires(*handler, (v, o)),
    ensures
        handled(*handler, buf@, init, out),
{
    let ghost items = buf@;
    let mut stack = turned(buf);
    let mut acc = init;
    let ghost mut i: int = 0;
    proof {
        assert(items.subrange(0, items.len() as int) =~= items);
    }
    while stack.len() > 0
        invariant
            0 <= i <= items.len(),
            stack@.len() == items.len() - i,
            forall|j: int|
                0 <= j < stack@.len() ==> #[trigger] stack@[j] == items[items.len() - 1 - j],
            forall|v: T, o: O| #[trigger] call_requires(*handler, (v, o)),
            forall|o: O|
                handled(*handler, items.subrange(i, items.len() as int), acc, o)
                    ==> #[trigger] handled(*handler, items, init, o),
        decreases stack@.len(),
    {
        match stack.pop() {
            Some(v) => {
                let ghost before = acc;
                let ghost t = items.subrange(i, items.len() as int);
                acc = handler(v, acc);
                proof {
                    assert(t[0] == v);
                    assert(t.drop_first() =~= items.subrange(i + 1, items.len() as int));
                    assert forall|o: O|
                        handled(*handler, items.subrange(i + 1, items.len() as int), acc, o)
                            implies #[trigger] handled(*handler, items, init, o) by {
                        assert(call_ensures(*handler, (t[0], before), acc));
                        assert(handled(*handler, t, before, o));
                    }
                    i = i + 1;
                }
            },
            None => {},
        }
    }
    assert(handled(*handler, items.subrange(i, items.len() as int), acc, acc));
    acc
}

/// The size of a batch: at least one.
pub open spec fn batch_size(max: usize) -> int {
    if max == 0 {
        1
    } else {
        max as int
    }
}

/// One round of a drain: `handler` takes up to `max` items, and at least one, that the
/// channel has right now. The flag says that there were none and none will come.
pub fn drain_round<T, const CAP: usize, W, I: InnerChannel<T, CAP, W>, H: Fn(T, O) -> O, O>(
    max: usize,
    inner: &mut I,
    handler: &H,
    acc: O,
) -> (r: (O, bool))
    requires
        old(inner).wf(),
        forall|v: T, o: O| #[trigger] call_requires(*handler, (v, o)),
    ensures
        final(inner).wf(),
        ({
            let m = old(inner).model();
            let n = m.available(batch_size(max));
            &&& final(inner).model() == m.popped_n(n).senders_notified(n as nat)
            &&& handled(*handler, values(m.pending.subrange(0, n)), acc, r.0)
            &&& r.1 == (n == 0 && m.drained())
        }),
{
    let max: usize = if max == 0 { 1 } else { max };
    let mut buf: Vec<T> = Vec::new();
    let (n, dc) = try_recv_batch(inner, &mut buf, max);
    assert(buf@ =~= values(old(inner).model().pending.subrange(0, n as int)));
    (handle_batch(buf, handler, acc), dc)
}

/// One round of a drain: `sink` takes a batch of up to `max` items, and at least one, that
/// the channel has right now; it is not called without items. `buf` is empty and is filled
/// first; the emptied vector comes back. The flag says that there were no items and none
/// will come.
pub fn sink_round<
    T,
    const CAP: usize,
    W,
    I: InnerChannel<T, CAP, W>,
    S: Fn(Vec<T>, O) -> (Vec<T>, O),
    O,
>(max: usize, inner: &mut I, buf: Vec<T>, sink: &S, acc: O) -> (r: ((Vec<T>, O), bool))
    requires
        old(inner).wf(),
        buf@.len() == 0,
        forall|b: Vec<T>, o: O| #[trigger] call_requires(*sink, (b, o)),
    ensures
        final(inner).wf(),
        ({
            let m = old(inner).model();
            let n = m.available(batch_size(max));
            &&& final(inner).model() == m.popped_n(n).senders_notified(n as nat)
            &&& r.1 == (n == 0 && m.drained())
            &&& if n > 0 {
                sunk_once(*sink, values(m.pending.subrange(0, n)), acc, r.0)
            } else {
                r.0.0@.len() == 0 && r.0.1 == acc
            }
        }),
{
    let max: usize = if max == 0 { 1 } else { max };
    let mut buf = buf;
    let (n, dc) = try_recv_batch(inner, &mut buf, max);
    if n > 0 {
        let ghost taken = buf;
        let ghost before = acc;
        let out = sink(buf, acc);
        proof {
            assert(taken@ =~= values(old(inner).model().pending.subrange(0, n as int)));
            assert(call_ensures(*sink, (taken, before), out));
            assert(sunk_once(*sink, taken@, before, out));
        }
        (out, dc)
    } else {
        assert(buf@ =~= Seq::empty());
        ((buf, acc), dc)
    }
}

/// Has `handler` take every item of a channel whose senders are gone, in batches of at most
/// `max` and at least one. No item is left out, also not one of the last batch.
pub fn drain_closed<T, const CAP: usize, W, I: InnerChannel<T, CAP, W>, H: Fn(T, O) -> O, O>(
    max: usize,
    inner: &mut I,
    handler: H,
    init: O,
) -> (out: O)
    requires
        old(inner).wf(),
        old(inner).model().tx_closed,
        gapless(old(inner).model()),
        forall|v: T, o: O| #[trigger] call_requires(handler, (v, o)),
    ensures
        final(inner).wf(),
        final(inner).model() == drained_by(old(inner).model(), batch_size(max)),
        final(inner).model().drained(),
        handled(handler, values(old(inner).model().pending), init, out),
{
    let max: usize = if max == 0 { 1 } else { max };
    let ghost all = values(inner.model().pending);
    let ghost goal = drained_by(inner.model(), max as int);
    let mut acc = init;
    let mut more = true;
    while more
        invariant
            max > 0,
            inner.wf(),
            inner.model().tx_closed,
            gapless(inner.model()),
            drained_by(inner.model(), max as int) == goal,
            forall|v: T, o: O| #[trigger] call_requires(handler, (v, o)),
            forall|o: O|
                handled(handler, values(inner.model().pending), acc, o) ==> #[trigger] handled(
                    handler,
                    all,
                    init,
                    o,
                ),
            !more ==> inner.model().pending.len() == 0,
        decreases
            inner.model().pending.len(),
            (if more {
                1int
            } else {
                0int
            }),
    {
        let ghost m = inner.model();
        let ghost items = values(m.pending);
        proof {
            lemma_available(m, max as int);
        }
        let ghost before = acc;
        let (out, dc) = drain_round(max, inner, &handler, acc);
        acc = out;
        proof {
            let n = m.available(max as int);
            let taken = values(m.pending.subrange(0, n));
            let rest = values(inner.model().pending);
            lemma_no_batch(m);
            assert(items =~= taken + rest);
            assert forall|o: O| handled(handler, rest, acc, o) implies #[trigger] handled(
                handler,
                all,
                init,
                o,
            ) by {
                lemma_handled_join(handler, taken, rest, before, acc, o);
                assert(handled(handler, items, before, o));
            }
        }
        if dc {
            more = false;
        }
    }
    assert(handled(handler, values(inner.model().pending), acc, acc));
    acc
}

/// Has `sink` take every batch of a channel whose senders are gone, at most `max` items
/// and at least one at a time. The sink hands the emptied vector back for the next batch;
/// it is not called without items.
pub fn drain_closed_sink<
    T,
    const CAP: usize,
    W,
    I: InnerChannel<T, CAP, W>,
    S: Fn(Vec<T>, O) -> (Vec<T>, O),
    O,
>(max: usize, inner: &mut I, sink: S, init: O) -> (out: O)
    requires
        old(inner).wf(),
        old(inner).model().tx_closed,
        gapless(old(inner).model()),
        forall|b: Vec<T>, o: O| #[trigger] call_requires(sink, (b, o)),
        forall|b: Vec<T>, o: O, r: (Vec<T>, O)| #[trigger]
            call_ensures(sink, (b, o), r) ==> r.0@.len() == 0,
    ensures
        final(inner).wf(),
        final(inner).model() == drained_by(old(inner).model(), batch_size(max)),
        final(inner).model().drained(),
        sunk(sink, chunks(values(old(inner).model().pending), batch_size(max)), init, out),
{
    let max: usize = if max == 0 { 1 } else { max };
    let ghost all = chunks(values(inner.model().pending), max as int);
    let ghost goal = drained_by(inner.model(), max as int);
    let mut acc = init;
    let mut buf: Vec<T> = Vec::new();
    let mut more = true;
    while more
        invariant
            max > 0,
            buf@.len() == 0,
            inner.wf(),
            inner.model().tx_closed,
            gapless(inner.model()),
            drained_by(inner.model(), max as int) == goal,
            forall|b: Vec<T>, o: O| #[trigger] call_requires(sink, (b, o)),
            forall|b: Vec<T>, o: O, r: (Vec<T>, O)| #[trigger]
                call_ensures(sink, (b, o), r) ==> r.0@.len() == 0,
            forall|o: O|
                sunk(sink, chunks(values(inner.model().pending), max as int), acc, o)
                    ==> #[trigger] sunk(sink, all, init, o),
            !more ==> inner.model().pending.len() == 0,
        decreases
            inner.model().pending.len(),
            (if more {
                1int
            } else {
                0int
            }),
    {
        let ghost m = inner.model();
        let ghost items = values(m.pending);
        proof {
            lemma_available(m, max as int);
        }
        let ghost before = acc;
        let (out, dc) = sink_round(max, inner, buf, &sink, acc);
        let ghost got = out;
        buf = out.0;
        acc = out.1;
        proof {
            let n = m.available(max as int);
            let rest = values(inner.model().pending);
            lemma_no_batch(m);
            if n > 0 {
                let taken = choose|b: Vec<T>|
                    b@ == values(m.pending.subrange(0, n)) && #[trigger] call_ensures(
                        sink,
                        (b, before),
                        got,
                    );
                let c = chunks(items, max as int);
                if items.len() <= max {
                    assert(taken@ =~= items);
                    assert(c.drop_first() =~= Seq::empty());
                    assert(chunks(rest, max as int) =~= Seq::empty());
                } else {
                    assert(c.drop_first() =~= chunks(rest, max as int));
                }
                assert(taken@ == c[0]);
                assert forall|o: O| sunk(sink, chunks(rest, max as int), acc, o) implies #[trigger] sunk(
                    sink,
                    all,
                    init,
                    o,
                ) by {
                    assert(call_ensures(sink, (taken, before), got));
                    assert(sunk(sink, c, before, o));
                }
            }
        }
        if dc {
            more = false;
        }
    }
    proof {
        assert(chunks(values(inner.model().pending), max as int) =~= Seq::empty());
        assert(sunk(sink, chunks(values(inner.model().pending), max as int), acc, acc));
    }
    acc
}

/// The size of a batch to ask for: `max`, but at least one.
pub fn drain_size(max: usize) -> (n: usize)
    ensures
        n == batch_size(max),
{
    if max == 0 {
        1
    } else {
        max
    }
}

/// One round of a drain: `handler` takes every item that a receive brought into `buf`, in
/// order, also when the receive said that no more will come. Says whether the drain is over.
pub fn drain_step<T, H: Fn(T, O) -> O, O>(
    buf: &mut Vec<T>,
    disconnected: bool,
    handler: &H,
    acc: O,
) -> (r: (O, bool))
    requires
        forall|v: T, o: O| #[trigger] call_requires(*handler, (v, o)),
    ensures
        final(buf)@.len() == 0,
        handled(*handler, old(buf)@, acc, r.0),
        r.1 == disconnected,
{
    let mut items: Vec<T> = Vec::new();
    items.append(buf);
    assert(items@ =~= old(buf)@);
    (handle_batch(items, handler, acc), disconnected)
}

/// One round of a drain: `sink` takes the batch of a receive that brought `n` items, as a
/// whole, also when the receive said that no more will come; it is not called if it brought
/// none. Hands back the vector for the next batch, and says whether the drain is over.
pub fn sink_step<T, S: Fn(Vec<T>, O) -> (Vec<T>, O), O>(
    batch: Vec<T>,
    n: usize,
    disconnected: bool,
    sink: &S,
    acc: O,
) -> (r: ((Vec<T>, O), bool))
    requires
        forall|b: Vec<T>, o: O| #[trigger] call_requires(*sink, (b, o)),
    ensures
        n > 0 ==> sunk_once(*sink, batch@, acc, r.0),
        n == 0 ==> r.0 == (batch, acc),
        r.1 == disconnected,
{
    if n > 0 {
        let ghost taken = batch;
        let ghost before = acc;
        let out = sink(batch, acc);
        proof {
            assert(call_ensures(*sink, (taken, before), out));
            assert(sunk_once(*sink, taken@, before, out));
        }
        (out, disconnected)
    } else {
        ((batch, acc), disconnected)
    }
}

/// One receive of a drain.
pub struct Round<R, T> {
    /// The source before the receive.
    pub from: R,
    /// What the receive brought into the empty vector.
    pub items: Seq<T>,
    /// Whether it said that no more will come.
    pub end: bool,
    /// The source after it.
    pub to: R,
}

/// A receive of at most `max` items may go so.
pub open spec fn received<R, T, F: Fn(R, Vec<T>, usize) -> (R, Vec<T>, bool)>(
    recv: F,
    max: int,
    round: Round<R, T>,
) -> bool {
    exists|x: R, buf: Vec<T>, n: usize, r: (R, Vec<T>, bool)|
        x == round.from && buf@.len() == 0 && n == max && #[trigger] call_ensures(
            recv,
            (x, buf, n),
            r,
        ) && r.0 == round.to && r.1@ == round.items && r.2 == round.end
}

/// The receives that led from the source `from` to the source `to`, all of them and in order;
/// none before the last said that no more will come.
pub open spec fn chained<R, T, F: Fn(R, Vec<T>, usize) -> (R, Vec<T>, bool)>(
    recv: F,
    max: int,
    rounds: Seq<Round<R, T>>,
    from: R,
    to: R,
) -> bool
    decreases rounds.len(),
{
    if rounds.len() == 0 {
        from == to
    } else {
        let t = rounds.drop_last();
        let last = rounds.last();
        &&& chained(recv, max, t, from, last.from)
        &&& received(recv, max, last)
        &&& last.to == to
        &&& t.len() > 0 ==> !t.last().end
    }
}

/// The same up to the first receive that says that no more will come; the number of receives
/// is bounded by what can be counted.
pub open spec fn is_run<R, T, F: Fn(R, Vec<T>, usize) -> (R, Vec<T>, bool)>(
    recv: F,
    max: int,
    rounds: Seq<Round<R, T>>,
    from: R,
    to: R,
) -> bool {
    &&& rounds.len() > 0
    &&& chained(recv, max, rounds, from, to)
    &&& rounds.last().end || rounds.len() == u64::MAX
}

/// All items that rounds brought, in order.
pub open spec fn brought<R, T>(rounds: Seq<Round<R, T>>) -> Seq<T>
    decreases rounds.len(),
{
    if rounds.len() == 0 {
        Seq::empty()
    } else {
        brought(rounds.drop_last()) + rounds.last().items
    }
}

/// One receive of a drain into a sink.
pub struct SinkRound<R, T> {
    /// The source before the receive.
    pub from: R,
    /// What the vector held that the receive was given.
    pub given: Seq<T>,
    /// What it held afterwards.
    pub batch: Seq<T>,
    /// How many items the receive said that it had brought.
    pub count: usize,
    /// Whether it said that no more will come.
    pub end: bool,
    /// The source after it.
    pub to: R,
}

/// A receive of at most `max` items may go so.
pub open spec fn received_into<R, T, F: Fn(R, Vec<T>, usize) -> (R, Vec<T>, usize, bool)>(
    recv: F,
    max: int,
    round: SinkRound<R, T>,
) -> bool {
    exists|x: R, buf: Vec<T>, n: usize, r: (R, Vec<T>, usize, bool)|
        x == round.from && buf@ == round.given && n == max && #[trigger] call_ensures(
            recv,
            (x, buf, n),
            r,
        ) && r.0 == round.to && r.1@ == round.batch && r.2 == round.count && r.3 == round.end
}

/// What the vector holds after rounds: nothing if the sink has taken the batch.
pub open spec fn left_by<R, T>(rounds: Seq<SinkRound<R, T>>) -> Seq<T> {
    if rounds.len() == 0 || rounds.last().count > 0 {
        Seq::empty()
    } else {
        rounds.last().batch
    }
}

/// The receives that led from the source `from` to the source `to`, all of them and in order:
/// each is given what the one before has left, and none before the last said that no more
/// will come.
pub open spec fn chained_into<R, T, F: Fn(R, Vec<T>, usize) -> (R, Vec<T>, usize, bool)>(
    recv: F,
    max: int,
    rounds: Seq<SinkRound<R, T>>,
    from: R,
    to: R,
) -> bool
    decreases rounds.len(),
{
    if rounds.len() == 0 {
        from == to
    } else {
        let t = rounds.drop_last();
        let last = rounds.last();
        &&& chained_into(recv, max, t, from, last.from)
        &&& received_into(recv, max, last)
        &&& last.given == left_by(t)
        &&& last.to == to
        &&& t.len() > 0 ==> !t.last().end
    }
}

/// The same up to the first receive that says that no more will come; the number of receives
/// is bounded by what can be counted.
pub open spec fn is_sink_run<R, T, F: Fn(R, Vec<T>, usize) -> (R, Vec<T>, usize, bool)>(
    recv: F,
    max: int,
    rounds: Seq<SinkRound<R, T>>,
    from: R,
    to: R,
) -> bool {
    &&& rounds.len() > 0
    &&& chained_into(recv, max, rounds, from, to)
    &&& rounds.last().end || rounds.len() == u64::MAX
}

/// The batches of rounds that brought items, in order.
pub open spec fn full_batches<R, T>(rounds: Seq<SinkRound<R, T>>) -> Seq<Seq<T>>
    decreases rounds.len(),
{
    if rounds.len() == 0 {
        Seq::empty()
    } else if rounds.last().count > 0 {
        full_batches(rounds.drop_last()).push(rounds.last().batch)
    } else {
        full_batches(rounds.drop_last())
    }
}

/// Has `handler` take every item that `recv` brings from the source `rx`, round by round,
/// until `recv` says that no more will come; the items of that last round are taken too.
/// `recv` is asked for at most `max` items, and at least one, with an empty vector each time,
/// and hands the source back. So does the drain at its end: every receive that was made of
/// the source is one of its rounds.
pub fn drain_batch<R, T, F: Fn(R, Vec<T>, usize) -> (R, Vec<T>, bool), H: Fn(T, O) -> O, O>(
    rx: R,
    max: usize,
    recv: F,
    handler: H,
    init: O,
) -> (out: (R, O))
    requires
        forall|x: R, b: Vec<T>, n: usize|
            b@.len() == 0 && n == batch_size(max) ==> #[trigger] call_requires(recv, (x, b, n)),
        forall|v: T, o: O| #[trigger] call_requires(handler, (v, o)),
    ensures
        exists|rounds: Seq<Round<R, T>>| #[trigger]
            is_run(recv, batch_size(max), rounds, rx, out.0) && handled(
                handler,
                brought(rounds),
                init,
                out.1,
            ),
{
    let size: usize = drain_size(max);
    let ghost first = rx;
    let mut rx = rx;
    let mut buf: Vec<T> = Vec::new();
    let mut acc = init;
    let mut calls: u64 = 0;
    let mut over = false;
    let ghost mut rounds: Seq<Round<R, T>> = Seq::empty();
    while !over
        invariant
            size == batch_size(max),
            buf@.len() == 0,
            forall|x: R, b: Vec<T>, n: usize|
                b@.len() == 0 && n == batch_size(max) ==> #[trigger] call_requires(
                    recv,
                    (x, b, n),
                ),
            forall|v: T, o: O| #[trigger] call_requires(handler, (v, o)),
            calls == rounds.len(),
            !over ==> calls < u64::MAX,
            chained(recv, size as int, rounds, first, rx),
            !over ==> rounds.len() > 0 ==> !rounds.last().end,
            over ==> is_run(recv, size as int, rounds, first, rx),
            handled(handler, brought(rounds), init, acc),
        decreases u64::MAX - calls,
    {
        let ghost from = rx;
        let ghost empty = buf;
        let got = recv(rx, buf, size);
        let ghost answer = got;
        let ghost before = acc;
        let ghost round = Round { from, items: got.1@, end: got.2, to: got.0 };
        let (back, mut b, dc) = got;
        rx = back;
        let (out, end) = drain_step(&mut b, dc, &handler, acc);
        buf = b;
        acc = out;
        calls = calls + 1;
        over = end || calls == u64::MAX;
        proof {
            assert(call_ensures(recv, (from, empty, size), answer));
            assert(received(recv, size as int, round));
            let next = rounds.push(round);
            assert(next.drop_last() =~= rounds);
            lemma_handled_join(handler, brought(rounds), round.items, init, before, acc);
            rounds = next;
        }
    }
    let out = (rx, acc);
    assert(is_run(recv, batch_size(max), rounds, first, out.0));
    assert(handled(handler, brought(rounds), init, out.1));
    out
}

/// What was taken by a sink, and then one batch more, was taken.
proof fn lemma_sunk_push<T, O, S: Fn(Vec<T>, O) -> (Vec<T>, O)>(
    sink: S,
    batches: Seq<Seq<T>>,
    last: Seq<T>,
    init: O,
    mid: O,
    out: (Vec<T>, O),
)
    requires
        sunk(sink, batches, init, mid),
        sunk_once(sink, last, mid, out),
    ensures
        sunk(sink, batches.push(last), init, out.1),
    decreases batches.len(),
{
    let all = batches.push(last);
    if batches.len() == 0 {
        let b = choose|b: Vec<T>| b@ == last && #[trigger] call_ensures(sink, (b, mid), out);
        assert(all.drop_first() =~= Seq::empty());
        assert(b@ == all[0] && call_ensures(sink, (b, init), out) && sunk(
            sink,
            all.drop_first(),
            out.1,
            out.1,
        ));
    } else {
        let (b, r) = choose|b: Vec<T>, r: (Vec<T>, O)|
            b@ == batches[0] && #[trigger] call_ensures(sink, (b, init), r) && sunk(
                sink,
                batches.drop_first(),
                r.1,
                mid,
            );
        lemma_sunk_push(sink, batches.drop_first(), last, r.1, mid, out);
        assert(all.drop_first() =~= batches.drop_first().push(last));
        assert(b@ == all[0] && call_ensures(sink, (b, init), r) && sunk(
            sink,
            all.drop_first(),
            r.1,
            out.1,
        ));
    }
}

/// Has `sink` take every batch that `recv` brings from the source `rx`, as a whole, until
/// `recv` says that no more will come; a batch that comes with that word is taken too. `recv`
/// is asked for at most `max` items, and at least one; it hands back the source, the vector
/// with the items, and how many it has brought. If none, the sink is not called, and the
/// vector goes to `recv` again as it is; else `recv` gets the empty vector that the sink
/// handed back. The source comes back at the end: every receive that was made of it is one
/// of the rounds.
pub fn drain_batch_sink<
    R,
    T,
    F: Fn(R, Vec<T>, usize) -> (R, Vec<T>, usize, bool),
    S: Fn(Vec<T>, O) -> (Vec<T>, O),
    O,
>(rx: R, max: usize, recv: F, sink: S, init: O) -> (out: (R, O))
    requires
        forall|x: R, b: Vec<T>, n: usize|
            n == batch_size(max) ==> #[trigger] call_requires(recv, (x, b, n)),
        forall|b: Vec<T>, o: O| #[trigger] call_requires(sink, (b, o)),
        forall|b: Vec<T>, o: O, r: (Vec<T>, O)| #[trigger]
            call_ensures(sink, (b, o), r) ==> r.0@.len() == 0,
    ensures
        exists|rounds: Seq<SinkRound<R, T>>| #[trigger]
            is_sink_run(recv, batch_size(max), rounds, rx, out.0) && sunk(
                sink,
                full_batches(rounds),
                init,
                out.1,
            ),
{
    let size: usize = drain_size(max);
    let ghost first = rx;
    let mut rx = rx;
    let mut buf: Vec<T> = Vec::new();
    let mut acc = init;
    let mut calls: u64 = 0;
    let mut over = false;
    let ghost mut rounds: Seq<SinkRound<R, T>> = Seq::empty();
    while !over
        invariant
            size == batch_size(max),
            buf@ =~= left_by(rounds),
            forall|x: R, b: Vec<T>, n: usize|
                n == batch_size(max) ==> #[trigger] call_requires(recv, (x, b, n)),
            forall|b: Vec<T>, o: O| #[trigger] call_requires(sink, (b, o)),
            forall|b: Vec<T>, o: O, r: (Vec<T>, O)| #[trigger]
                call_ensures(sink, (b, o), r) ==> r.0@.len() == 0,
            calls == rounds.len(),
            !over ==> calls < u64::MAX,
            chained_into(recv, size as int, rounds, first, rx),
            !over ==> rounds.len() > 0 ==> !rounds.last().end,
            over ==> is_sink_run(recv, size as int, rounds, first, rx),
            sunk(sink, full_batches(rounds), init, acc),
        decreases u64::MAX - calls,
    {
        let ghost from = rx;
        let ghost given = buf;
        let got = recv(rx, buf, size);
        let ghost answer = got;
        let ghost before = acc;
        let ghost round = SinkRound {
            from,
            given: given@,
            batch: got.1@,
            count: got.2,
            end: got.3,
            to: got.0,
        };
        let (back, b, n, dc) = got;
        rx = back;
        let (out, end) = sink_step(b, n, dc, &sink, acc);
        let ghost handed = out;
        buf = out.0;
        acc = out.1;
        calls = calls + 1;
        over = end || calls == u64::MAX;
        proof {
            assert(call_ensures(recv, (from, given, size), answer));
            assert(received_into(recv, size as int, round));
            let next = rounds.push(round);
            assert(next.drop_last() =~= rounds);
            if round.count > 0 {
                lemma_sunk_push(sink, full_batches(rounds), round.batch, init, before, handed);
                let b = choose|b: Vec<T>|
                    b@ == round.batch && #[trigger] call_ensures(sink, (b, before), handed);
                assert(handed.0@.len() == 0);
            }
            rounds = next;
        }
    }
    let out = (rx, acc);
    assert(is_sink_run(recv, batch_size(max), rounds, first, out.0));
    assert(sunk(sink, full_batches(rounds), init, out.1));
    out
}

/// A drain takes every round whole, right after the rounds before it: also the last one,
/// which said that no more will come.
pub proof fn law_every_round_is_drained<R, T>(rounds: Seq<Round<R, T>>, i: int)
    requires
        0 <= i < rounds.len(),
    ensures
        ({
            let at = brought(rounds.subrange(0, i)).len() as int;
            let n = rounds[i].items.len() as int;
            &&& at + n <= brought(rounds).len()
            &&& brought(rounds).subrange(at, at + n) == rounds[i].items
            &&& i == rounds.len() - 1 ==> at + n == brought(rounds).len()
        }),
    decreases rounds.len(),
{
    let t = rounds.drop_last();
    let at = brought(rounds.subrange(0, i)).len() as int;
    let n = rounds[i].items.len() as int;
    if i == rounds.len() - 1 {
        assert(rounds.subrange(0, i) =~= t);
        assert(brought(rounds).subrange(at, at + n) =~= rounds[i].items);
    } else {
        law_every_round_is_drained(t, i);
        assert(t.subrange(0, i) =~= rounds.subrange(0, i));
        assert(t[i] == rounds[i]);
        assert(brought(rounds).subrange(at, at + n) =~= brought(t).subrange(at, at + n));
    }
}

/// The sink gets the batch of every round that brought items, in order and once: also that of
/// the last round, which said that no more will come.
pub proof fn law_every_batch_is_sunk<R, T>(rounds: Seq<SinkRound<R, T>>, i: int)
    requires
        0 <= i < rounds.len(),
    ensures
        rounds[i].count > 0 ==> {
            let k = full_batches(rounds.subrange(0, i)).len() as int;
            &&& k < full_batches(rounds).len()
            &&& full_batches(rounds)[k] == rounds[i].batch
            &&& i == rounds.len() - 1 ==> k == full_batches(rounds).len() - 1
        },
    decreases rounds.len(),
{
    let t = rounds.drop_last();
    if i == rounds.len() - 1 {
        assert(rounds.subrange(0, i) =~= t);
    } else {
        law_every_batch_is_sunk(t, i);
        assert(t.subrange(0, i) =~= rounds.subrange(0, i));
        assert(t[i] == rounds[i]);
    }
}

/// The receives of a drain follow one another without a gap: the first is made of the source
/// that the drain was given, each other one of the source that the one before has left, and
/// the drain hands back the source that the last one has left. Only the last may say that no
/// more will come.
pub proof fn law_no_receive_is_skipped<R, T, F: Fn(R, Vec<T>, usize) -> (R, Vec<T>, bool)>(
    recv: F,
    max: int,
    rounds: Seq<Round<R, T>>,
    from: R,
    to: R,
    i: int,
)
    requires
        chained(recv, max, rounds, from, to),
        0 <= i < rounds.len(),
    ensures
        received(recv, max, rounds[i]),
        rounds[i].from == if i == 0 {
            from
        } else {
            rounds[i - 1].to
        },
        i == rounds.len() - 1 ==> rounds[i].to == to,
        i < rounds.len() - 1 ==> !rounds[i].end,
    decreases rounds.len(),
{
    reveal_with_fuel(chained, 2);
    let t = rounds.drop_last();
    if i < rounds.len() - 1 {
        law_no_receive_is_skipped(recv, max, t, from, rounds.last().from, i);
        assert(t[i] == rounds[i]);
        if i > 0 {
            assert(t[i - 1] == rounds[i - 1]);
        }
    } else if i > 0 {
        law_no_receive_is_skipped(recv, max, t, from, rounds.last().from, i - 1);
        assert(t[i - 1] == rounds[i - 1]);
    }
}

/// The same for a drain into a sink: each receive is given the vector that the one before has
/// left, or an empty one if the sink has taken the batch.
pub proof fn law_no_batch_is_skipped<R, T, F: Fn(R, Vec<T>, usize) -> (R, Vec<T>, usize, bool)>(
    recv: F,
    max: int,
    rounds: Seq<SinkRound<R, T>>,
    from: R,
    to: R,
    i: int,
)
    requires
        chained_into(recv, max, rounds, from, to),
        0 <= i < rounds.len(),
    ensures
        received_into(recv, max, rounds[i]),
        rounds[i].from == if i == 0 {
            from
        } else {
            rounds[i - 1].to
        },
        rounds[i].given == if i == 0 || rounds[i - 1].count > 0 {
            Seq::empty()
        } else {
            rounds[i - 1].batch
        },
        i == rounds.len() - 1 ==> rounds[i].to == to,
        i < rounds.len() - 1 ==> !rounds[i].end,
    decreases rounds.len(),
{
    reveal_with_fuel(chained_into, 2);
    let t = rounds.drop_last();
    if i < rounds.len() - 1 {
        law_no_batch_is_skipped(recv, max, t, from, rounds.last().from, i);
        assert(t[i] == rounds[i]);
        if i > 0 {
            assert(t[i - 1] == rounds[i - 1]);
        }
    } else if i > 0 {
        law_no_batch_is_skipped(recv, max, t, from, rounds.last().from, i - 1);
        assert(t[i - 1] == rounds[i - 1]);
    }
}

} // verus!
