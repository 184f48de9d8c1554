use hel::helper::batch::{
    drain_batch, drain_batch_sink, drain_closed, drain_closed_sink, drain_round, drain_size,
    drain_step, handle_batch, sink_round, sink_step,
};
use hel::helper::panic::{PanicPayload, PanicReason, WORKER_CANCELLED};
use hel::internal_channel::helper::{backoff, deadline_after, Backoff};
use hel::internal_channel::inner::SingleInner;
use hel::internal_channel::receiver::RecvEvent;
use hel::internal_channel::recv_batch::{RecvBatchOp, RecvBatchStep};
use hel::internal_channel::traits::InnerChannel;
use hel::shard::spsc::{shard_spsc, SpscPair};
use hel::text::push_decimal;

/// A channel that holds `items` and whose sender is gone.
fn closed_with<const CAP: usize>(items: std::ops::Range<u64>) -> SingleInner<u64, CAP, u64> {
    let mut ch = shard_spsc::<u64, CAP, u64>(1);
    let SpscPair { tx, rx: _, mut inner } = ch.take_pair(0).unwrap();
    for i in items {
        tx.try_send(&mut inner, i).unwrap();
    }
    tx.close(&mut inner);
    inner
}

/// A batch receive from a channel that is not expected to park.
fn recv_counted<const CAP: usize>(
    mut inner: SingleInner<u64, CAP, u64>,
    mut buf: Vec<u64>,
    max: usize,
) -> (SingleInner<u64, CAP, u64>, Vec<u64>, usize, bool) {
    let mut op = RecvBatchOp::new(max, false);
    match op.step(&mut inner, &mut buf, RecvEvent::Go) {
        RecvBatchStep::Done(n, dc) => (inner, buf, n, dc),
        RecvBatchStep::Wait(_) => panic!("the receive would block"),
    }
}

fn recv_batch_of<const CAP: usize>(
    inner: SingleInner<u64, CAP, u64>,
    buf: Vec<u64>,
    max: usize,
) -> (SingleInner<u64, CAP, u64>, Vec<u64>, bool) {
    let (inner, buf, _, dc) = recv_counted(inner, buf, max);
    (inner, buf, dc)
}

#[test]
fn drain_batch_keeps_last_when_n_and_dc_together() {
    for prefill in [1u64, 2, 5, 255, 256] {
        let inner = closed_with::<256>(0..prefill);
        let (inner, got) = drain_batch(inner, 256, recv_batch_of, |_v: u64, c: u64| c + 1, 0u64);
        assert_eq!(inner.queued(), 0);
        assert_eq!(got, prefill, "prefill={prefill}: batch-drain lost elements");
    }
}

#[test]
fn drain_batch_sink_computes_over_whole_array() {
    for prefill in [1u64, 5, 64, 200] {
        let (_, (sum, mx, batches)) = drain_batch_sink(
            closed_with::<256>(1..prefill + 1),
            64,
            recv_counted,
            |batch: Vec<u64>, acc: (u64, u64, u64)| {
                let sum = acc.0 + batch.iter().sum::<u64>();
                let mx = acc.1.max(batch.iter().copied().max().unwrap_or(0));
                let mut b = batch;
                b.clear();
                (b, (sum, mx, acc.2 + 1))
            },
            (0u64, 0u64, 0u64),
        );
        assert_eq!(sum, (1..=prefill).sum::<u64>(), "prefill={prefill}: sum is wrong");
        assert_eq!(mx, prefill, "prefill={prefill}: max false");
        assert!(batches >= 1, "prefill={prefill}: sink was not called");
    }
}

#[test]
fn drain_batch_sink_no_call_on_empty_final() {
    let (_, calls) = drain_batch_sink(
        closed_with::<256>(0..0),
        64,
        recv_counted,
        |batch: Vec<u64>, acc: u64| {
            let mut b = batch;
            b.clear();
            (b, acc + 1)
        },
        0u64,
    );
    assert_eq!(calls, 0, "sink should not be called for an empty final");
}

#[test]
fn drain_batch_sink_collects_whole_batch() {
    let (_, (collected, calls)) = drain_batch_sink(
        closed_with::<256>(0..200),
        64,
        recv_counted,
        |batch: Vec<u64>, acc: (Vec<u64>, u64)| {
            let (mut all, calls) = acc;
            all.extend(batch.iter().copied());
            let mut b = batch;
            b.clear();
            (b, (all, calls + 1))
        },
        (Vec::new(), 0u64),
    );
    assert_eq!(collected.len(), 200, "not all elements went through the sink");
    assert!(calls >= 1, "sink was not called");
    // 200 items in batches of 64
    assert_eq!(calls, 4);
    let mut got = collected;
    got.sort_unstable();
    assert_eq!(got, (0..200u64).collect::<Vec<_>>(), "contents != original");
}

#[test]
fn drain_batch_with_zero_max_terminates() {
    let inner = closed_with::<16>(0..5);
    let (_, got) = drain_batch(inner, 0, recv_batch_of, |_v: u64, c: u64| c + 1, 0u64);
    assert_eq!(got, 5, "zero max lost elements or changed semantics");
}

/// The receive may bring items together with the word that no more will come; they are
/// taken too, and the receive is not asked again. The source comes back as the last receive
/// has left it.
#[test]
fn drains_take_the_round_that_ends_them() {
    let script: Vec<(Vec<u64>, bool)> =
        vec![(vec![1, 2], false), (vec![], false), (vec![3], true), (vec![4], true)];
    // The source: how much was asked for, call by call.
    let recv = |mut calls: Vec<usize>, buf: Vec<u64>, max: usize| {
        assert!(buf.is_empty());
        let (b, dc) = script[calls.len()].clone();
        calls.push(max);
        (calls, b, dc)
    };
    let keep = |v: u64, mut acc: Vec<u64>| {
        acc.push(v);
        acc
    };
    assert_eq!(drain_batch(vec![], 0, recv, keep, vec![]), (vec![1, 1, 1], vec![1, 2, 3]));
    let sink = |b: Vec<u64>, mut acc: Vec<Vec<u64>>| {
        acc.push(b);
        (Vec::new(), acc)
    };
    let counted = |calls: Vec<usize>, buf: Vec<u64>, max: usize| {
        let (calls, b, dc) = recv(calls, buf, max);
        let n = b.len();
        (calls, b, n, dc)
    };
    assert_eq!(
        drain_batch_sink(vec![], 5, counted, sink, vec![]),
        (vec![5, 5, 5], vec![vec![1, 2], vec![3]])
    );
}

/// No receive is made beside those whose items are taken.
#[test]
fn drains_skip_no_receive() {
    let next = |i: u64, mut buf: Vec<u64>, max: usize| {
        for k in 0..max as u64 {
            buf.push(i + k);
        }
        (i + max as u64, buf, i + max as u64 >= 12)
    };
    let sum = |v: u64, acc: Vec<u64>| {
        let mut acc = acc;
        acc.push(v);
        acc
    };
    assert_eq!(drain_batch(0, 5, next, sum, vec![]), (15, (0..15).collect::<Vec<u64>>()));
    let counted = |i: u64, buf: Vec<u64>, max: usize| {
        let (i, b, dc) = next(i, buf, max);
        let n = b.len();
        (i, b, n, dc)
    };
    let lens = |b: Vec<u64>, mut acc: Vec<(u64, usize)>| {
        acc.push((b[0], b.len()));
        (Vec::new(), acc)
    };
    assert_eq!(
        drain_batch_sink(0, 4, counted, lens, vec![]),
        (12, vec![(0, 4), (4, 4), (8, 4)])
    );
}

/// Whether the sink is called goes by what the receive says that it brought; what it left in
/// the vector else goes to the next receive.
#[test]
fn sink_waits_for_a_count() {
    let recv = |mut given: Vec<Vec<u64>>, mut buf: Vec<u64>, _max: usize| {
        given.push(buf.clone());
        let i = given.len();
        buf.push(i as u64);
        (given, buf, if i == 1 { 0 } else { 1 }, i == 3)
    };
    let sink = |b: Vec<u64>, mut acc: Vec<Vec<u64>>| {
        acc.push(b);
        (Vec::new(), acc)
    };
    assert_eq!(
        drain_batch_sink(vec![], 4, recv, sink, vec![]),
        (vec![vec![], vec![1], vec![]], vec![vec![1, 2], vec![3]])
    );
}

#[test]
fn drain_steps_hand_the_flag_on() {
    let sum = |v: u64, acc: u64| acc + v;
    let mut buf = vec![1, 2, 3];
    assert_eq!(drain_step(&mut buf, true, &sum, 10), (16, true));
    assert!(buf.is_empty());
    assert_eq!(drain_step(&mut buf, false, &sum, 5), (5, false));
    let count = |b: Vec<u64>, acc: usize| {
        let n = b.len();
        (Vec::new(), acc + n)
    };
    assert_eq!(sink_step(vec![7, 8], 2, true, &count, 1), ((vec![], 3), true));
    assert_eq!(sink_step(vec![], 0, false, &count, 1), ((vec![], 1), false));
    assert_eq!(sink_step(vec![7, 8], 0, false, &count, 1), ((vec![7, 8], 1), false));
    assert_eq!((drain_size(0), drain_size(7)), (1, 7));
}

#[test]
fn closed_channel_is_drained_in_batches() {
    let mut inner = closed_with::<8>(0..5);
    let sizes = |b: Vec<u64>, mut acc: Vec<usize>| {
        acc.push(b.len());
        (Vec::new(), acc)
    };
    assert_eq!(drain_closed_sink(2, &mut inner, sizes, Vec::new()), vec![2, 2, 1]);
}

/// A round takes what is there, closed or not.
#[test]
fn rounds_take_what_is_there() {
    let mut ch = shard_spsc::<u64, 8, u64>(1);
    let SpscPair { tx, rx: _, mut inner } = ch.take_pair(0).unwrap();
    for i in 0..5 {
        tx.try_send(&mut inner, i).unwrap();
    }
    let sum = |v: u64, acc: u64| acc + v;
    assert_eq!(drain_round(3, &mut inner, &sum, 0), (3, false));
    let keep = |b: Vec<u64>, mut acc: Vec<u64>| {
        let mut b = b;
        acc.append(&mut b);
        (b, acc)
    };
    let ((buf, got), dc) = sink_round(0, &mut inner, Vec::new(), &keep, Vec::new());
    assert_eq!((buf, got, dc), (vec![], vec![3], false));
    assert_eq!(drain_round(3, &mut inner, &sum, 0), (4, false));
    assert_eq!(drain_round(3, &mut inner, &sum, 7), (7, false));
    tx.close(&mut inner);
    assert_eq!(drain_round(3, &mut inner, &sum, 7), (7, true));
    let ((buf, got), dc) = sink_round(2, &mut inner, Vec::new(), &keep, vec![1]);
    assert_eq!((buf, got, dc), (vec![], vec![1], true));
}

#[test]
fn handler_takes_items_in_order() {
    let f = |v: u64, mut acc: Vec<u64>| {
        acc.push(v);
        acc
    };
    assert_eq!(handle_batch(vec![3, 1, 2], &f, vec![9]), vec![9, 3, 1, 2]);
    assert_eq!(handle_batch(Vec::new(), &f, vec![9]), vec![9]);
    let mut inner = closed_with::<8>(0..5);
    assert_eq!(drain_closed(2, &mut inner, f, Vec::new()), vec![0, 1, 2, 3, 4]);
}

#[test]
fn user_panic_with_same_text_is_not_a_cancellation() {
    let test: PanicReason<u64> = PanicReason::cancelled();
    assert!(test.is_cancelled());
    assert_eq!(test.message(), Some(WORKER_CANCELLED));
    let user: PanicReason<u64> =
        PanicReason(PanicPayload::Message(WORKER_CANCELLED.to_string()));
    assert!(!user.is_cancelled());
    assert_eq!(user.message(), Some(WORKER_CANCELLED));
}

#[test]
fn payload_without_text_has_no_message() {
    let reason: PanicReason<u64> = PanicReason(PanicPayload::Other(7));
    assert!(!reason.is_cancelled());
    assert_eq!(reason.message(), None);
    assert!(matches!(reason.into_inner(), PanicPayload::Other(7)));
}

#[test]
fn backoff_doubles_and_then_yields() {
    let mut wait = 0u32;
    let mut spins = Vec::new();
    loop {
        match backoff(&mut wait) {
            Backoff::Spin(n) => spins.push(n),
            Backoff::Yield => break,
        }
    }
    assert_eq!(spins, vec![2, 4, 8, 16, 32, 64]);
    assert_eq!(wait, 7);
    let mut wait = u32::MAX;
    assert_eq!(backoff(&mut wait), Backoff::Yield);
    assert_eq!(wait, u32::MAX);
}

#[test]
fn deadlines_are_clamped_to_the_farthest_point() {
    assert_eq!(deadline_after(10, 5), 15);
    assert_eq!(deadline_after(0, u64::MAX), u64::MAX);
    assert_eq!(deadline_after(8, u64::MAX), u64::MAX);
    assert_eq!(deadline_after(8, u64::MAX - 8), u64::MAX);
    assert_eq!(deadline_after(u64::MAX, 3), u64::MAX);
}

#[test]
fn numbers_in_decimal() {
    for (n, want) in [(0usize, "0"), (9, "9"), (10, "10"), (1203, "1203")] {
        let mut s = String::from("#");
        push_decimal(&mut s, n);
        assert_eq!(s, format!("#{want}"));
    }
    let mut s = String::new();
    push_decimal(&mut s, usize::MAX);
    assert_eq!(s, usize::MAX.to_string());
}
