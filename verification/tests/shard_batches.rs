use hel::internal_channel::errors::{
    AsyncRecvError, AsyncSendRefError, RecvError, SendBatchError, SendError, TryRecvError,
    TrySendBatchError,
};
use hel::internal_channel::inner::SeqInner;
use hel::internal_channel::receiver::{
    recv_batch, recv_batch_begin, RecvEvent, RecvOp, RecvStep,
};
use hel::internal_channel::recv_batch::RecvBatchStep;
use hel::internal_channel::sender::{
    BatchStart, BatchStep, SendBatchOp, SendEvent, SendOp, SendStep,
};
use hel::internal_channel::traits::InnerChannel;
use hel::shard::errors::{
    ShardAsyncRecvError, ShardKeyAsyncSendRefError, ShardKeyBatchSendError, ShardRecvError,
    ShardTryRecvError,
};
use hel::shard::mpmc::batch::{Budget, ShardBatch};
use hel::shard::mpmc::flow::{BatchFlow, FlowStep, RoundFlow, RoundStep};
use hel::shard::mpmc::hash::{auto_shards, fnv1a, hash_key, hash_shard, hash_word};
use hel::shard::mpmc::recv_any::RecvAnyFuture;
use hel::shard::mpmc::sender_key::{shard_key, ShardKey};
use hel::shard::mpmc::sender_round_robin::round_robin;
use hel::shard::recv::ShardRecvStep;
use std::time::Duration;

/// Runs a receive that is not expected to park.
fn run_recv<T, const CAP: usize>(
    lane: &mut SeqInner<T, CAP, u64>,
    mut op: RecvOp,
) -> Result<T, RecvError> {
    let mut ev: RecvEvent<u64> = RecvEvent::Go;
    loop {
        ev = match op.step(lane, ev) {
            RecvStep::Done(r) => return r,
            RecvStep::AskClock => RecvEvent::Expired(Duration::from_millis(10)),
            RecvStep::AskThread => RecvEvent::Thread(1),
            RecvStep::Park => panic!("the receive would block"),
            _ => RecvEvent::Go,
        };
    }
}

/// Runs a send that is not expected to park.
fn run_send<T, const CAP: usize>(
    lane: &mut SeqInner<T, CAP, u64>,
    mut op: SendOp<T>,
) -> Result<(), SendError<T>> {
    let mut ev: SendEvent<u64> = SendEvent::Go;
    loop {
        ev = match op.step(lane, ev) {
            SendStep::Done(r) => return r,
            SendStep::AskClock => SendEvent::Expired(Duration::from_millis(10)),
            SendStep::AskThread => SendEvent::Thread(1),
            SendStep::Park => panic!("the send would block"),
            _ => SendEvent::Go,
        };
    }
}

/// A batch receive that is not expected to park.
fn run_recv_batch<T, const CAP: usize>(
    lane: &mut SeqInner<T, CAP, u64>,
    buf: &mut Vec<T>,
    max: usize,
) -> (usize, bool) {
    match recv_batch_begin(lane, max) {
        Some(r) => r,
        None => {
            let first = run_recv(lane, RecvOp::new(false));
            recv_batch(lane, buf, max, first)
        }
    }
}

/// What a batch receive of at most `max` gives.
fn read_some<T, const CAP: usize>(lane: &mut SeqInner<T, CAP, u64>, max: usize) -> Vec<T> {
    let mut buf = Vec::new();
    run_recv_batch(lane, &mut buf, max);
    buf
}

fn symbol(item: &(String, u64)) -> &str {
    item.0.as_str()
}

/// Sends a batch that was laid out by shard, with waiting; nothing is expected to park.
fn run_batch<T, const CAP: usize, F: for<'k> Fn(&'k T) -> &'k str>(
    lanes: &mut Vec<SeqInner<T, CAP, u64>>,
    mut b: ShardBatch<T>,
    buf: &mut Vec<T>,
    key_fn: F,
) -> Result<usize, ShardKeyBatchSendError> {
    while let Some((shard, mut group)) = b.take() {
        let r = match SendBatchOp::begin(&mut lanes[shard], &mut group, false) {
            BatchStart::Done(r) => r,
            BatchStart::Wait(_) => panic!("the batch would block"),
        };
        b = b.settle(shard, group, r, buf, &key_fn)?;
    }
    Ok(b.finish(Vec::new(), buf))
}

/// Runs a batch until it is over or pending.
fn run_flow<T, const CAP: usize>(
    f: &mut BatchFlow<T>,
    lanes: &mut Vec<SeqInner<T, CAP, u64>>,
    waker: u64,
) -> FlowStep {
    loop {
        match f.step(lanes, waker) {
            FlowStep::Again => {}
            step => return step,
        }
    }
}

/// Two keys of different shards.
fn two_keys_in_different_shards(tx: &ShardKey) -> (&'static str, &'static str) {
    const KEYS: [&str; 8] = ["K0", "K1", "K2", "K3", "K4", "K5", "K6", "K7"];
    let ka = KEYS[0];
    let kb = KEYS
        .iter()
        .find(|k| tx.shard_for(k) != tx.shard_for(ka))
        .expect("among 8 keys at least one maps to another shard");
    (ka, kb)
}

/// One key for each shard.
fn keys_covering_all_shards(tx: &ShardKey, shards: usize) -> Vec<&'static str> {
    const CANDIDATES: &[&str] = &[
        "A", "B", "C", "D", "E", "F", "G", "H", "I", "J", "K", "L", "M", "N", "O", "P",
    ];
    let mut by_shard: Vec<Option<&'static str>> = vec![None; shards];
    for &k in CANDIDATES {
        let s = tx.shard_for(k);
        if by_shard[s].is_none() {
            by_shard[s] = Some(k);
        }
    }
    by_shard
        .into_iter()
        .map(|o| o.expect("For each shard there must be a candidate key"))
        .collect()
}

#[test]
fn key_batch_err_returns_all_unsent() {
    let (tx, _rx, mut lanes) = shard_key::<u64, 2, u64>(2);
    let (ka, kb) = two_keys_in_different_shards(&tx);
    let mut batch: Vec<u64> = vec![1, 2, 3, 10, 20, 30];
    let before = batch.len();
    let r = tx.try_send_batch(&mut lanes, &mut batch, |v| if *v < 10 { ka } else { kb });
    let sent = r.unwrap_err().sent;
    assert_eq!(sent + batch.len(), before, "no item is lost");
    let small: Vec<u64> = batch.iter().copied().filter(|v| *v < 10).collect();
    let big: Vec<u64> = batch.iter().copied().filter(|v| *v >= 10).collect();
    assert!(small.windows(2).all(|w| w[0] < w[1]));
    assert!(big.windows(2).all(|w| w[0] < w[1]));
}

#[test]
fn key_batch_err_identity_of_unsent() {
    let (tx, rx, mut lanes) = shard_key::<u64, 2, u64>(2);
    let (ka, kb) = two_keys_in_different_shards(&tx);
    let original: Vec<u64> = vec![1, 2, 3, 10, 20, 30];
    let mut batch = original.clone();
    let _ = tx.try_send_batch(&mut lanes, &mut batch, |v| if *v < 10 { ka } else { kb });
    let mut all: Vec<u64> = batch.clone();
    let receivers = rx.into_receivers();
    for (s, r) in receivers.iter().enumerate() {
        while let Ok(v) = r.try_recv(&mut lanes[s]) {
            all.push(v);
        }
    }
    all.sort_unstable();
    let mut expected = original;
    expected.sort_unstable();
    assert_eq!(all, expected, "nothing lost, nothing doubled");
}

#[test]
fn key_blocking_batch_disconnect_returns_all_unsent() {
    let (tx, rx, mut lanes) = shard_key::<u64, 8, u64>(2);
    rx.close(&mut lanes);
    let mut batch: Vec<u64> = (0..6).collect();
    let before = batch.len();
    let b = tx.send_batch(&mut batch, &|_: &u64| "K");
    let e = run_batch(&mut lanes, b, &mut batch, |_| "K").unwrap_err();
    assert_eq!(e.sent + batch.len(), before);
    assert_eq!(e.sent, 0);
    assert_eq!(e.key, "K");
    assert_eq!(e.shard, tx.shard_for("K"));
    assert_eq!(e.reason, SendBatchError::Disconnected);
    assert_eq!(
        e.text(),
        format!(
            "ShardKeyBatchSendError {{ key: K, shard: {}, sent: 0, reason: Disconnected }}",
            e.shard
        )
    );
}

#[test]
fn blocking_batch_goes_to_every_shard() {
    let (tx, _rx, mut lanes) = shard_key::<u64, 4, u64>(2);
    let (ka, kb) = two_keys_in_different_shards(&tx);
    let mut batch: Vec<u64> = vec![10, 1, 20, 2, 3];
    let b = tx.send_batch(&mut batch, &|v: &u64| if *v < 10 { ka } else { kb });
    assert!(batch.is_empty());
    let r = run_batch(&mut lanes, b, &mut batch, |v| if *v < 10 { ka } else { kb });
    assert_eq!(r, Ok(5));
    assert!(batch.is_empty());
    assert_eq!(read_some(&mut lanes[tx.shard_for(ka)], 8), vec![1, 2, 3]);
    assert_eq!(read_some(&mut lanes[tx.shard_for(kb)], 8), vec![10, 20]);
}

#[test]
fn key_batch_async_disconnect_no_loss() {
    let (tx, rx, mut lanes) = shard_key::<u64, 2, u64>(2);
    rx.close(&mut lanes);
    let mut batch: Vec<u64> = (0..6).collect();
    let before = batch.len();
    let mut f = tx.send_batch_async(&mut batch, &|_: &u64| "K");
    assert_eq!(run_flow(&mut f, &mut lanes, 1), FlowStep::Disconnected);
    let e = f.finish_keyed(&mut batch, &|_: &u64| "K").unwrap_err();
    assert_eq!(e.sent + batch.len(), before, "no item is lost when the receivers are gone");
    assert_eq!((e.key.as_str(), e.shard), ("K", tx.shard_for("K")));
    assert_eq!(batch, (0..6).collect::<Vec<u64>>());
}

#[test]
fn key_batch_async_cancel_keeps_batch() {
    const CAP: usize = 2;
    const SHARDS: usize = 2;
    let (tx, _rx, mut lanes) = shard_key::<(String, u64), CAP, u64>(SHARDS);
    let keys = keys_covering_all_shards(&tx, SHARDS);
    for &k in &keys {
        for i in 0..CAP as u64 {
            tx.try_send(&mut lanes, k, (k.to_string(), i)).unwrap();
        }
    }
    let expected: Vec<(String, u64)> = vec![
        (keys[0].to_string(), 10),
        (keys[1].to_string(), 20),
        (keys[1].to_string(), 21),
    ];
    let mut batch = expected.clone();
    let mut f = tx.send_batch_async(&mut batch, &symbol);
    assert_eq!(run_flow(&mut f, &mut lanes, 1), FlowStep::Pending);
    f.cancel(&mut lanes, &mut batch);
    assert_eq!(batch, expected, "cancellation must lose nothing and reorder nothing");
}

#[test]
fn key_batch_async_cancel_keeps_per_key_fifo() {
    const CAP: usize = 2;
    const SHARDS: usize = 2;
    let (tx, _rx, mut lanes) = shard_key::<(String, u64), CAP, u64>(SHARDS);
    let keys = keys_covering_all_shards(&tx, SHARDS);
    for &k in &keys {
        for i in 0..CAP as u64 {
            tx.try_send(&mut lanes, k, (k.to_string(), i)).unwrap();
        }
    }
    let expected: Vec<(String, u64)> = (10..15).map(|i| (keys[0].to_string(), i)).collect();
    let mut batch = expected.clone();
    let mut f = tx.send_batch_async(&mut batch, &symbol);
    assert_eq!(run_flow(&mut f, &mut lanes, 1), FlowStep::Pending);
    f.cancel(&mut lanes, &mut batch);
    assert_eq!(batch, expected, "cancellation must lose nothing and keep per key order");
}

#[test]
fn key_send_ref_async_success() {
    let (tx, rx, mut lanes) = shard_key::<u64, 8, u64>(4);
    let shard = tx.shard_for("AAPL");
    let mut slot = Some(99u64);
    let (s, mut f) = tx.send_ref_async("AAPL");
    assert_eq!(s, shard);
    assert_eq!(f.poll(&mut lanes[s], &mut slot, 1), Some(Ok(())));
    assert_eq!(slot, None);
    assert_eq!(rx.receiver(shard).recv_async().poll(&mut lanes[shard], 2), Some(Ok(99)));
}

#[test]
fn key_send_ref_async_cancel_keeps_value() {
    const CAP: usize = 2;
    let (tx, rx, mut lanes) = shard_key::<u64, CAP, u64>(2);
    let shard = tx.shard_for("AAPL");
    for i in 0..CAP as u64 {
        let (s, mut f) = tx.send_async("AAPL", i);
        assert!(matches!(f.poll(&mut lanes[s], 1), Some(Ok(()))));
    }
    let mut slot = Some(500u64);
    let (s, mut f) = tx.send_ref_async("AAPL");
    assert_eq!(f.poll(&mut lanes[s], &mut slot, 1), None, "target shard is full");
    f.cancel(&mut lanes[s], &slot);
    assert_eq!(slot, Some(500), "cancellation must keep the value in the slot");
    for i in 0..CAP as u64 {
        assert_eq!(rx.receiver(shard).recv_async().poll(&mut lanes[shard], 2), Some(Ok(i)));
    }
    assert!(rx.receiver(shard).try_recv(&mut lanes[shard]).is_err());
}

#[test]
fn key_send_ref_async_disconnect_reports_key_and_shard() {
    let (tx, rx, mut lanes) = shard_key::<u64, 4, u64>(4);
    let shard = tx.shard_for("MSFT");
    rx.close(&mut lanes);
    let mut slot = Some(1u64);
    let (s, mut f) = tx.send_ref_async("MSFT");
    let err = match f.poll(&mut lanes[s], &mut slot, 1) {
        Some(Err(err)) => ShardKeyAsyncSendRefError { key: "MSFT".to_string(), shard: s, err },
        _ => panic!("the receivers are gone"),
    };
    assert_eq!(err.key, "MSFT");
    assert_eq!(err.shard, shard);
    assert_eq!(err.err, AsyncSendRefError::Disconnected);
    assert_eq!(slot, Some(1));
}

#[test]
fn drain_mode_keeps_per_key_fifo() {
    const CAP: usize = 4;
    const N: u64 = 40;
    let (tx, rx, mut lanes) = shard_key::<(String, u64), CAP, u64>(2);
    let mut batch: Vec<(String, u64)> = (0..N).map(|i| ("AAA".to_string(), i)).collect();
    let shard = rx.shard_for("AAA");
    let mut f = tx.send_batch_async(&mut batch, &symbol);
    let mut got = Vec::new();
    while run_flow(&mut f, &mut lanes, 7) == FlowStep::Pending {
        // the batch waits; one item is read, which wakes it
        got.push(rx.receiver(shard).try_recv(&mut lanes[shard]).unwrap().1);
        assert_eq!(lanes[shard].take_woken(), vec![7]);
    }
    assert_eq!(f.sent(), N as usize, "whole batch should go out");
    assert_eq!(f.finish_keyed(&mut batch, &symbol), Ok(N as usize));
    assert!(batch.is_empty(), "nothing should be left behind");
    while let Ok((_, v)) = rx.receiver(shard).try_recv(&mut lanes[shard]) {
        got.push(v);
    }
    let want: Vec<u64> = (0..N).collect();
    assert_eq!(got, want, "per key order");
}

#[test]
fn cancel_mid_drain_restores_fifo_order() {
    const CAP: usize = 4;
    const N: u64 = 32;
    let (tx, _rx, mut lanes) = shard_key::<(String, u64), CAP, u64>(2);
    let mut batch: Vec<(String, u64)> = (0..N).map(|i| ("AAA".to_string(), i)).collect();
    let mut f = tx.send_batch_async(&mut batch, &symbol);
    assert_eq!(run_flow(&mut f, &mut lanes, 1), FlowStep::Pending);
    f.cancel(&mut lanes, &mut batch);
    assert!(!batch.is_empty(), "leftovers must come back");
    let seqs: Vec<u64> = batch.iter().map(|(_, s)| *s).collect();
    assert_eq!(seqs, (CAP as u64..N).collect::<Vec<_>>(), "leftovers in order");
    assert!(!lanes[tx.shard_for("AAA")].sender_waiters().has_waiters());
}

/// Every key is asked for before an item moves, so a key function that gives up in the
/// middle leaves the batch as it was.
#[test]
fn keys_are_read_before_items_move() {
    let (tx, _rx, mut lanes) = shard_key::<u64, 8, u64>(2);
    let mut buf = vec![1u64, 2, 3, 4];
    let asked = std::cell::RefCell::new(Vec::new());
    let r = tx.try_send_batch(&mut lanes, &mut buf, |v| {
        asked.borrow_mut().push(*v);
        "key"
    });
    assert_eq!(r, Ok(4));
    assert_eq!(*asked.borrow(), vec![1, 2, 3, 4]);
}

#[test]
fn try_send_batch_attempts_every_shard() {
    let (tx, _rx, mut lanes) = shard_key::<(String, u64), 2, u64>(4);
    let mut keys: Vec<Option<String>> = vec![None; 4];
    let mut i = 0u32;
    while keys.iter().any(|k| k.is_none()) {
        let k = format!("k{i}");
        i += 1;
        let s = tx.shard_for(&k);
        if keys[s].is_none() {
            keys[s] = Some(k);
        }
    }
    let keys: Vec<String> = keys.into_iter().map(Option::unwrap).collect();
    tx.try_send(&mut lanes, &keys[0], (keys[0].clone(), 100)).unwrap();
    tx.try_send(&mut lanes, &keys[0], (keys[0].clone(), 101)).unwrap();
    let mut buf: Vec<(String, u64)> = (0..4).map(|s| (keys[s].clone(), s as u64)).collect();
    let err = tx.try_send_batch(&mut lanes, &mut buf, symbol).unwrap_err();
    assert_eq!(err.sent, 3, "the three free shards must be attempted");
    assert_eq!(err.shard, 0, "the full shard is the reported culprit");
    assert_eq!(buf.len(), 1, "only the full shard's item comes back");
    assert_eq!(buf[0].1, 0);
    assert_eq!(tx.shard_for(&err.key), 0, "error key points at the culprit");
    assert_eq!(err.reason, TrySendBatchError::Full);
}

#[test]
fn key_errors_name_key_and_shard() {
    let (tx, rx, mut lanes) = shard_key::<u64, 2, u64>(4);
    let s = tx.shard_for("AAPL");
    tx.try_send(&mut lanes, "AAPL", 1).unwrap();
    tx.try_send(&mut lanes, "AAPL", 2).unwrap();
    let e = tx.try_send(&mut lanes, "AAPL", 3).unwrap_err();
    assert_eq!((e.key.as_str(), e.shard), ("AAPL", s));
    assert!(e.err.is_full());
    assert_eq!(
        e.text(),
        format!("ShardKeyTrySendError {{ key: AAPL, shard: {s}, err: Full }}")
    );
    assert_eq!(e.err.into_inner(), 3);
    rx.close(&mut lanes);
    let e = tx.try_send(&mut lanes, "AAPL", 4).unwrap_err();
    assert!(e.err.is_disconnected());
}

#[test]
fn rr_batch_async_disconnect_no_loss() {
    let (mut tx, rx, mut lanes) = round_robin::<u64, 4, u64>(2);
    rx.close(&mut lanes);
    let mut batch: Vec<u64> = (0..6).collect();
    let before = batch.len();
    let mut f = RoundFlow::new();
    let e = loop {
        match f.step(&mut tx, &mut lanes, &mut batch, 1) {
            RoundStep::Again => {}
            RoundStep::Done(Err(e)) => break e,
            _ => panic!("the receivers are gone"),
        }
    };
    assert_eq!(e.sent + batch.len(), before, "no item is lost when the receivers are gone");
    assert_eq!(e.sent, 0);
    assert_eq!(e.text(), format!("ShardAsyncBatchSendError {{ shard: {}, sent: 0 }}", e.shard));
}

/// A batch that does not fit spreads over the shards, waits, and goes on when there is
/// room.
#[test]
fn round_batch_spreads_waits_and_goes_on() {
    let (mut tx, rx, mut lanes) = round_robin::<u64, 2, u64>(2);
    let mut batch: Vec<u64> = (0..6).collect();
    let mut f = RoundFlow::new();
    assert_eq!(f.step(&mut tx, &mut lanes, &mut batch, 5), RoundStep::Again);
    assert_eq!(batch, vec![2, 3, 4]);
    // the last one is on its way to shard 1
    assert_eq!(f.step(&mut tx, &mut lanes, &mut batch, 5), RoundStep::Again);
    // shard 0 is full; the next last one goes to shard 1
    assert_eq!(f.step(&mut tx, &mut lanes, &mut batch, 5), RoundStep::Again);
    assert_eq!(batch, vec![2, 3]);
    assert_eq!(f.step(&mut tx, &mut lanes, &mut batch, 5), RoundStep::Again);
    assert_eq!(f.step(&mut tx, &mut lanes, &mut batch, 5), RoundStep::Again);
    assert_eq!(f.step(&mut tx, &mut lanes, &mut batch, 5), RoundStep::Pending);
    assert_eq!(rx.receiver(1).try_recv(&mut lanes[1]).unwrap(), 5);
    assert_eq!(lanes[1].take_woken(), vec![5]);
    assert_eq!(f.step(&mut tx, &mut lanes, &mut batch, 5), RoundStep::Again);
    assert_eq!(batch, vec![2]);
    rx.receiver(0).try_recv(&mut lanes[0]).unwrap();
    let step = f.step(&mut tx, &mut lanes, &mut batch, 5);
    assert_eq!(step, RoundStep::Done(Ok(6)));
    assert!(batch.is_empty());
}

#[test]
fn cancelled_round_batch_gives_the_item_back() {
    let (mut tx, _rx, mut lanes) = round_robin::<u64, 1, u64>(1);
    let mut batch: Vec<u64> = vec![1, 2, 3];
    let mut f = RoundFlow::new();
    while f.step(&mut tx, &mut lanes, &mut batch, 5) == RoundStep::Again {}
    assert_eq!(batch, vec![2]);
    assert!(lanes[0].sender_waiters().has_waiters());
    f.cancel(&mut lanes, &mut batch);
    assert_eq!(batch, vec![2, 3]);
    assert!(!lanes[0].sender_waiters().has_waiters());
}

#[test]
fn turns_go_round() {
    let (mut tx, _rx, mut lanes) = round_robin::<u64, 8, u64>(4);
    let turns: Vec<usize> = (0..6).map(|_| tx.next_shard()).collect();
    assert_eq!(turns, vec![0, 1, 2, 3, 0, 1]);
    let mut other = tx.clone(&mut lanes);
    assert_eq!(other.next_shard(), 0);
    assert_eq!(tx.next_shard(), 2);
}

#[test]
fn round_robin_refusals_name_the_shard() {
    let (mut tx, _rx, mut lanes) = round_robin::<u64, 1, u64>(2);
    tx.try_send(&mut lanes, 1).unwrap();
    tx.try_send(&mut lanes, 2).unwrap();
    let e = tx.try_send(&mut lanes, 3).unwrap_err();
    assert_eq!(e.shard, 0);
    assert!(e.err.is_full());
    assert_eq!(e.text(), "ShardTrySendError { shard: 0, err: Full }");
    let mut batch = vec![4, 5];
    let e = tx.try_send_batch(&mut lanes, &mut batch).unwrap_err();
    assert_eq!((e.shard, e.sent, e.reason), (1, 0, TrySendBatchError::Full));
    assert_eq!(batch, vec![4, 5]);
    let (s, op) = tx.send_timeout(6);
    assert_eq!(s, 0);
    assert!(run_send(&mut lanes[s], op).unwrap_err().is_timeout());
    match tx.send_batch(&mut lanes, &mut batch, false) {
        (1, BatchStart::Wait(op)) => assert_eq!(op.into_remaining(), vec![4, 5]),
        _ => panic!("shard 1 is full"),
    }
}

#[test]
fn try_recv_any_reports_disconnect() {
    let (mut tx, mut rx, mut lanes) = round_robin::<u64, 8, u64>(2);
    tx.try_send(&mut lanes, 1).unwrap();
    tx.close(&mut lanes);
    let got = rx.try_recv_any(&mut lanes).unwrap().expect("one item is queued");
    assert_eq!(got.1, 1);
    let e = rx.try_recv_any(&mut lanes).unwrap_err();
    assert_eq!(e.disconnected_shards, 2);
    assert_eq!(
        e.text(),
        "ShardRecvAnyError { disconnected: 2, err: Disconnected }"
    );

    let (mut tx2, mut rx2, mut lanes2) = round_robin::<u64, 8, u64>(2);
    tx2.try_send(&mut lanes2, 5).unwrap();
    tx2.close(&mut lanes2);
    let mut buf = Vec::new();
    let (n, dc) = rx2.try_recv_batch_any(&mut lanes2, &mut buf, 8);
    assert_eq!((n, dc), (1, false), "items first, no dc while draining");
    let (n, dc) = rx2.try_recv_batch_any(&mut lanes2, &mut buf, 8);
    assert_eq!((n, dc), (0, true), "empty + closed everywhere -> dc");
}

#[test]
fn get_receiver_is_the_non_panicking_route() {
    let (mut tx, rx, mut lanes) = round_robin::<u64, 8, u64>(4);
    tx.try_send(&mut lanes, 9).unwrap();
    assert!(rx.get_receiver(7).is_none(), "out of range -> None, not panic");
    assert!(!rx.has_shard(7));
    let r = rx.get_receiver(0).expect("shard 0 exists");
    let _ = r.try_recv(&mut lanes[0]);
}

#[test]
fn errors_are_real_errors() {
    let (mut tx, rx, mut lanes) = round_robin::<u64, 8, u64>(1);
    rx.close(&mut lanes);
    let e = tx.try_send(&mut lanes, 1).unwrap_err();
    let text = e.text();
    assert!(text.contains("disconnected"), "human readable message, got: {text}");
    let err = tx.try_send(&mut lanes, 41).unwrap_err();
    assert_eq!(err.err.into_inner(), 41, "payload must stay reachable");
}

#[test]
fn try_recv_batch_any_does_not_block_on_an_empty_shard() {
    let (mut tx, mut rx, mut lanes) = round_robin::<u64, 16, u64>(2);
    tx.try_send(&mut lanes, 1).unwrap();
    tx.try_send(&mut lanes, 2).unwrap();
    let _ = rx.get_receiver(0).unwrap().try_recv(&mut lanes[0]).unwrap();
    let mut buf = Vec::new();
    let (n, _) = rx.try_recv_batch_any(&mut lanes, &mut buf, 8);
    assert_eq!((n, buf), (1, vec![2]), "must drain exactly the full shard");
}

#[test]
fn recv_any_cancel_does_not_leak_async_slots() {
    let (_tx, mut rx, mut lanes) = round_robin::<u64, 8, u64>(4);
    for _ in 0..100 {
        let mut f = RecvAnyFuture::new(rx.shards());
        assert!(
            f.poll(&mut rx, &mut lanes, vec![1; 4]).is_none(),
            "recv_any on empty shards must park, not resolve"
        );
        f.cancel(&mut lanes);
    }
    for i in 0..4 {
        let queued = lanes[i].receiver_waiters().async_count_seqcst();
        assert!(queued <= 1, "shard {i} leaked {queued} cancelled recv_any slots, expected <= 1");
    }
}

/// A receive from any shard that was woken for one shard passes the wake-ups of the others
/// on to those who wait behind it.
#[test]
fn recv_any_must_not_eat_the_other_shards_notification() {
    let (mut tx, mut rx, mut lanes) = round_robin::<u64, 8, u64>(2);
    let mut a = RecvAnyFuture::new(2);
    assert!(a.poll(&mut rx, &mut lanes, vec![1, 1]).is_none());
    let mut b = rx.get_receiver(1).unwrap().recv_async();
    let waits: Option<Result<u64, AsyncRecvError>> = b.poll(&mut lanes[1], 2);
    assert!(waits.is_none());
    tx.try_send(&mut lanes, 10).unwrap();
    tx.try_send(&mut lanes, 11).unwrap();
    assert_eq!(lanes[0].take_woken(), vec![1]);
    assert_eq!(lanes[1].take_woken(), vec![1]);
    let (s, v) = a.poll(&mut rx, &mut lanes, vec![1, 1]).unwrap().unwrap();
    assert_eq!((s, v), (0, 10));
    assert_eq!(lanes[1].take_woken(), vec![2], "the wake-up of shard 1 goes on");
    assert_eq!(b.poll(&mut lanes[1], 2), Some(Ok(11)));
}

#[test]
fn recv_any_learns_of_the_close() {
    let (tx, mut rx, mut lanes) = round_robin::<u64, 8, u64>(2);
    let mut f = RecvAnyFuture::new(2);
    assert!(f.poll(&mut rx, &mut lanes, vec![3, 3]).is_none());
    tx.close(&mut lanes);
    assert_eq!(lanes[0].take_woken(), vec![3]);
    assert_eq!(lanes[1].take_woken(), vec![3]);
    match f.poll(&mut rx, &mut lanes, vec![3, 3]) {
        Some(Err(e)) => assert_eq!(e.disconnected_shards, 2),
        _ => panic!("all senders are gone"),
    }
}

#[test]
fn receiver_errors_name_the_shard() {
    let (tx, mut rx, mut lanes) = round_robin::<u64, 8, u64>(2);
    let e = rx.try_recv(&mut lanes, 1).unwrap_err();
    assert_eq!(e, ShardTryRecvError { shard: 1, err: TryRecvError::Empty });
    assert_eq!(e.text(), "ShardTryRecvError { shard: 1, err: Empty }");
    tx.close(&mut lanes);
    let e = rx.try_recv(&mut lanes, 0).unwrap_err();
    assert_eq!(e, ShardTryRecvError { shard: 0, err: TryRecvError::Disconnected });
}

#[test]
fn case_differing_keys_do_not_all_share_a_shard() {
    let pairs = [
        ("aapl", "AAPL"),
        ("msft", "MSFT"),
        ("googl", "GOOGL"),
        ("tsla", "TSLA"),
        ("nvda", "NVDA"),
        ("amzn", "AMZN"),
        ("meta", "META"),
        ("brk.b", "BRK.B"),
    ];
    for shards in [2usize, 4, 8, 16, 32] {
        let mask = shards - 1;
        let colliding =
            pairs.iter().filter(|(a, b)| hash_key(a) & mask == hash_key(b) & mask).count();
        assert!(
            colliding < pairs.len(),
            "all {} case-pairs collided at {shards} shards: the low bits still ignore the case bit",
            pairs.len()
        );
    }
}

#[test]
fn short_key_distribution_stays_even() {
    for shards in [4usize, 16] {
        let mask = shards - 1;
        let mut counts = vec![0usize; shards];
        for i in 0..100_000u64 {
            counts[hash_key(&format!("user:{i}")) & mask] += 1;
        }
        let (min, max) = (*counts.iter().min().unwrap(), *counts.iter().max().unwrap());
        assert!(min > 0, "empty shard at {shards} shards");
        assert!(
            (max as f64) / (min as f64) < 1.5,
            "skewed spread at {shards} shards: min {min} max {max}"
        );
    }
}

/// Short keys are hashed here, long ones by XXH3.
#[test]
fn hash_switches_at_seventeen_bytes() {
    // FNV-1a of the empty key is its offset basis, which is then mixed
    let mixed = 14695981039346656037u64.wrapping_mul(0x9E3779B97F4A7C15) >> 32;
    assert_eq!(hash_key(""), mixed as usize);
    let fnv = (14695981039346656037u64 ^ 97).wrapping_mul(1099511628211);
    assert_eq!(hash_key("a"), (fnv.wrapping_mul(0x9E3779B97F4A7C15) >> 32) as usize);
    let short = "sixteen bytes ok";
    assert_eq!(short.len(), 16);
    assert_eq!(hash_key(short), fnv1a(short.as_bytes()));
    let long = "seventeen bytes !";
    assert_eq!(long.len(), 17);
    assert_eq!(hash_key(long), xxhash_rust::xxh3::xxh3_64(long.as_bytes()) as usize);
    assert_ne!(hash_key(long), fnv1a(long.as_bytes()));
    assert_eq!(hash_shard(13, 4), 1);
    assert_eq!(hash_word(u64::MAX), usize::MAX);
    let (tx, rx, _lanes) = shard_key::<u64, 8, u64>(8);
    let want = xxhash_rust::xxh3::xxh3_64(long.as_bytes()) as usize % 8;
    assert_eq!((tx.shard_for(long), rx.shard_for(long)), (want, want));
}

#[test]
fn shards_by_processor() {
    assert_eq!(auto_shards(), Ok(num_cpus::get().next_power_of_two()));
}

#[test]
fn busy_shards_take_turns() {
    let (mut tx, mut rx, mut lanes) = round_robin::<u64, 8, u64>(4);
    for i in 0..8 {
        tx.try_send(&mut lanes, i).unwrap();
    }
    let got: Vec<(usize, u64)> =
        (0..8).map(|_| rx.try_recv_any(&mut lanes).unwrap().unwrap()).collect();
    assert_eq!(got, vec![(0, 0), (1, 1), (2, 2), (3, 3), (0, 4), (1, 5), (2, 6), (3, 7)]);
}

#[test]
fn send_errors_convert_to_boxed_error_for_non_debug_payloads() {
    struct Opaque; // not Debug
    fn produces() -> Result<(), Box<dyn std::error::Error>> {
        let (mut tx, rx, mut lanes) = round_robin::<Opaque, 2, u64>(1);
        rx.close(&mut lanes);
        tx.try_send(&mut lanes, Opaque).map_err(|e| e.text())?;
        Ok(())
    }
    assert!(produces().is_err(), "disconnected send must surface as an error");
}

#[test]
fn batch_recv_must_wake_every_parked_sender() {
    let (mut tx, mut rx, mut lanes) = round_robin::<u64, 4, u64>(1);
    for i in 0..4u64 {
        tx.try_send(&mut lanes, i).unwrap(); // ring full
    }
    let mut tasks = Vec::new();
    for i in 0..3u64 {
        let mut tx = tx.clone(&mut lanes);
        let (shard, mut f) = tx.send_async(100 + i);
        assert_eq!(f.poll(&mut lanes[shard], i), None); // parked
        tasks.push((i, shard, f));
    }
    let mut buf = Vec::new();
    let (n, _) = rx.try_recv_batch_any(&mut lanes, &mut buf, 16);
    assert_eq!(n, 4, "the batch recv must free all 4 slots");
    let woken = lanes[0].take_woken();
    let mut done = 0;
    for (i, shard, f) in tasks.iter_mut() {
        if woken.contains(i) {
            assert_eq!(f.poll(&mut lanes[*shard], *i), Some(Ok(())));
            done += 1;
        }
    }
    assert_eq!(done, 3, "4 slots are free but parked senders were not all woken");
    buf.clear();
    rx.try_recv_batch_any(&mut lanes, &mut buf, 16);
    assert_eq!(buf, vec![100, 101, 102]);
}

#[test]
fn batch_send_must_wake_every_parked_receiver() {
    let (mut tx, rx, mut lanes) = round_robin::<u64, 8, u64>(1);
    let mut tasks = Vec::new();
    for i in 0..4u64 {
        let r = rx.get_receiver(0).unwrap().clone(&mut lanes[0]);
        let shard = r.shard_id();
        let mut f = r.recv_async();
        let parked: Option<Result<u64, AsyncRecvError>> = f.poll(&mut lanes[shard], i);
        assert_eq!(parked, None);
        tasks.push((i, shard, f));
    }
    let mut buf: Vec<u64> = (0..4).collect();
    tx.try_send_batch(&mut lanes, &mut buf).unwrap();
    assert!(buf.is_empty(), "the whole batch must fit");
    let woken = lanes[0].take_woken();
    let mut done = 0;
    for (i, shard, f) in tasks.iter_mut() {
        if woken.contains(i) {
            assert_eq!(f.poll(&mut lanes[*shard], *i), Some(Ok::<u64, AsyncRecvError>(*i)));
            done += 1;
        }
    }
    assert_eq!(done, 4, "4 items are queued but parked receivers were not all woken");
}

/// Each receiver knows its shard, and so do its clones.
#[test]
fn receivers_know_their_shards() {
    let (mut tx, rx, mut lanes) = round_robin::<u64, 4, u64>(4);
    for i in 0..4 {
        tx.try_send(&mut lanes, 10 + i).unwrap();
    }
    for s in 0..4 {
        assert_eq!(rx.receiver(s).shard_id(), s);
        let r = rx.get_receiver(s).unwrap().clone(&mut lanes[s]);
        assert_eq!(r.shard_id(), s);
        assert_eq!(r.try_recv(&mut lanes[r.shard_id()]), Ok(10 + s as u64));
    }
    assert!(rx.get_receiver(4).is_none());
    let ids: Vec<usize> = rx.into_receivers().iter().map(|r| r.shard_id()).collect();
    assert_eq!(ids, vec![0, 1, 2, 3]);
}

/// A deadline holds for the batch as a whole. The clock is a number: the shards are full, and
/// one item of each is received 30 ticks after one of the shard before it.
#[test]
fn send_batch_timeout_is_one_budget_across_shards() {
    const CAP: usize = 2;
    const SHARDS: usize = 4;
    let (tx, mut rx, mut lanes) = shard_key::<(String, u64), CAP, u64>(SHARDS);
    let mut keys: Vec<&'static str> = Vec::new();
    let mut seen = vec![false; SHARDS];
    for k in ["k0", "k1", "k2", "k3", "k4", "k5", "k6", "k7", "k8", "k9", "kA", "kB"] {
        let sh = tx.shard_for(k);
        if !seen[sh] {
            seen[sh] = true;
            keys.push(k);
        }
    }
    assert_eq!(keys.len(), SHARDS, "could not cover every shard");
    for &k in &keys {
        for i in 0..CAP as u64 {
            tx.try_send(&mut lanes, k, (k.to_string(), i)).unwrap();
        }
    }
    let d = 40u64;
    let start = 1000u64;
    let mut now = start;
    let mut batch: Vec<(String, u64)> = keys.iter().map(|k| (k.to_string(), 99)).collect();
    let mut b = tx.send_batch_timeout(&mut batch, &symbol, now, d);
    let mut left = Vec::new();
    let e = loop {
        let (shard, mut group) = b.take().expect("the shards are full");
        let deadline = now + b.time_left(now).unwrap();
        left.push(deadline - now);
        let room_at = start + 30 * (shard as u64 + 1);
        let mut op = match SendBatchOp::begin(&mut lanes[shard], &mut group, true) {
            BatchStart::Wait(op) => op,
            BatchStart::Done(_) => panic!("the shard is full"),
        };
        let mut ev = SendEvent::Go;
        let r = loop {
            let step = match op.step(&mut lanes[shard], ev) {
                BatchStep::Done(r) => break r,
                BatchStep::Wait(step) => step,
            };
            ev = match step {
                SendStep::AskClock if now < deadline => SendEvent::TimeLeft,
                SendStep::AskClock => SendEvent::Expired(Duration::from_nanos(now - deadline)),
                SendStep::AskThread => SendEvent::Thread(9),
                SendStep::Park => {
                    now = deadline.min(room_at);
                    if now == room_at {
                        rx.try_recv(&mut lanes, shard).unwrap();
                    }
                    SendEvent::Go
                }
                _ => SendEvent::Go,
            };
        };
        match b.settle(shard, op.into_remaining(), r, &mut batch, &symbol) {
            Ok(more) => b = more,
            Err(e) => break e,
        }
    };
    let took = now - start;
    assert!(
        took < d * 2,
        "took {took:?} for a {d:?} budget over {SHARDS} shards: the timeout is being spent per shard"
    );
    assert_eq!(took, d);
    assert_eq!(left, vec![40, 10], "the second shard gets what the first has left");
    assert_eq!((e.shard, e.sent, e.reason), (1, 1, SendBatchError::TimeOut));
    assert_eq!(batch.len(), SHARDS - 1, "what was not sent comes back");
}

#[test]
fn budgets_are_spent() {
    assert_eq!(Budget::Endless.time_left(7), None);
    let all = Budget::Until(100);
    assert_eq!((all.time_left(60), all.time_left(99)), (Some(40), Some(1)));
    assert_eq!((all.time_left(100), all.time_left(u64::MAX)), (Some(0), Some(0)));
    assert_eq!((Budget::Each(40).time_left(0), Budget::Each(40).time_left(90)), (Some(40), Some(40)));
    let (tx, _rx, _lanes) = shard_key::<(String, u64), 2, u64>(2);
    let mut buf = vec![("a".to_string(), 1)];
    assert_eq!(tx.send_batch(&mut buf, &symbol).time_left(5), None);
    let late = tx.send_batch_timeout(&mut buf, &symbol, u64::MAX - 1, 5);
    assert_eq!(late.time_left(u64::MAX - 1), Some(1));
}

/// A receive from one shard touches that shard alone, and its error names it.
#[test]
fn receives_from_one_shard() {
    let (mut tx, rx, mut lanes) = round_robin::<u64, 4, u64>(2);
    for i in 0..6 {
        tx.try_send(&mut lanes, i).unwrap();
    }
    let got: Option<Result<u64, ShardAsyncRecvError>> = rx.recv_async(1).poll_in(&mut lanes, 7);
    assert_eq!(got, Some(Ok(1)));
    let step: ShardRecvStep<u64> = rx.recv(1).step_in(&mut lanes, RecvEvent::Go);
    assert!(matches!(step, ShardRecvStep::Done(Ok(3))));
    let mut buf = Vec::new();
    let step = rx.recv_batch(0, 2).step_in(&mut lanes, &mut buf, RecvEvent::Go);
    assert!(matches!(step, RecvBatchStep::Done(2, false)));
    assert_eq!(buf, vec![0, 2]);
    assert_eq!(rx.recv_batch_async(0, 5).poll_in(&mut lanes, &mut buf, 7), Some((1, false)));
    assert_eq!(buf, vec![0, 2, 4]);
    assert_eq!(rx.recv_async(1).poll_in(&mut lanes, 7), Some(Ok::<u64, ShardAsyncRecvError>(5)));
    let mut f = rx.recv_async(1);
    let pending: Option<Result<u64, ShardAsyncRecvError>> = f.poll_in(&mut lanes, 7);
    assert_eq!(pending, None);
    let mut g = rx.recv_batch_async(1, 3);
    assert_eq!(g.poll_in(&mut lanes, &mut buf, 8), None);
    g.cancel_in(&mut lanes);
    // giving up passes a wake-up on to the other one
    assert_eq!(lanes[1].take_woken(), vec![7]);
    tx.close(&mut lanes);
    let end: Option<Result<u64, ShardAsyncRecvError>> = f.poll_in(&mut lanes, 7);
    assert_eq!(end, Some(Err(ShardAsyncRecvError { shard: 1, err: AsyncRecvError::Disconnected })));
    f.cancel_in(&mut lanes);
    let step: ShardRecvStep<u64> = rx.recv(0).step_in(&mut lanes, RecvEvent::Go);
    match step {
        ShardRecvStep::Done(r) => {
            assert_eq!(r, Err(ShardRecvError { shard: 0, err: RecvError::Disconnected }))
        }
        ShardRecvStep::Wait(_) => panic!("the senders are gone"),
    }
}
