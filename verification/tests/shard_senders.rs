use hel::internal_channel::errors::{RecvError, SendError};
use hel::internal_channel::inner::SeqInner;
use hel::internal_channel::receiver::{
    recv_batch, recv_batch_begin, RecvEvent, RecvOp, RecvStep,
};
use hel::internal_channel::sender::{SendEvent, SendOp, SendStep};
use hel::internal_channel::traits::InnerChannel;
use hel::shard::mpmc::recv_any::RecvAnyFuture;
use hel::shard::mpmc::sender_key::shard_key;
use hel::shard::mpmc::sender_round_robin::round_robin;
use std::time::Duration;

/// Runs a receive that is not expected to park.
fn run_recv<T, const CAP: usize>(
    lane: &mut SeqInner<T, CAP, u64>,
    mut op: RecvOp,
) -> Result<T, RecvError> {
    let mut ev: RecvEvent<u64> = RecvEvent::Go;
    loop {
        ev = match op.step(lane, ev) {
            RecvStep::Done(r) => return r,
            RecvStep::AskClock => RecvEvent::Expired(Duration::from_millis(10)),
            RecvStep::AskThread => RecvEvent::Thread(1),
            RecvStep::Park => panic!("the receive would block"),
            _ => RecvEvent::Go,
        };
    }
}

/// Runs a send that is not expected to park.
fn run_send<T, const CAP: usize>(
    lane: &mut SeqInner<T, CAP, u64>,
    mut op: SendOp<T>,
) -> Result<(), SendError<T>> {
    let mut ev: SendEvent<u64> = SendEvent::Go;
    loop {
        ev = match op.step(lane, ev) {
            SendStep::Done(r) => return r,
            SendStep::AskClock => SendEvent::Expired(Duration::from_millis(10)),
            SendStep::AskThread => SendEvent::Thread(1),
            SendStep::Park => panic!("the send would block"),
            _ => SendEvent::Go,
        };
    }
}

/// A batch receive that is not expected to park.
fn run_recv_batch<T, const CAP: usize>(
    lane: &mut SeqInner<T, CAP, u64>,
    buf: &mut Vec<T>,
    max: usize,
) -> (usize, bool) {
    match recv_batch_begin(lane, max) {
        Some(r) => r,
        None => {
            let first = run_recv(lane, RecvOp::new(false));
            recv_batch(lane, buf, max, first)
        }
    }
}

/// What a batch receive of at most `max` gives.
fn read_some<T, const CAP: usize>(lane: &mut SeqInner<T, CAP, u64>, max: usize) -> Vec<T> {
    let mut buf = Vec::new();
    run_recv_batch(lane, &mut buf, max);
    buf
}

fn symbol(item: &(String, u64)) -> &str {
    item.0.as_str()
}

#[test]
fn sender_round_robin_rr_try_push_basic() {
    let (mut tx, mut rx, mut lanes) = round_robin::<u64, 8, u64>(4);
    tx.try_send(&mut lanes, 42).unwrap();
    let (_, v) = rx.try_recv_any(&mut lanes).unwrap().unwrap();
    assert_eq!(v, 42);
}

#[test]
fn sender_round_robin_rr_async_push() {
    let (mut tx, mut rx, mut lanes) = round_robin::<u64, 8, u64>(4);
    let (s, mut f) = tx.send_async(42);
    assert!(matches!(f.poll(&mut lanes[s], 1), Some(Ok(()))));
    let (_, v) = rx.try_recv_any(&mut lanes).unwrap().unwrap();
    assert_eq!(v, 42);
}

#[test]
fn sender_round_robin_rr_distributes_evenly() {
    let (mut tx, _rx, mut lanes) = round_robin::<u64, 8, u64>(4);
    for i in 0..8u64 {
        tx.try_send(&mut lanes, i).unwrap();
    }
    let counts: Vec<usize> = (0..4).map(|s| read_some(&mut lanes[s], 8).len()).collect();
    assert_eq!(counts, vec![2, 2, 2, 2]);
}

#[test]
fn sender_round_robin_rr_no_key_in_api() {
    let (mut tx, _rx, mut lanes) = round_robin::<u64, 8, u64>(4);
    let _ = tx.try_send(&mut lanes, 1);
    let _ = tx.shards();
}

#[test]
fn sender_round_robin_rr_clone_independent_cursor() {
    let (mut tx1, _rx, mut lanes) = round_robin::<u64, 8, u64>(4);
    let mut tx2 = tx1.clone(&mut lanes);
    for i in 0..4u64 {
        tx1.try_send(&mut lanes, i).unwrap();
    }
    for i in 4..8u64 {
        tx2.try_send(&mut lanes, i).unwrap();
    }
    let total: usize = (0..4).map(|s| read_some(&mut lanes[s], 8).len()).sum();
    assert_eq!(total, 8);
}

#[test]
fn sender_round_robin_rr_disconnected() {
    let (mut tx, rx, mut lanes) = round_robin::<u64, 8, u64>(4);
    rx.close(&mut lanes);
    assert!(tx.try_send(&mut lanes, 1).is_err());
}

#[test]
fn sender_round_robin_recv_try_recv_any() {
    let (mut tx, mut rx, mut lanes) = round_robin::<u64, 8, u64>(4);
    tx.try_send(&mut lanes, 1).unwrap();
    tx.try_send(&mut lanes, 2).unwrap();
    let (_, v1) = rx.try_recv_any(&mut lanes).unwrap().unwrap();
    let (_, v2) = rx.try_recv_any(&mut lanes).unwrap().unwrap();
    let mut vals = [v1, v2];
    vals.sort();
    assert_eq!(vals, [1, 2]);
}

#[test]
fn sender_round_robin_rr_blocking_2p_2s_no_loss() {
    const N: u64 = 16;
    let (mut tx, rx, mut lanes) = round_robin::<u64, 16, u64>(2);
    let receivers = rx.into_receivers();
    let mut tx2 = tx.clone(&mut lanes);
    let mut total = 0u64;
    // the two senders take turns, and a reader empties both shards in between
    for i in 0..N / 2 {
        let (s, op) = tx.send(i);
        run_send(&mut lanes[s], op).unwrap();
        let (s, op) = tx2.send(N / 2 + i);
        run_send(&mut lanes[s], op).unwrap();
        if i % 3 == 0 {
            for (s, r) in receivers.iter().enumerate() {
                while let Ok(v) = r.try_recv(&mut lanes[s]) {
                    total += v;
                }
            }
        }
    }
    tx.close(&mut lanes);
    tx2.close(&mut lanes);
    for (s, r) in receivers.iter().enumerate() {
        loop {
            match run_recv(&mut lanes[s], r.recv()) {
                Ok(v) => total += v,
                Err(RecvError::Disconnected) => break,
                Err(RecvError::TimeOut(_)) => unreachable!(),
            }
        }
    }
    assert_eq!(total, (0..N).sum::<u64>());
}

#[test]
fn sender_round_robin_miri_rr_drop_sender_first() {
    let (mut tx, rx, mut lanes) = round_robin::<u64, 8, u64>(2);
    tx.try_send(&mut lanes, 1).unwrap();
    tx.close(&mut lanes);
    assert_eq!(read_some(&mut lanes[0], 8), vec![1]);
    rx.close(&mut lanes);
}

#[test]
fn sender_round_robin_miri_rr_drop_receiver_first() {
    let (mut tx, rx, mut lanes) = round_robin::<u64, 8, u64>(2);
    rx.close(&mut lanes);
    assert!(tx.try_send(&mut lanes, 1).is_err());
    tx.close(&mut lanes);
}

#[test]
fn sender_round_robin_miri_rr_into_receivers_drop_order() {
    let (mut tx, rx, mut lanes) = round_robin::<u64, 8, u64>(4);
    let receivers = rx.into_receivers();
    for i in 0..4u64 {
        tx.try_send(&mut lanes, i).unwrap();
    }
    tx.close(&mut lanes);
    let mut rev: Vec<_> = receivers.into_iter().enumerate().collect();
    rev.reverse();
    for (s, r) in rev {
        r.close(&mut lanes[s]);
    }
}

#[test]
fn sender_round_robin_miri_receiver_try_recv_any_empty() {
    let (mut tx, mut rx, mut lanes) = round_robin::<u64, 8, u64>(4);
    assert!(rx.try_recv_any(&mut lanes).unwrap().is_none());
    tx.try_send(&mut lanes, 42).unwrap();
    let (shard, v) = rx.try_recv_any(&mut lanes).unwrap().unwrap();
    assert!(shard < 4);
    assert_eq!(v, 42);
    tx.close(&mut lanes);
}

#[test]
fn sender_round_robin_miri_sharded_receiver_clone_of_inner_receiver() {
    let (mut tx, rx, mut lanes) = round_robin::<u64, 8, u64>(2);
    tx.try_send(&mut lanes, 1).unwrap();
    tx.try_send(&mut lanes, 2).unwrap();
    let r0 = rx.receiver(0).clone(&mut lanes[0]);
    let r1 = rx.receiver(1).clone(&mut lanes[1]);
    let got = match r0.try_recv(&mut lanes[0]) {
        Ok(v) => Some(v),
        Err(_) => r1.try_recv(&mut lanes[1]).ok(),
    };
    assert!(got.is_some());
    rx.close(&mut lanes);
    r0.close(&mut lanes[0]);
    r1.close(&mut lanes[1]);
    tx.close(&mut lanes);
}

#[test]
fn sender_key_key_deterministic_routing() {
    let (tx, _rx, _lanes) = shard_key::<u64, 8, u64>(4);
    assert_eq!(tx.shard_for("AAPL"), tx.shard_for("AAPL"));
    assert_eq!(tx.shard_for("BTC-USD"), tx.shard_for("BTC-USD"));
    assert!(tx.shard_for("AAPL") < tx.shards());
}

#[test]
fn sender_key_key_try_send_basic() {
    let (tx, rx, mut lanes) = shard_key::<u64, 8, u64>(4);
    let shard = tx.shard_for("AAPL");
    tx.try_send(&mut lanes, "AAPL", 42).unwrap();
    assert_eq!(rx.receiver(shard).try_recv(&mut lanes[shard]).unwrap(), 42);
}

#[test]
fn sender_key_key_ordering_within_shard() {
    let (tx, _rx, mut lanes) = shard_key::<u64, 32, u64>(4);
    let shard = tx.shard_for("AAPL");
    for i in 0..10u64 {
        tx.try_send(&mut lanes, "AAPL", i).unwrap();
    }
    let buf = read_some(&mut lanes[shard], 10);
    assert_eq!(buf, (0..10u64).collect::<Vec<_>>());
}

#[test]
fn sender_key_key_isolation_between_symbols() {
    let (tx, rx, mut lanes) = shard_key::<String, 16, u64>(4);
    let sa = tx.shard_for("AAPL");
    let sb = tx.shard_for("MSFT");
    if sa == sb {
        return;
    }
    tx.try_send(&mut lanes, "AAPL", "a".to_string()).unwrap();
    tx.try_send(&mut lanes, "MSFT", "b".to_string()).unwrap();
    assert_eq!(rx.receiver(sa).try_recv(&mut lanes[sa]).unwrap(), "a");
    assert_eq!(rx.receiver(sb).try_recv(&mut lanes[sb]).unwrap(), "b");
    assert!(rx.receiver(sa).try_recv(&mut lanes[sa]).is_err());
}

#[test]
fn sender_key_key_receiver_shard_for_matches_sender() {
    let (tx, rx, _lanes) = shard_key::<u64, 8, u64>(4);
    for key in ["AAPL", "MSFT", "BTC-USD", "user_550e8400-e29b-41d4"] {
        assert_eq!(tx.shard_for(key), rx.shard_for(key));
    }
}

#[test]
fn sender_key_key_batch_keyed() {
    let (tx, _rx, mut lanes) = shard_key::<(String, u64), 16, u64>(4);
    let sa = tx.shard_for("AAPL");
    let sb = tx.shard_for("MSFT");
    if sa == sb {
        return;
    }
    let mut batch = vec![
        ("AAPL".to_string(), 1u64),
        ("MSFT".to_string(), 2u64),
        ("AAPL".to_string(), 3u64),
        ("MSFT".to_string(), 4u64),
    ];
    let sent = tx.try_send_batch(&mut lanes, &mut batch, symbol).unwrap_or_else(|e| e.sent);
    assert_eq!(sent, 4);
    let ba = read_some(&mut lanes[sa], 10);
    let bb = read_some(&mut lanes[sb], 10);
    assert!(ba.iter().all(|(s, _)| s == "AAPL"));
    assert!(bb.iter().all(|(s, _)| s == "MSFT"));
}

#[test]
fn sender_key_key_disconnected() {
    let (tx, rx, mut lanes) = shard_key::<u64, 8, u64>(4);
    rx.close(&mut lanes);
    assert!(tx.try_send(&mut lanes, "AAPL", 1).is_err());
}

#[test]
fn sender_key_recv_into_receivers() {
    let (tx, rx, mut lanes) = shard_key::<u64, 8, u64>(4);
    let receivers = rx.into_receivers();
    assert_eq!(receivers.len(), 4);
    tx.try_send(&mut lanes, "AAPL", 99).unwrap();
    let shard = tx.shard_for("AAPL");
    assert_eq!(receivers[shard].try_recv(&mut lanes[shard]).unwrap(), 99);
}

#[test]
fn sender_key_key_blocking_ordering() {
    const N: u64 = 32;
    let (tx, rx, mut lanes) = shard_key::<u64, 64, u64>(4);
    let shard = tx.shard_for("AAPL");
    let receivers = rx.into_receivers();
    for i in 0..N {
        let (s, op) = tx.send("AAPL", i);
        assert_eq!(s, shard);
        run_send(&mut lanes[s], op).unwrap();
    }
    tx.close(&mut lanes);
    let mut last = 0u64;
    let mut count = 0u64;
    loop {
        match run_recv(&mut lanes[shard], receivers[shard].recv()) {
            Ok(v) => {
                assert!(v >= last);
                last = v;
                count += 1;
            }
            Err(RecvError::Disconnected) => break,
            Err(RecvError::TimeOut(_)) => unreachable!(),
        }
    }
    assert_eq!(count, N);
}

#[test]
fn sender_key_key_async_send() {
    let (tx, rx, mut lanes) = shard_key::<String, 8, u64>(4);
    let shard = tx.shard_for("AAPL");
    let (s, mut f) = tx.send_async("AAPL", "trade".to_string());
    assert_eq!(s, shard);
    assert!(matches!(f.poll(&mut lanes[s], 1), Some(Ok(()))));
    let mut r = rx.receiver(shard).recv_async();
    assert_eq!(r.poll(&mut lanes[shard], 2), Some(Ok("trade".to_string())));
}

#[test]
fn sender_key_recv_any_async() {
    let (tx, mut rx, mut lanes) = shard_key::<u64, 8, u64>(4);
    let shard = tx.shard_for("AAPL");
    let (s, mut f) = tx.send_async("AAPL", 99);
    assert!(matches!(f.poll(&mut lanes[s], 1), Some(Ok(()))));
    let mut any = RecvAnyFuture::new(rx.shards());
    let (s, v) = any.poll(&mut rx, &mut lanes, vec![2; 4]).unwrap().unwrap();
    assert_eq!(s, shard);
    assert_eq!(v, 99);
}

#[test]
fn sender_key_miri_key_group_by_shard_drain_extend() {
    let (tx, _rx, mut lanes) = shard_key::<u64, 8, u64>(2);
    let mut batch: Vec<u64> = vec![10, 20, 30, 40];
    let result =
        tx.try_send_batch(&mut lanes, &mut batch, |v| if *v <= 20 { "AAPL" } else { "MSFT" });
    assert!(result.is_ok());
    assert!(batch.is_empty());
    tx.close(&mut lanes);
}

#[test]
fn sender_key_miri_key_disconnect_mid_batch() {
    let (tx, rx, mut lanes) = shard_key::<String, 8, u64>(2);
    rx.close(&mut lanes);
    let mut batch = vec!["hello".to_string(), "world".to_string()];
    let before = batch.len();
    let result = tx.try_send_batch(&mut lanes, &mut batch, |s| s.as_str());
    assert!(result.is_err());
    assert_eq!(batch.len(), before, "all elements returned, none dropped");
    tx.close(&mut lanes);
}

#[test]
fn sender_key_miri_receiver_shard_for_consistency() {
    let (tx, rx, mut lanes) = shard_key::<u64, 8, u64>(4);
    for key in ["AAPL", "MSFT", "BTC", "user_550e8400"] {
        assert_eq!(tx.shard_for(key), rx.shard_for(key));
    }
    tx.close(&mut lanes);
    rx.close(&mut lanes);
}

#[test]
fn sender_key_miri_key_send_recv_no_loss() {
    const N: u64 = 8;
    let (tx, _rx, mut lanes) = shard_key::<u64, 16, u64>(2);
    let shard = tx.shard_for("KEY");
    for i in 0..N {
        tx.try_send(&mut lanes, "KEY", i).unwrap();
    }
    tx.close(&mut lanes);
    let mut buf = Vec::new();
    loop {
        let (n, dc) = run_recv_batch(&mut lanes[shard], &mut buf, 8);
        if dc || n == 0 {
            break;
        }
    }
    assert_eq!(buf, (0..N).collect::<Vec<_>>());
}
