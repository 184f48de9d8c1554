use hel::internal_channel::batch_future::BatchPoll;
use hel::internal_channel::errors::{
    AsyncRecvError, AsyncSendError, AsyncSendRefError, BatchSendError, RecvError, SendBatchError,
    SendError, TryRecvError, TrySendBatchError, TrySendError,
};
use hel::internal_channel::inner::{SeqInner, SingleInner};
use hel::internal_channel::receiver::{
    recv_batch, recv_batch_begin, RecvEvent, RecvOp, RecvStep,
};
use hel::internal_channel::recv_batch::{RecvBatchOp, RecvBatchStep};
use hel::internal_channel::sender::{BatchStart, BatchStep, SendEvent, SendOp, SendStep};
use hel::internal_channel::traits::{InnerChannel, Pushed};
use hel::internal_channel::{mpmc_bounded, scsp_bounded};
use std::time::Duration;

/// Runs a receive that is not expected to park.
fn run_recv<T, const CAP: usize, I: InnerChannel<T, CAP, u64>>(
    inner: &mut I,
    mut op: RecvOp,
) -> Result<T, RecvError> {
    let mut ev: RecvEvent<u64> = RecvEvent::Go;
    loop {
        ev = match op.step(inner, ev) {
            RecvStep::Done(r) => return r,
            RecvStep::AskClock => RecvEvent::Expired(Duration::from_millis(10)),
            RecvStep::AskThread => RecvEvent::Thread(1),
            RecvStep::Park => panic!("the receive would block"),
            _ => RecvEvent::Go,
        };
    }
}

/// Runs a send that is not expected to park.
fn run_send<T, const CAP: usize, I: InnerChannel<T, CAP, u64>>(
    inner: &mut I,
    mut op: SendOp<T>,
) -> Result<(), SendError<T>> {
    let mut ev: SendEvent<u64> = SendEvent::Go;
    loop {
        ev = match op.step(inner, ev) {
            SendStep::Done(r) => return r,
            SendStep::AskClock => SendEvent::Expired(Duration::from_millis(10)),
            SendStep::AskThread => SendEvent::Thread(1),
            SendStep::Park => panic!("the send would block"),
            _ => SendEvent::Go,
        };
    }
}

/// A batch receive that is not expected to park.
fn run_recv_batch<T, const CAP: usize, I: InnerChannel<T, CAP, u64>>(
    inner: &mut I,
    buf: &mut Vec<T>,
    max: usize,
) -> (usize, bool) {
    match recv_batch_begin(inner, max) {
        Some(r) => r,
        None => {
            let first = run_recv(inner, RecvOp::new(false));
            recv_batch(inner, buf, max, first)
        }
    }
}

#[test]
fn try_recv_empty() {
    let (_tx, rx, mut ch) = mpmc_bounded::<u64, 8, u64>();
    assert_eq!(rx.try_recv(&mut ch), Err(TryRecvError::Empty));
}

#[test]
fn try_recv_basic() {
    let (tx, rx, mut ch) = mpmc_bounded::<u64, 8, u64>();
    tx.try_send(&mut ch, 42).unwrap();
    assert_eq!(rx.try_recv(&mut ch), Ok(42));
    assert_eq!(rx.try_recv(&mut ch), Err(TryRecvError::Empty));
}

#[test]
fn try_recv_disconnected_empty_channel() {
    let (tx, rx, mut ch) = mpmc_bounded::<u64, 8, u64>();
    tx.close(&mut ch);
    assert_eq!(rx.try_recv(&mut ch), Err(TryRecvError::Disconnected));
}

#[test]
fn try_recv_disconnected_drains_remaining() {
    let (tx, rx, mut ch) = mpmc_bounded::<u64, 8, u64>();
    tx.try_send(&mut ch, 1).unwrap();
    tx.try_send(&mut ch, 2).unwrap();
    tx.close(&mut ch);
    assert_eq!(rx.try_recv(&mut ch), Ok(1));
    assert_eq!(rx.try_recv(&mut ch), Ok(2));
    assert_eq!(rx.try_recv(&mut ch), Err(TryRecvError::Disconnected));
}

#[test]
fn recv_basic_1p1c() {
    let (tx, rx, mut ch) = mpmc_bounded::<u64, 8, u64>();
    let mut vals = Vec::new();
    for i in 0..4u64 {
        run_send(&mut ch, tx.send(i)).unwrap();
    }
    for _ in 0..4 {
        vals.push(run_recv(&mut ch, rx.recv()).unwrap());
    }
    assert_eq!(vals, vec![0, 1, 2, 3]);
}

#[test]
fn recv_disconnected_after_all_consumed() {
    let (tx, rx, mut ch) = mpmc_bounded::<u64, 8, u64>();
    run_send(&mut ch, tx.send(99)).unwrap();
    tx.close(&mut ch);
    assert_eq!(run_recv(&mut ch, rx.recv()), Ok(99));
    assert_eq!(run_recv(&mut ch, rx.recv()), Err(RecvError::Disconnected));
}

/// A receive that found nothing queues up, parks, is woken by the send and then gets the
/// item.
#[test]
fn recv_blocks_until_data() {
    let (tx, rx, mut ch) = mpmc_bounded::<u64, 8, u64>();
    let mut op = rx.recv();
    let mut ev: RecvEvent<u64> = RecvEvent::Go;
    let mut spins = 0;
    let mut yields = 0;
    loop {
        let step: RecvStep<u64> = op.step(&mut ch, ev);
        ev = match step {
            RecvStep::Spin => {
                spins += 1;
                RecvEvent::Go
            }
            RecvStep::Yield => {
                yields += 1;
                RecvEvent::Go
            }
            RecvStep::AskThread => RecvEvent::Thread(77),
            RecvStep::Park => break,
            _ => panic!("unexpected step"),
        };
    }
    assert_eq!((spins, yields), (128, 1));
    assert!(ch.take_woken().is_empty());
    tx.try_send(&mut ch, 7).unwrap();
    assert_eq!(ch.take_woken(), vec![77]);
    let step: RecvStep<u64> = op.step(&mut ch, RecvEvent::Go);
    assert!(matches!(step, RecvStep::Again));
    let step: RecvStep<u64> = op.step(&mut ch, RecvEvent::Go);
    assert!(matches!(step, RecvStep::Done(Ok(7))));
    assert!(!ch.receiver_waiters().has_waiters());
}

#[test]
fn recv_timeout_gets_value() {
    let (tx, rx, mut ch) = mpmc_bounded::<u64, 8, u64>();
    run_send(&mut ch, tx.send(5)).unwrap();
    assert_eq!(run_recv(&mut ch, rx.recv_timeout()), Ok(5));
}

#[test]
fn recv_timeout_expires() {
    let (_tx, rx, mut ch) = mpmc_bounded::<u64, 8, u64>();
    let result: Result<u64, RecvError> = run_recv(&mut ch, rx.recv_timeout());
    assert!(matches!(result, Err(RecvError::TimeOut(_))));
    assert_eq!(result, Err(RecvError::TimeOut(Duration::from_millis(10))));
}

#[test]
fn recv_timeout_disconnected() {
    let (tx, rx, mut ch) = mpmc_bounded::<u64, 8, u64>();
    tx.close(&mut ch);
    assert_eq!(run_recv(&mut ch, rx.recv_timeout()), Err(RecvError::Disconnected));
}

#[test]
fn recv_batch_basic() {
    let (tx, _rx, mut ch) = mpmc_bounded::<u64, 16, u64>();
    for i in 0..8u64 {
        tx.try_send(&mut ch, i).unwrap();
    }
    tx.close(&mut ch);
    let mut buf = Vec::new();
    let (count, _) = run_recv_batch(&mut ch, &mut buf, 8);
    assert_eq!(count, 8);
    assert_eq!(buf, (0..8u64).collect::<Vec<_>>());
    let (count2, dc) = run_recv_batch(&mut ch, &mut buf, 8);
    assert_eq!(count2, 0);
    assert!(dc);
}

#[test]
fn recv_batch_partial() {
    let (tx, _rx, mut ch) = mpmc_bounded::<u64, 16, u64>();
    for i in 0..8u64 {
        tx.try_send(&mut ch, i).unwrap();
    }
    let mut buf = Vec::new();
    let (count, dc) = run_recv_batch(&mut ch, &mut buf, 4);
    assert_eq!(count, 4);
    assert!(!dc);
    assert_eq!(buf, vec![0, 1, 2, 3]);
}

#[test]
fn recv_batch_max_zero() {
    let (tx, _rx, mut ch) = mpmc_bounded::<u64, 8, u64>();
    tx.try_send(&mut ch, 1).unwrap();
    let mut buf: Vec<u64> = Vec::new();
    let (count, dc) = run_recv_batch(&mut ch, &mut buf, 0);
    assert_eq!(count, 0);
    assert!(!dc);
    assert!(buf.is_empty());
}

/// A batch of nothing on a closed and empty channel still says that it is closed.
#[test]
fn recv_batch_max_zero_reports_the_close() {
    let (tx, rx, mut ch) = mpmc_bounded::<u64, 8, u64>();
    tx.close(&mut ch);
    let mut buf: Vec<u64> = Vec::new();
    assert_eq!(run_recv_batch(&mut ch, &mut buf, 0), (0, true));
    assert_eq!(rx.try_recv_batch(&mut ch, &mut buf, 0), (0, true));
}

#[test]
fn drop_receiver_notifies_sender() {
    let (tx, rx, mut ch) = mpmc_bounded::<u64, 4, u64>();
    for i in 0..4u64 {
        tx.try_send(&mut ch, i).unwrap();
    }
    rx.close(&mut ch);
    assert!(tx.try_send(&mut ch, 99).is_err());
}

#[test]
fn drop_sender_unblocks_recv() {
    let (tx, rx, mut ch) = mpmc_bounded::<u64, 8, u64>();
    let mut op = rx.recv();
    let mut ev: RecvEvent<u64> = RecvEvent::Go;
    loop {
        let step: RecvStep<u64> = op.step(&mut ch, ev);
        ev = match step {
            RecvStep::AskThread => RecvEvent::Thread(5),
            RecvStep::Park => break,
            _ => RecvEvent::Go,
        };
    }
    tx.close(&mut ch);
    assert_eq!(ch.take_woken(), vec![5]);
    let result: Result<u64, RecvError> = run_recv(&mut ch, op);
    assert_eq!(result, Err(RecvError::Disconnected));
}

#[test]
fn multiple_receivers_clone() {
    let (tx, rx1, mut ch) = mpmc_bounded::<u64, 8, u64>();
    let rx2 = rx1.clone(&mut ch);
    tx.try_send(&mut ch, 1).unwrap();
    tx.try_send(&mut ch, 2).unwrap();
    assert!(rx1.try_recv(&mut ch).is_ok());
    assert!(rx2.try_recv(&mut ch).is_ok());
    assert_eq!(ch.handles(), (1, 2));
    rx1.close(&mut ch);
    assert!(!ch.is_rx_closed());
    rx2.close(&mut ch);
    assert!(ch.is_rx_closed());
}

#[test]
fn single_try_recv_empty() {
    let (_tx, mut rx, mut ch) = scsp_bounded::<u64, 8, u64>();
    assert_eq!(rx.try_recv(&mut ch), Err(TryRecvError::Empty));
}

#[test]
fn single_recv_basic_1p1c() {
    let (tx, mut rx, mut ch) = scsp_bounded::<u64, 8, u64>();
    for i in 0..4u64 {
        run_send(&mut ch, tx.send(i)).unwrap();
    }
    let mut vals = Vec::new();
    for _ in 0..4 {
        vals.push(run_recv(&mut ch, rx.recv()).unwrap());
    }
    assert_eq!(vals, vec![0, 1, 2, 3]);
}

#[test]
fn single_recv_disconnected() {
    let (tx, mut rx, mut ch) = scsp_bounded::<u64, 8, u64>();
    tx.close(&mut ch);
    assert_eq!(run_recv(&mut ch, rx.recv()), Err(RecvError::Disconnected));
}

#[test]
fn single_drop_receiver_signals_sender() {
    let (tx, rx, mut ch) = scsp_bounded::<u64, 8, u64>();
    rx.close(&mut ch);
    assert!(tx.try_send(&mut ch, 1).is_err());
}

#[test]
fn single_ordering_strict() {
    const N: u64 = 8;
    let (tx, mut rx, mut ch) = scsp_bounded::<u64, 16, u64>();
    for i in 0..N {
        run_send(&mut ch, tx.send(i)).unwrap();
    }
    let mut last = 0u64;
    for _ in 0..N {
        let v = run_recv(&mut ch, rx.recv()).unwrap();
        assert!(v >= last, "order violated: {v} < {last}");
        last = v;
    }
}

#[test]
fn miri_seq_push_batch_concurrent_with_pop() {
    const N: u64 = 16;
    let (tx, rx, mut ch) = mpmc_bounded::<u64, 4, u64>();
    let mut got = Vec::new();
    let mut next = 0u64;
    while next < N {
        let mut buf: Vec<u64> = (next..N.min(next + 3)).collect();
        let sent = tx.try_send_batch(&mut ch, &mut buf).unwrap_or_else(|e| e.sent);
        next += sent as u64;
        if next % 2 == 0 || sent == 0 {
            let _ = rx.try_recv_batch(&mut ch, &mut got, 8);
        }
    }
    tx.close(&mut ch);
    loop {
        let (n, dc) = rx.try_recv_batch(&mut ch, &mut got, 8);
        if dc && n == 0 {
            break;
        }
    }
    got.sort_unstable();
    assert_eq!(got, (0..N).collect::<Vec<_>>());
}

#[test]
fn miri_spsc_push_batch_concurrent_with_pop() {
    const N: u64 = 16;
    let (tx, mut rx, mut ch) = scsp_bounded::<u64, 4, u64>();
    let mut got = Vec::new();
    let mut next = 0u64;
    while next < N {
        let mut buf: Vec<u64> = (next..N.min(next + 3)).collect();
        match tx.try_send_batch(&mut ch, &mut buf) {
            Ok(sent) => next += sent as u64,
            Err(e) => next += e.sent as u64,
        }
        if next % 3 != 0 {
            let _ = rx.try_recv_batch(&mut ch, &mut got, 8);
        }
    }
    tx.close(&mut ch);
    loop {
        let (n, dc) = rx.try_recv_batch(&mut ch, &mut got, 8);
        if dc && n == 0 {
            break;
        }
    }
    assert_eq!(got, (0..N).collect::<Vec<_>>(), "SPSC: FIFO without losses and duplicates");
}

#[test]
fn miri_drop_undelivered_mpmc() {
    let (tx, rx, mut ch) = mpmc_bounded::<String, 4, u64>();
    for i in 0..4 {
        tx.try_send(&mut ch, format!("payload {i}")).unwrap();
    }
    tx.close(&mut ch);
    rx.close(&mut ch);
}

#[test]
fn miri_drop_undelivered_spsc() {
    let (tx, rx, mut ch) = scsp_bounded::<String, 4, u64>();
    for i in 0..4 {
        tx.try_send(&mut ch, format!("payload {i}")).unwrap();
    }
    tx.close(&mut ch);
    rx.close(&mut ch);
}

#[test]
fn miri_fetch_add_abort_seal_then_drop() {
    let mut inner: SeqInner<String, 2, u64> = SeqInner::new();
    assert!(matches!(inner.push_fetch_add("a".to_string()), Pushed::Done));
    assert!(matches!(inner.push_fetch_add("b".to_string()), Pushed::Done));
    let (value, pos) = match inner.push_fetch_add("c".to_string()) {
        Pushed::Waiting { value, pos } => (value, pos),
        _ => panic!("the ring is full"),
    };
    assert_eq!(pos, 2);
    inner.rx_close();
    inner.notify_all_on_rx_close();
    match inner.push_reserved(pos, value) {
        Pushed::Refused(v) => assert_eq!(v, "c"),
        _ => panic!("the receivers are gone"),
    }
    assert_eq!(inner.queued(), 3);
    assert_eq!(inner.pop(), Some("a".to_string()));
    assert_eq!(inner.pop(), Some("b".to_string()));
    assert_eq!(inner.pop(), None);
}

#[test]
fn recv_async_basic() {
    let (tx, rx, mut ch) = mpmc_bounded::<u64, 8, u64>();
    let mut send = tx.send_async(42);
    assert_eq!(send.poll(&mut ch, 1), Some(Ok(())));
    let mut recv = rx.recv_async();
    assert_eq!(recv.poll(&mut ch, 2), Some(Ok(42)));
}

#[test]
fn recv_async_disconnected() {
    let (tx, rx, mut ch) = mpmc_bounded::<u64, 8, u64>();
    tx.close(&mut ch);
    let mut recv = rx.recv_async();
    let r: Option<Result<u64, AsyncRecvError>> = recv.poll(&mut ch, 2);
    assert_eq!(r, Some(Err(AsyncRecvError::Disconnected)));
}

#[test]
fn recv_batch_async_basic() {
    let (tx, rx, mut ch) = mpmc_bounded::<u64, 16, u64>();
    for i in 0..8u64 {
        tx.try_send(&mut ch, i).unwrap();
    }
    tx.close(&mut ch);
    let mut buf = Vec::new();
    let mut recv = rx.recv_async();
    let first: u64 = recv.poll(&mut ch, 1).unwrap().unwrap();
    let (count, _) = recv_batch(&mut ch, &mut buf, 16, Ok(first));
    assert_eq!(count, 8);
    assert_eq!(buf, (0..8u64).collect::<Vec<_>>());
    let mut recv = rx.recv_async();
    let r: Option<Result<u64, AsyncRecvError>> = recv.poll(&mut ch, 1);
    assert_eq!(r, Some(Err(AsyncRecvError::Disconnected)));
    let (count2, dc) = recv_batch(&mut ch, &mut buf, 16, Err(RecvError::Disconnected));
    assert_eq!(count2, 0);
    assert!(dc);
}

#[test]
fn seq_basic() {
    let inner: SeqInner<u64, 16, u64> = SeqInner::new();
    let (head, tail) = inner.positions();
    assert_eq!(tail, 0);
    assert_eq!(head, 0);
    let (senders, receivers) = inner.handles();
    assert_eq!(senders, 1);
    assert_eq!(receivers, 1);
    assert!(!inner.is_tx_closed());
    assert!(!inner.is_rx_closed());
}

#[test]
fn seq_slots_initialized() {
    let inner: SeqInner<u64, 16, u64> = SeqInner::new();
    for i in 0..16 {
        assert_eq!(
            inner.sequence_of(i),
            i,
            "slot {i} sequence is incorrect, placement is broken"
        );
    }
}

#[test]
fn seq_push_pop() {
    let mut inner: SeqInner<u64, 16, u64> = SeqInner::new();
    assert!(inner.push(42).is_ok());
    assert!(inner.push(43).is_ok());
    assert_eq!(inner.pop(), Some(42));
    assert_eq!(inner.pop(), Some(43));
    assert_eq!(inner.pop(), None);
}

#[test]
fn seq_drop_string() {
    let mut inner: SeqInner<String, 8, u64> = SeqInner::new();
    let _ = inner.push("hello".to_string());
    let _ = inner.push("world".to_string());
    assert_eq!(inner.pop(), Some("hello".to_string()));
    drop(inner);
}

#[test]
fn seq_larger_cap() {
    let inner: SeqInner<u64, 256, u64> = SeqInner::new();
    assert_eq!(inner.sequence_of(255), 255);
}

#[test]
fn seq_huge_cap() {
    let mut inner: SeqInner<u64, 2_097_152, u64> = SeqInner::new();
    assert_eq!(inner.sequence_of(0), 0);
    assert_eq!(inner.sequence_of(2_097_151), 2_097_151);
    assert!(inner.push(42).is_ok());
    assert_eq!(inner.pop(), Some(42));
}

#[test]
fn single_basic() {
    let inner: SingleInner<u64, 16, u64> = SingleInner::new();
    let (head, tail) = inner.positions();
    assert_eq!(tail, 0);
    assert_eq!(head, 0);
    assert!(!inner.is_tx_closed());
    assert!(!inner.is_rx_closed());
}

#[test]
fn single_slots_initialized() {
    let inner: SingleInner<u64, 16, u64> = SingleInner::new();
    for i in 0..16 {
        assert_eq!(
            inner.sequence_of(i),
            i,
            "slot {i} sequence is incorrect, placement is broken"
        );
    }
}

#[test]
fn single_push_pop() {
    let mut inner: SingleInner<u64, 16, u64> = SingleInner::new();
    assert!(inner.push(42).is_ok());
    assert!(inner.push(43).is_ok());
    assert_eq!(inner.pop(), Some(42));
    assert_eq!(inner.pop(), Some(43));
    assert_eq!(inner.pop(), None);
}

#[test]
fn single_push_full() {
    let mut inner: SingleInner<u64, 2, u64> = SingleInner::new();
    assert!(inner.push(1).is_ok());
    assert!(inner.push(2).is_ok());
    assert_eq!(inner.push(3), Err(3));
    assert_eq!(inner.pop(), Some(1));
    assert!(inner.push(3).is_ok());
}

#[test]
fn single_drop_string() {
    let mut inner: SingleInner<String, 8, u64> = SingleInner::new();
    let _ = inner.push("hello".to_string());
    let _ = inner.push("world".to_string());
    assert_eq!(inner.pop(), Some("hello".to_string()));
    drop(inner);
}

#[test]
fn single_larger_cap() {
    let mut inner: SingleInner<u64, 256, u64> = SingleInner::new();
    assert_eq!(inner.sequence_of(255), 255);
    assert!(inner.push(100).is_ok());
    assert_eq!(inner.pop(), Some(100));
}

#[test]
fn single_batch() {
    let mut inner: SingleInner<u64, 16, u64> = SingleInner::new();
    let mut buf = vec![1u64, 2, 3, 4];
    let pushed = inner.push_batch(&mut buf);
    assert_eq!(pushed, 4);
    assert!(buf.is_empty());

    let mut out = Vec::new();
    let (n, _closed) = inner.pop_batch(&mut out, 10);
    assert_eq!(n, 4);
    assert_eq!(out, vec![1, 2, 3, 4]);
}

/// One cell is enough: a channel of capacity 1 is full with one item.
#[test]
fn capacity_of_one() {
    let (tx, rx, mut ch) = mpmc_bounded::<u64, 1, u64>();
    for i in 0..5u64 {
        assert_eq!(tx.try_send(&mut ch, i), Ok(()));
        assert_eq!(tx.try_send(&mut ch, 99), Err(TrySendError::Full(99)));
        assert_eq!(rx.try_recv(&mut ch), Ok(i));
        assert_eq!(rx.try_recv(&mut ch), Err(TryRecvError::Empty));
    }
    assert_eq!(rx.capacity(), 1);
}

/// A sender that reserved its position comes before one that came later, and the cells
/// carry the numbers of their positions.
#[test]
fn reservation_keeps_its_turn() {
    let (tx, rx, mut ch) = mpmc_bounded::<u64, 2, u64>();
    tx.try_send(&mut ch, 1).unwrap();
    tx.try_send(&mut ch, 2).unwrap();
    assert_eq!((ch.sequence_of(0), ch.sequence_of(1)), (1, 2));
    let mut first = tx.send(3);
    assert!(matches!(first.step(&mut ch, SendEvent::Go), SendStep::Spin));
    assert_eq!(ch.queued(), 3);
    // The ring is longer than its cells now: nobody overtakes.
    assert_eq!(rx.try_recv(&mut ch), Ok(1));
    assert_eq!(ch.sequence_of(0), 2);
    assert_eq!(tx.try_send(&mut ch, 4), Err(TrySendError::Full(4)));
    assert!(matches!(first.step(&mut ch, SendEvent::Go), SendStep::Done(Ok(()))));
    assert_eq!(rx.try_recv(&mut ch), Ok(2));
    assert_eq!(rx.try_recv(&mut ch), Ok(3));
    assert_eq!(rx.try_recv(&mut ch), Err(TryRecvError::Empty));
}

/// A reserved sender waits with growing patience.
#[test]
fn reserved_sender_spins_then_yields_then_sleeps() {
    let (tx, _rx, mut ch) = mpmc_bounded::<u64, 1, u64>();
    tx.try_send(&mut ch, 1).unwrap();
    let mut op = tx.send(2);
    let (mut spins, mut yields, mut sleeps) = (0, 0, 0);
    for _ in 0..300 {
        match op.step(&mut ch, SendEvent::Go) {
            SendStep::Spin => spins += 1,
            SendStep::Yield => yields += 1,
            SendStep::Sleep => sleeps += 1,
            _ => panic!("unexpected step"),
        }
    }
    assert_eq!((spins, yields, sleeps), (63, 192, 45));
}

/// A send with a deadline spins, queues up and parks; once woken it tries again, and gives
/// up when its time is over.
#[test]
fn timed_send_parks_and_times_out() {
    let (tx, rx, mut ch) = mpmc_bounded::<u64, 1, u64>();
    tx.try_send(&mut ch, 1).unwrap();
    let mut op = tx.send_timeout(2);
    assert!(matches!(op.step(&mut ch, SendEvent::Go), SendStep::AskClock));
    assert!(matches!(op.step(&mut ch, SendEvent::TimeLeft), SendStep::Spin));
    for _ in 0..63 {
        assert!(matches!(op.step(&mut ch, SendEvent::Go), SendStep::Spin));
    }
    assert!(matches!(op.step(&mut ch, SendEvent::Go), SendStep::AskThread));
    assert!(matches!(op.step(&mut ch, SendEvent::Thread(9)), SendStep::Park));
    assert_eq!(ch.sender_waiters().blocking_count_acquire(), 1);
    assert_eq!(rx.try_recv(&mut ch), Ok(1));
    assert_eq!(ch.take_woken(), vec![9]);
    tx.try_send(&mut ch, 3).unwrap();
    assert!(matches!(op.step(&mut ch, SendEvent::Go), SendStep::Again));
    assert!(matches!(op.step(&mut ch, SendEvent::Go), SendStep::AskClock));
    let late = Duration::from_micros(3);
    match op.step(&mut ch, SendEvent::Expired(late)) {
        SendStep::Done(r) => assert_eq!(r, Err(SendError::TimeOut((2, late)))),
        _ => panic!("the time is up"),
    }
    assert!(!ch.sender_waiters().has_waiters());
}

/// A parked sender learns that the receivers are gone.
#[test]
fn single_sender_parks_and_learns_of_the_close() {
    let (tx, rx, mut ch) = scsp_bounded::<u64, 1, u64>();
    tx.try_send(&mut ch, 1).unwrap();
    let mut op = tx.send(2);
    let mut ev: SendEvent<u64> = SendEvent::Go;
    loop {
        ev = match op.step(&mut ch, ev) {
            SendStep::AskThread => SendEvent::Thread(4),
            SendStep::Park => break,
            SendStep::Done(_) => panic!("there is no room"),
            _ => SendEvent::Go,
        };
    }
    rx.close(&mut ch);
    assert_eq!(ch.take_woken(), vec![4]);
    assert_eq!(run_send(&mut ch, op), Err(SendError::Disconnected(2)));
}

/// A batch that does not fit goes on item by item, and what is left comes back in order.
#[test]
fn blocking_batch_keeps_order() {
    let (tx, rx, mut ch) = mpmc_bounded::<u64, 2, u64>();
    let mut buf: Vec<u64> = vec![1, 2, 3, 4];
    let mut op = match tx.send_batch(&mut ch, &mut buf, false) {
        BatchStart::Wait(op) => op,
        BatchStart::Done(_) => panic!("there is room for two items only"),
    };
    assert!(buf.is_empty());
    assert!(matches!(op.step(&mut ch, SendEvent::Go), BatchStep::Wait(SendStep::Spin)));
    assert_eq!(rx.try_recv(&mut ch), Ok(1));
    assert!(matches!(op.step(&mut ch, SendEvent::Go), BatchStep::Wait(SendStep::Again)));
    assert!(matches!(op.step(&mut ch, SendEvent::Go), BatchStep::Wait(SendStep::Spin)));
    rx.close(&mut ch);
    match op.step(&mut ch, SendEvent::Go) {
        BatchStep::Done(Err(e)) => {
            assert_eq!(e.sent, 3);
            assert_eq!(e.err, SendBatchError::Disconnected);
        }
        _ => panic!("the receivers are gone"),
    }
    assert_eq!(op.into_remaining(), vec![4]);
}

#[test]
fn blocking_batch_times_out() {
    let (tx, _rx, mut ch) = mpmc_bounded::<u64, 2, u64>();
    let mut buf: Vec<u64> = vec![1, 2, 3, 4];
    let mut op = match tx.send_batch(&mut ch, &mut buf, true) {
        BatchStart::Wait(op) => op,
        BatchStart::Done(_) => panic!("there is room for two items only"),
    };
    assert!(matches!(op.step(&mut ch, SendEvent::Go), BatchStep::Wait(SendStep::AskClock)));
    match op.step(&mut ch, SendEvent::Expired(Duration::from_millis(1))) {
        BatchStep::Done(Err(e)) => {
            assert_eq!(e.sent, 2);
            assert_eq!(e.err, SendBatchError::TimeOut);
        }
        _ => panic!("the time is up"),
    }
    assert_eq!(op.into_remaining(), vec![3, 4]);
}

#[test]
fn batch_on_a_closed_channel_is_refused() {
    let (tx, rx, mut ch) = mpmc_bounded::<u64, 2, u64>();
    rx.close(&mut ch);
    let mut buf: Vec<u64> = vec![1];
    match tx.try_send_batch(&mut ch, &mut buf) {
        Err(BatchSendError { sent, err }) => {
            assert_eq!((sent, err), (0, TrySendBatchError::Disconnected))
        }
        Ok(_) => panic!("the receivers are gone"),
    }
    match tx.send_batch(&mut ch, &mut buf, false) {
        BatchStart::Done(Err(e)) => assert_eq!((e.sent, e.err), (0, SendBatchError::Disconnected)),
        _ => panic!("the receivers are gone"),
    }
    assert_eq!(buf, vec![1]);
}

/// A batch wakes one waiting receiver for each item, tasks before threads.
#[test]
fn batch_wakes_one_receiver_for_each_item() {
    let (tx, rx, mut ch) = mpmc_bounded::<u64, 8, u64>();
    let mut tasks = Vec::new();
    for w in 0..3u64 {
        let mut f = rx.recv_async();
        let r: Option<Result<u64, AsyncRecvError>> = f.poll(&mut ch, w);
        assert_eq!(r, None);
        tasks.push(f);
    }
    let _node = ch.receiver_waiters().push_blocking(50);
    let mut buf: Vec<u64> = vec![1, 2, 3, 4];
    assert_eq!(tx.try_send_batch(&mut ch, &mut buf).unwrap(), 4);
    assert_eq!(ch.take_woken(), vec![0, 1, 2, 50]);
}

/// A batch receive wakes one waiting sender for each item.
#[test]
fn batch_receive_wakes_one_sender_for_each_item() {
    let (tx, rx, mut ch) = mpmc_bounded::<u64, 4, u64>();
    for i in 0..4u64 {
        tx.try_send(&mut ch, i).unwrap();
    }
    let mut sends = Vec::new();
    for w in 10..14u64 {
        let mut f = tx.send_async(w);
        assert_eq!(f.poll(&mut ch, w), None);
        sends.push(f);
    }
    let mut buf = Vec::new();
    assert_eq!(rx.try_recv_batch(&mut ch, &mut buf, 4), (4, false));
    assert_eq!(ch.take_woken(), vec![10, 11, 12, 13]);
    for f in sends.iter_mut() {
        assert_eq!(f.poll(&mut ch, 0), Some(Ok(())));
    }
    buf.clear();
    assert_eq!(rx.try_recv_batch(&mut ch, &mut buf, 9), (4, false));
    assert_eq!(buf, vec![10, 11, 12, 13]);
}

/// A pending send owns its item; giving it up hands the item back and wakes the next
/// sender.
#[test]
fn cancelled_send_passes_the_wake_up_on() {
    let (tx, rx, mut ch) = mpmc_bounded::<u64, 1, u64>();
    tx.try_send(&mut ch, 1).unwrap();
    let mut a = tx.send_async(2);
    let mut b = tx.send_async(3);
    assert_eq!(a.poll(&mut ch, 100), None);
    assert_eq!(b.poll(&mut ch, 101), None);
    assert_eq!(rx.try_recv(&mut ch), Ok(1));
    assert_eq!(ch.take_woken(), vec![100]);
    assert_eq!(a.cancel(&mut ch), Some(2));
    assert_eq!(ch.take_woken(), vec![101]);
    assert_eq!(b.poll(&mut ch, 101), Some(Ok(())));
    // Over and asked again: still over.
    assert_eq!(b.poll(&mut ch, 101), Some(Ok(())));
    assert_eq!(rx.try_recv(&mut ch), Ok(3));
}

#[test]
fn pending_send_learns_of_the_close() {
    let (tx, rx, mut ch) = mpmc_bounded::<u64, 1, u64>();
    tx.try_send(&mut ch, 1).unwrap();
    let mut a = tx.send_async(2);
    assert_eq!(a.poll(&mut ch, 100), None);
    rx.close(&mut ch);
    assert_eq!(ch.take_woken(), vec![100]);
    assert_eq!(a.poll(&mut ch, 100), Some(Err(AsyncSendError::Disconnected(2))));
}

/// The item of a send by reference is in its slot after every outcome but success.
#[test]
fn send_by_reference_keeps_the_item() {
    let (tx, rx, mut ch) = mpmc_bounded::<u64, 1, u64>();
    let mut slot = Some(7u64);
    let mut f = tx.send_ref_async();
    assert_eq!(f.poll(&mut ch, &mut slot, 1), Some(Ok(())));
    assert_eq!(slot, None);
    assert_eq!(f.poll(&mut ch, &mut slot, 1), Some(Ok(())));
    slot = Some(8);
    let mut f = tx.send_ref_async();
    assert_eq!(f.poll(&mut ch, &mut slot, 1), None);
    assert_eq!(slot, Some(8));
    f.cancel(&mut ch, &slot);
    assert_eq!(slot, Some(8));
    rx.close(&mut ch);
    let mut f = tx.send_ref_async();
    assert_eq!(
        f.poll(&mut ch, &mut slot, 1),
        Some(Err(AsyncSendRefError::Disconnected))
    );
    assert_eq!(slot, Some(8));
}

/// A batch sent by a task gives back what was not sent, in order, wherever it stops.
#[test]
fn async_batch_restores_what_is_left() {
    let (tx, rx, mut ch) = mpmc_bounded::<u64, 2, u64>();
    let mut buf: Vec<u64> = vec![1, 2, 3, 4, 5];
    let mut f = tx.send_batch_async(&mut ch, &mut buf);
    assert!(buf.is_empty());
    assert_eq!(rx.try_recv(&mut ch), Ok(1));
    assert_eq!(f.step(&mut ch, 1), BatchPoll::Again);
    assert_eq!(f.step(&mut ch, 1), BatchPoll::Pending);
    f.cancel(&mut ch, &mut buf);
    assert_eq!(buf, vec![4, 5]);
    assert!(!ch.sender_waiters().has_waiters());
    let mut f = tx.send_batch_async(&mut ch, &mut buf);
    assert_eq!(rx.try_recv(&mut ch), Ok(2));
    assert_eq!(f.step(&mut ch, 1), BatchPoll::Again);
    rx.close(&mut ch);
    assert_eq!(f.step(&mut ch, 1), BatchPoll::Done(1));
    f.cancel(&mut ch, &mut buf);
    assert_eq!(buf, vec![5]);
}

#[test]
fn stream_yields_until_the_end() {
    let (tx, rx, mut ch) = mpmc_bounded::<u64, 4, u64>();
    let mut s = rx.stream();
    let r: Option<Option<u64>> = s.poll_next(&mut ch, 3);
    assert_eq!(r, None);
    tx.try_send(&mut ch, 1).unwrap();
    tx.try_send(&mut ch, 2).unwrap();
    assert_eq!(ch.take_woken(), vec![3]);
    assert_eq!(s.poll_next(&mut ch, 3), Some(Some(1)));
    assert_eq!(s.poll_next(&mut ch, 3), Some(Some(2)));
    tx.close(&mut ch);
    let r: Option<Option<u64>> = s.poll_next(&mut ch, 3);
    assert_eq!(r, Some(None));
    s.cancel(&mut ch);
}

#[test]
fn cancelled_receive_passes_the_wake_up_on() {
    let (tx, rx, mut ch) = mpmc_bounded::<u64, 4, u64>();
    let mut a = rx.recv_async();
    let mut b = rx.recv_async();
    let r: Option<Result<u64, AsyncRecvError>> = a.poll(&mut ch, 1);
    assert_eq!(r, None);
    let r: Option<Result<u64, AsyncRecvError>> = b.poll(&mut ch, 2);
    assert_eq!(r, None);
    tx.try_send(&mut ch, 5).unwrap();
    assert_eq!(ch.take_woken(), vec![1]);
    a.cancel(&mut ch);
    assert_eq!(ch.take_woken(), vec![2]);
    assert_eq!(b.poll(&mut ch, 2), Some(Ok(5)));
}

#[test]
fn errors_say_what_happened() {
    let full: TrySendError<u64> = TrySendError::Full(3);
    assert!(full.is_full() && !full.is_disconnected());
    assert_eq!(full.text(), "sending on a full channel");
    assert_eq!(full.into_inner(), 3);
    let gone: TrySendError<u64> = TrySendError::Disconnected(4);
    assert!(gone.is_disconnected() && !gone.is_full());
    assert_eq!(gone.text(), "sending on a disconnected channel");
    let late: SendError<u64> = SendError::TimeOut((5, Duration::from_millis(1)));
    assert!(late.is_timeout() && !late.is_disconnected());
    assert_eq!(late.into_inner(), 5);
    let gone: SendError<u64> = SendError::Disconnected(6);
    assert!(gone.is_disconnected() && !gone.is_timeout());
    assert_eq!(gone.into_inner(), 6);
    let gone: AsyncSendError<u64> = AsyncSendError::Disconnected(7);
    assert_eq!(gone.text(), "sending on a disconnected channel");
    assert_eq!(gone.into_inner(), 7);
    assert_eq!(
        AsyncSendRefError::Disconnected.text(),
        "sending on a disconnected channel (value kept in the slot)"
    );
    assert!(TryRecvError::Empty.is_empty() && !TryRecvError::Empty.is_disconnected());
    assert!(TryRecvError::Disconnected.is_disconnected());
    assert_eq!(TryRecvError::Empty.text(), "receiving on an empty channel");
    assert_eq!(
        TryRecvError::Disconnected.text(),
        "receiving on an empty and disconnected channel"
    );
    assert_eq!(
        AsyncRecvError::Disconnected.text(),
        "receiving on an empty and disconnected channel"
    );
    assert_eq!(TrySendBatchError::Full.text(), "batch send hit a full channel");
    assert_eq!(
        TrySendBatchError::Disconnected.text(),
        "batch send on a disconnected channel"
    );
    assert_eq!(SendBatchError::TimeOut.text(), "batch send timed out");
    assert_eq!(
        SendBatchError::Disconnected.text(),
        "batch send on a disconnected channel"
    );
}

/// A batch receive waits for its first item only.
#[test]
fn blocking_batch_receive_waits_for_the_first_item() {
    let (tx, rx, mut ch) = mpmc_bounded::<u64, 8, u64>();
    let mut buf = Vec::new();
    let mut none = rx.recv_batch(0);
    assert!(matches!(none.step(&mut ch, &mut buf, RecvEvent::Go), RecvBatchStep::Done(0, false)));
    let mut op = rx.recv_batch(3);
    let mut ev: RecvEvent<u64> = RecvEvent::Go;
    loop {
        ev = match op.step(&mut ch, &mut buf, ev) {
            RecvBatchStep::Wait(RecvStep::AskThread) => RecvEvent::Thread(4),
            RecvBatchStep::Wait(RecvStep::Park) => break,
            RecvBatchStep::Wait(_) => RecvEvent::Go,
            RecvBatchStep::Done(_, _) => panic!("there is nothing to receive"),
        };
    }
    for i in 0..5 {
        tx.try_send(&mut ch, i).unwrap();
    }
    assert_eq!(ch.take_woken(), vec![4]);
    loop {
        match op.step(&mut ch, &mut buf, RecvEvent::Go) {
            RecvBatchStep::Done(n, dc) => {
                assert_eq!((n, dc), (3, false));
                break;
            }
            RecvBatchStep::Wait(_) => {}
        }
    }
    assert_eq!(buf, vec![0, 1, 2]);
}

#[test]
fn timed_batch_receive_gives_up() {
    let (_tx, rx, mut ch) = mpmc_bounded::<u64, 8, u64>();
    let mut buf: Vec<u64> = Vec::new();
    let mut op = rx.recv_batch_timeout(3);
    let step = op.step(&mut ch, &mut buf, RecvEvent::Go);
    assert!(matches!(step, RecvBatchStep::Wait(RecvStep::AskClock)));
    let step = op.step(&mut ch, &mut buf, RecvEvent::Expired(Duration::from_millis(1)));
    assert!(matches!(step, RecvBatchStep::Done(0, false)));
}

#[test]
fn awaited_batch_receive() {
    let (tx, rx, mut ch) = mpmc_bounded::<u64, 8, u64>();
    let mut buf = Vec::new();
    let mut f = rx.recv_batch_async(2);
    assert_eq!(f.poll(&mut ch, &mut buf, 9), None);
    for i in 0..3 {
        tx.try_send(&mut ch, i).unwrap();
    }
    assert_eq!(ch.take_woken(), vec![9]);
    assert_eq!(f.poll(&mut ch, &mut buf, 9), Some((2, false)));
    assert_eq!(buf, vec![0, 1]);
    assert_eq!(rx.recv_batch_async(0).poll(&mut ch, &mut buf, 9), Some((0, false)));
    tx.close(&mut ch);
    assert_eq!(rx.recv_batch_async(5).poll(&mut ch, &mut buf, 9), Some((1, true)));
    assert_eq!(rx.recv_batch_async(5).poll(&mut ch, &mut buf, 9), Some((0, true)));
    let mut g = rx.recv_batch_async(5);
    assert_eq!(g.poll(&mut ch, &mut buf, 9), Some((0, true)));
    g.cancel(&mut ch);
}

#[test]
fn miri_seq_push_batch_two_producers() {
    const N: u64 = 16;
    let (tx1, rx, mut ch) = mpmc_bounded::<u64, 4, u64>();
    let tx2 = tx1.clone(&mut ch);
    let mut next = [0u64, 1000];
    let mut sum = 0u64;
    while next[0] < N || next[1] < 1000 + N {
        for (tx, (at, base)) in [&tx1, &tx2].into_iter().zip(next.iter_mut().zip([0u64, 1000])) {
            if *at < base + N {
                let mut buf: Vec<u64> = (*at..(base + N).min(*at + 3)).collect();
                match tx.try_send_batch(&mut ch, &mut buf) {
                    Ok(sent) => *at += sent as u64,
                    Err(e) => *at += e.sent as u64,
                }
            }
        }
        let mut buf = Vec::new();
        rx.try_recv_batch(&mut ch, &mut buf, 8);
        sum += buf.iter().sum::<u64>();
    }
    tx1.close(&mut ch);
    tx2.close(&mut ch);
    loop {
        let mut buf = Vec::new();
        let (n, dc) = run_recv_batch(&mut ch, &mut buf, 8);
        sum += buf.iter().sum::<u64>();
        if dc && n == 0 {
            break;
        }
    }
    let expected: u64 = (0..N).sum::<u64>() + (1000..1000 + N).sum::<u64>();
    assert_eq!(sum, expected, "two senders: no loss and no duplicates");
}

/// Two receivers park, two items arrive; both are woken.
#[test]
fn two_parked_receivers_two_items_both_wake() {
    let (tx, rx, mut ch) = mpmc_bounded::<u64, 64, u64>();
    let mut ops = [rx.recv(), rx.recv()];
    for (w, op) in ops.iter_mut().enumerate() {
        let mut ev: RecvEvent<u64> = RecvEvent::Go;
        loop {
            let step: RecvStep<u64> = op.step(&mut ch, ev);
            ev = match step {
                RecvStep::AskThread => RecvEvent::Thread(w as u64),
                RecvStep::Park => break,
                RecvStep::Done(_) => panic!("there is nothing to receive"),
                _ => RecvEvent::Go,
            };
        }
    }
    tx.try_send(&mut ch, 1).unwrap();
    tx.try_send(&mut ch, 2).unwrap();
    assert_eq!(ch.take_woken(), vec![0, 1]);
    let mut got = Vec::new();
    for op in ops.iter_mut() {
        loop {
            if let RecvStep::Done(r) = op.step(&mut ch, RecvEvent::Go) {
                got.push(r.unwrap());
                break;
            }
        }
    }
    assert_eq!(got, vec![1, 2], "both parked receivers must get one item each");
}

/// A channel closes with the last handle of a side, and not before.
#[test]
fn last_handle_closes() {
    let (tx, rx, mut ch) = mpmc_bounded::<u64, 8, u64>();
    let tx2 = tx.clone(&mut ch);
    let rx2 = rx.clone(&mut ch);
    assert_eq!(ch.handles(), (2, 2));
    tx.close(&mut ch);
    rx.close(&mut ch);
    assert!(!ch.is_tx_closed() && !ch.is_rx_closed());
    tx2.try_send(&mut ch, 1).unwrap();
    tx2.close(&mut ch);
    assert!(ch.is_tx_closed());
    assert_eq!(rx2.try_recv(&mut ch), Ok(1));
    rx2.close(&mut ch);
    assert!(ch.is_rx_closed());
}

/// A receive that does not spin looks once more and queues up.
#[test]
fn receive_without_spinning_parks_at_once() {
    let (tx, mut ch) = {
        let (tx, _rx, ch) = scsp_bounded::<u64, 4, u64>();
        (tx, ch)
    };
    let mut op = RecvOp::without_spin(false);
    let step: RecvStep<u64> = op.step(&mut ch, RecvEvent::Go);
    assert!(matches!(step, RecvStep::Again));
    let step: RecvStep<u64> = op.step(&mut ch, RecvEvent::Go);
    assert!(matches!(step, RecvStep::AskThread));
    let step: RecvStep<u64> = op.step(&mut ch, RecvEvent::Thread(3));
    assert!(matches!(step, RecvStep::Park));
    tx.try_send(&mut ch, 9).unwrap();
    assert_eq!(ch.take_woken(), vec![3]);
    let mut timed = RecvBatchOp::without_spin(2, true);
    let mut buf = Vec::new();
    assert!(matches!(timed.step(&mut ch, &mut buf, RecvEvent::Go), RecvBatchStep::Done(1, false)));
    let mut timed = RecvOp::without_spin(true);
    let step: RecvStep<u64> = timed.step(&mut ch, RecvEvent::Go);
    assert!(matches!(step, RecvStep::AskClock));
    let step: RecvStep<u64> = timed.step(&mut ch, RecvEvent::TimeLeft);
    assert!(matches!(step, RecvStep::Again));
}
