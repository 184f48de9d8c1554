use hel::internal_channel::errors::{AsyncRecvError, RecvError, SendError, TryRecvError, TrySendBatchError};
use hel::internal_channel::inner::SingleInner;
use hel::internal_channel::receiver::{RecvEvent, RecvStep};
use hel::internal_channel::sender::{SendEvent, SendOp, SendStep};
use hel::internal_channel::traits::InnerChannel;
use hel::shard::errors::{ShardAsyncRecvError, ShardRecvError};
use hel::shard::recv::{ShardRecvOp, ShardRecvStep};
use hel::shard::spsc::{SpscPair, SpscReceiver, SpscSender, SpscShard};

/// Runs a receive that is not expected to park.
fn run_recv<T, const CAP: usize>(
    inner: &mut SingleInner<T, CAP, u64>,
    mut op: ShardRecvOp,
) -> Result<T, ShardRecvError> {
    let mut ev: RecvEvent<u64> = RecvEvent::Go;
    loop {
        ev = match op.step(inner, ev) {
            ShardRecvStep::Done(r) => return r,
            ShardRecvStep::Wait(RecvStep::AskThread) => RecvEvent::Thread(1),
            ShardRecvStep::Wait(RecvStep::AskClock) => panic!("there is no deadline"),
            ShardRecvStep::Wait(RecvStep::Park) => panic!("the receive would block"),
            ShardRecvStep::Wait(_) => RecvEvent::Go,
        };
    }
}

/// Runs a send that is not expected to park.
fn run_send<T, const CAP: usize>(
    inner: &mut SingleInner<T, CAP, u64>,
    mut op: SendOp<T>,
) -> Result<(), SendError<T>> {
    let mut ev: SendEvent<u64> = SendEvent::Go;
    loop {
        ev = match op.step(inner, ev) {
            SendStep::Done(r) => return r,
            SendStep::AskThread => SendEvent::Thread(1),
            SendStep::AskClock => panic!("there is no deadline"),
            SendStep::Park => panic!("the send would block"),
            _ => SendEvent::Go,
        };
    }
}

#[test]
fn new_creates_correct_shard_count() {
    let ch = SpscShard::<u64, 8, u64>::new(4);
    assert_eq!(ch.shards(), 4);
    assert_eq!(ch.remaining().len(), 4);
    assert!(!ch.is_empty());
}

#[test]
fn non_power_of_two_shards_ok() {
    let ch = SpscShard::<u64, 8, u64>::new(3);
    assert_eq!(ch.shards(), 3);
}

#[test]
fn take_pair_basic() {
    let mut ch = SpscShard::<u64, 8, u64>::new(4);
    let SpscPair { tx, rx, mut inner } = ch.take_pair(0).unwrap();
    let tx = SpscSender::new(0, tx);
    let mut rx = SpscReceiver::new(0, rx);
    tx.try_send(&mut inner, 42).unwrap();
    assert_eq!(rx.try_recv(&mut inner).unwrap(), 42);
}

#[test]
fn take_pair_returns_none_when_already_taken() {
    let mut ch = SpscShard::<u64, 8, u64>::new(4);
    assert!(ch.take_pair(0).is_some());
    assert!(ch.take_pair(0).is_none());
    assert!(ch.take_pair(4).is_none());
}

#[test]
fn take_pair_partial_remaining() {
    let mut ch = SpscShard::<u64, 8, u64>::new(4);
    let _ = ch.take_pair(0);
    let _ = ch.take_pair(2);
    assert_eq!(ch.remaining(), vec![1, 3]);
    assert!(!ch.is_empty());
    let _ = ch.take_pair(1);
    let _ = ch.take_pair(3);
    assert!(ch.is_empty());
    assert_eq!(ch.shards(), 4);
}

#[test]
fn wrapped_pairs_have_shard_id() {
    let ch = SpscShard::<u64, 8, u64>::new(3);
    for (tx, mut rx, mut inner) in ch.into_wrapped_pairs() {
        assert_eq!(tx.id(), rx.id());
        tx.try_send(&mut inner, tx.id() as u64).unwrap();
        assert_eq!(rx.try_recv(&mut inner).unwrap(), rx.id() as u64);
    }
}

#[test]
fn blocking_4_spsc_no_message_loss() {
    const N: u64 = 8;
    let ch = SpscShard::<u64, 16, u64>::new(4);
    let mut total = 0u64;
    for (shard_id, SpscPair { tx, rx, mut inner }) in ch.into_pairs() {
        for i in 0..N / 4 {
            run_send(&mut inner, tx.send(shard_id as u64 * N / 4 + i)).unwrap();
        }
        tx.close(&mut inner);
        let mut rx = SpscReceiver::new(shard_id, rx);
        loop {
            match run_recv(&mut inner, rx.recv()) {
                Ok(v) => total += v,
                Err(e) if e.err == RecvError::Disconnected => break,
                Err(_) => unreachable!(),
            }
        }
    }
    assert_eq!(total, (0..N).sum::<u64>());
}

#[test]
fn disconnected_when_sender_dropped() {
    let mut ch = SpscShard::<u64, 8, u64>::new(2);
    let SpscPair { tx, rx, mut inner } = ch.take_pair(0).unwrap();
    let mut rx = SpscReceiver::new(0, rx);
    tx.try_send(&mut inner, 1).unwrap();
    tx.close(&mut inner);
    assert_eq!(run_recv(&mut inner, rx.recv()).unwrap(), 1);
    assert!(matches!(run_recv(&mut inner, rx.recv()).unwrap_err().err, RecvError::Disconnected));
}

#[test]
fn disconnected_when_receiver_dropped() {
    let mut ch = SpscShard::<u64, 8, u64>::new(2);
    let SpscPair { tx, rx, mut inner } = ch.take_pair(0).unwrap();
    let tx = SpscSender::new(0, tx);
    rx.close(&mut inner);
    assert!(tx.try_send(&mut inner, 1).is_err());
}

#[test]
fn async_send_recv_basic() {
    let mut ch = SpscShard::<String, 8, u64>::new(4);
    let SpscPair { tx, rx, mut inner } = ch.take_pair(0).unwrap();
    let tx = SpscSender::new(0, tx);
    let mut rx = SpscReceiver::new(0, rx);
    assert!(matches!(tx.send_async("hello".to_string()).poll(&mut inner, 1), Some(Ok(()))));
    assert_eq!(rx.recv_async().poll(&mut inner, 2), Some(Ok("hello".to_string())));
}

#[test]
fn refusals_name_the_shard() {
    let mut ch = SpscShard::<u64, 2, u64>::new(2);
    let SpscPair { tx, rx, mut inner } = ch.take_pair(1).unwrap();
    let tx = SpscSender::new(1, tx);
    let mut rx = SpscReceiver::new(1, rx);
    let e = rx.try_recv(&mut inner).unwrap_err();
    assert_eq!((e.shard, e.err), (1, TryRecvError::Empty));
    let mut buf = vec![1, 2, 3];
    let e = tx.try_send_batch(&mut inner, &mut buf).unwrap_err();
    assert_eq!((e.shard, e.sent, e.reason), (1, 2, TrySendBatchError::Full));
    assert_eq!(
        e.text(),
        "ShardTryBatchSendError { shard: 1, sent: 2, reason: Full }"
    );
    assert_eq!(buf, vec![3]);
    let e = tx.try_send(&mut inner, 4).unwrap_err();
    assert_eq!(e.shard, 1);
    assert!(e.err.is_full());
}

/// Receives that wait name the shard too, and a pending one can be given up.
#[test]
fn waiting_receives_name_the_shard() {
    let mut ch = SpscShard::<u64, 2, u64>::new(3);
    let SpscPair { tx, rx, mut inner } = ch.take_pair(2).unwrap();
    let mut rx = SpscReceiver::new(2, rx);
    let mut f = rx.recv_async();
    let pending: Option<Result<u64, ShardAsyncRecvError>> = f.poll(&mut inner, 5);
    assert_eq!(pending, None);
    f.cancel(&mut inner);
    assert!(inner.take_woken().is_empty());
    tx.close(&mut inner);
    assert_eq!(
        run_recv(&mut inner, rx.recv()),
        Err(ShardRecvError { shard: 2, err: RecvError::Disconnected })
    );
    assert_eq!(
        rx.recv_async().poll::<u64, 2, u64, _>(&mut inner, 5),
        Some(Err(ShardAsyncRecvError { shard: 2, err: AsyncRecvError::Disconnected }))
    );
}
