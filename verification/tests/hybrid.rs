use hel::hybrid::errors::{AsyncRecvError, AsyncSendError, RecvError, SendError};
use hel::hybrid::inner::Inner;
use hel::hybrid::receiver::{
    recv_batch, recv_batch_begin, recv_batch_now, try_recv, ReceiverFuture, ReceiverStream, RecvOp, RecvStep,
};
use hel::hybrid::recv_batch::{RecvBatchFuture, RecvBatchOp, RecvBatchStep};
use hel::hybrid::sender::{try_send, SendBatchOp, SendOp, SendStep, SenderFuture, WaitEvent};
use std::time::Duration;

type Link<const CAP: usize> = Inner<u64, CAP, true, u64>;

#[test]
fn link_is_first_in_first_out() {
    let mut ch: Link<2> = Inner::new();
    assert_eq!(try_send(&mut ch, 1), Ok(()));
    assert_eq!(try_send(&mut ch, 2), Ok(()));
    assert_eq!(try_send(&mut ch, 3), Err(SendError::Full(3)));
    assert_eq!(try_recv(&mut ch), Ok(1));
    assert_eq!(try_recv(&mut ch), Ok(2));
    assert_eq!(try_recv(&mut ch), Err(RecvError::Empty));
}

#[test]
fn closed_link_drains_first() {
    let mut ch: Link<2> = Inner::new();
    try_send(&mut ch, 1).unwrap();
    ch.drop_sender();
    assert!(ch.is_tx_closed());
    assert_eq!(try_recv(&mut ch), Ok(1));
    assert_eq!(try_recv(&mut ch), Err(RecvError::Disconnected));
}

#[test]
fn nobody_sends_after_the_receivers() {
    let mut ch: Link<2> = Inner::new();
    ch.drop_receiver();
    assert!(ch.is_rx_closed());
    let e = try_send(&mut ch, 1).unwrap_err();
    assert_eq!(e, SendError::Disconnected(1));
    assert_eq!(e.into_inner(), 1);
}

#[test]
fn handles_are_counted() {
    let mut ch: Link<2> = Inner::new();
    ch.sender_add();
    ch.drop_sender();
    assert!(!ch.is_tx_closed());
    ch.drop_sender();
    assert!(ch.is_tx_closed());
}

/// A blocked receive parks in the line, is woken by a send, and gets the item.
#[test]
fn blocked_receive_is_woken() {
    let mut ch: Link<2> = Inner::new();
    let mut op = RecvOp::new(false);
    assert!(matches!(op.step::<u64, 2, true, u64>(&mut ch, WaitEvent::Go), RecvStep::AskThread));
    let step: RecvStep<u64> = op.step(&mut ch, WaitEvent::Thread(9));
    assert!(matches!(step, RecvStep::Park));
    try_send(&mut ch, 5).unwrap();
    assert_eq!(ch.take_woken(), vec![9]);
    let mut got = None;
    for _ in 0..3 {
        match op.step(&mut ch, WaitEvent::Go) {
            RecvStep::Done(r) => {
                got = Some(r);
                break;
            }
            _ => {}
        }
    }
    assert_eq!(got, Some(Ok(5)));
}

#[test]
fn timed_receive_gives_up() {
    let mut ch: Link<2> = Inner::new();
    let mut op = RecvOp::new(true);
    assert!(matches!(op.step::<u64, 2, true, u64>(&mut ch, WaitEvent::Go), RecvStep::AskClock));
    match op.step::<u64, 2, true, u64>(&mut ch, WaitEvent::Expired(Duration::from_millis(3))) {
        RecvStep::Done(r) => assert_eq!(r, Err(RecvError::TimeOut(Duration::from_millis(3)))),
        _ => panic!("the time is up"),
    }
}

#[test]
fn timed_send_gives_up() {
    let mut ch: Link<1> = Inner::new();
    try_send(&mut ch, 1).unwrap();
    let mut op = SendOp::new(2, true);
    assert!(matches!(op.step(&mut ch, WaitEvent::Go), SendStep::AskClock));
    match op.step(&mut ch, WaitEvent::Expired(Duration::from_millis(3))) {
        SendStep::Done(r) => assert_eq!(r, Err(SendError::TimeOut((2, Duration::from_millis(3))))),
        _ => panic!("the time is up"),
    }
}

#[test]
fn blocked_send_is_woken() {
    let mut ch: Link<1> = Inner::new();
    try_send(&mut ch, 1).unwrap();
    let mut op = SendOp::new(2, false);
    assert!(matches!(op.step(&mut ch, WaitEvent::Go), SendStep::AskThread));
    assert!(matches!(op.step(&mut ch, WaitEvent::Thread(8)), SendStep::Park));
    assert_eq!(try_recv(&mut ch), Ok(1));
    assert_eq!(ch.take_woken(), vec![8]);
    let mut sent = false;
    for _ in 0..3 {
        if let SendStep::Done(r) = op.step(&mut ch, WaitEvent::Go) {
            assert_eq!(r, Ok(()));
            sent = true;
            break;
        }
    }
    assert!(sent);
    assert_eq!(try_recv(&mut ch), Ok(2));
}

/// Threads and tasks stand in one line.
#[test]
fn one_line_for_threads_and_tasks() {
    let mut ch: Link<4> = Inner::new();
    let mut op = RecvOp::new(false);
    let _: RecvStep<u64> = op.step(&mut ch, WaitEvent::Go);
    let _: RecvStep<u64> = op.step(&mut ch, WaitEvent::Thread(1));
    let mut f = ReceiverFuture::new();
    assert_eq!(f.poll(&mut ch, 2), None);
    try_send(&mut ch, 10).unwrap();
    assert_eq!(ch.take_woken(), vec![1], "the thread came first");
    try_send(&mut ch, 11).unwrap();
    assert_eq!(ch.take_woken(), vec![2]);
    assert_eq!(f.poll(&mut ch, 2), Some(Ok(10)));
}

#[test]
fn tasks_send_and_receive() {
    let mut ch: Link<1> = Inner::new();
    let mut a = SenderFuture::new(1);
    assert_eq!(a.poll(&mut ch, 5), Some(Ok(())));
    let mut b = SenderFuture::new(2);
    assert_eq!(b.poll(&mut ch, 5), None);
    let mut r = ReceiverFuture::new();
    assert_eq!(r.poll(&mut ch, 6), Some(Ok(1)));
    assert_eq!(ch.take_woken(), vec![5]);
    assert_eq!(b.poll(&mut ch, 5), Some(Ok(())));
    ch.drop_receiver();
    let mut c = SenderFuture::new(3);
    assert_eq!(c.poll(&mut ch, 5), Some(Err(AsyncSendError::Disconnected(3))));
}

#[test]
fn task_learns_of_the_close() {
    let mut ch: Link<1> = Inner::new();
    let mut r = ReceiverFuture::new();
    assert_eq!(r.poll::<u64, 1, true, u64>(&mut ch, 6), None);
    ch.drop_sender();
    assert_eq!(ch.take_woken(), vec![6]);
    assert_eq!(r.poll::<u64, 1, true, u64>(&mut ch, 6), Some(Err(AsyncRecvError::Disconnected)));
}

#[test]
fn cancelled_tasks_leave_the_line() {
    let mut ch: Link<1> = Inner::new();
    let mut r = ReceiverFuture::new();
    assert_eq!(r.poll::<u64, 1, true, u64>(&mut ch, 6), None);
    r.cancel::<u64, 1, true, u64>(&mut ch);
    try_send(&mut ch, 1).unwrap();
    assert!(ch.take_woken().is_empty());
    let mut s = SenderFuture::new(2);
    assert_eq!(s.poll(&mut ch, 7), None);
    assert_eq!(s.cancel(&mut ch), Some(2));
    assert_eq!(try_recv(&mut ch), Ok(1));
    assert!(ch.take_woken().is_empty());
}

#[test]
fn streams_end_with_the_channel() {
    let mut ch: Link<2> = Inner::new();
    try_send(&mut ch, 1).unwrap();
    let mut s = ReceiverStream::new();
    assert_eq!(s.poll_next(&mut ch, 3), Some(Some(1)));
    let waiting: Option<Option<u64>> = s.poll_next(&mut ch, 3);
    assert_eq!(waiting, None);
    ch.drop_sender();
    assert_eq!(ch.take_woken(), vec![3]);
    let end: Option<Option<u64>> = s.poll_next(&mut ch, 3);
    assert_eq!(end, Some(None));
}

#[test]
fn link_batches() {
    let mut ch: Link<4> = Inner::new();
    let mut buf = vec![1, 2, 3];
    let mut b = SendBatchOp::new(&mut buf);
    while let Some(v) = b.next() {
        let r = try_send(&mut ch, v);
        if !b.settle(r) {
            break;
        }
    }
    assert_eq!(b.finish(&mut buf), 3);
    assert!(buf.is_empty());
    let mut out = Vec::new();
    assert_eq!(recv_batch_now(&mut ch, &mut out, 2), (2, false));
    assert_eq!(out, vec![1, 2]);
    let first = try_recv(&mut ch);
    assert_eq!(recv_batch(&mut ch, &mut out, 2, first).0, 1);
    assert_eq!(out, vec![1, 2, 3]);
}

#[test]
fn refused_batch_keeps_the_rest() {
    let mut ch: Link<1> = Inner::new();
    let mut buf = vec![1, 2, 3];
    let mut b = SendBatchOp::new(&mut buf);
    while let Some(v) = b.next() {
        let r = try_send(&mut ch, v);
        if !b.settle(r) {
            break;
        }
    }
    assert_eq!(b.finish(&mut buf), 1);
    assert_eq!(buf, vec![2, 3]);
}

#[test]
fn awaited_batch_keeps_what_came_back() {
    let mut ch: Link<1> = Inner::new();
    let mut buf = vec![1, 2, 3];
    let mut b = SendBatchOp::new(&mut buf);
    let first = SenderFuture::new(b.next().unwrap()).poll(&mut ch, 4).unwrap();
    assert!(b.settle_async(first));
    ch.drop_receiver();
    let second = SenderFuture::new(b.next().unwrap()).poll(&mut ch, 4).unwrap();
    assert!(!b.settle_async(second));
    assert_eq!(b.finish(&mut buf), 1);
    assert_eq!(buf, vec![2, 3]);
}

/// A batch of no items waits for nothing, whatever the channel holds.
#[test]
fn empty_batch_is_answered_at_once() {
    assert_eq!(recv_batch_begin(0), Some((0, false)));
    assert_eq!(recv_batch_begin(1), None);
    let mut ch: Link<4> = Inner::new();
    let mut out = Vec::new();
    for round in 0..3 {
        let mut op = RecvBatchOp::new(0, round == 1);
        let step = op.step(&mut ch, &mut out, WaitEvent::Go);
        assert!(matches!(step, RecvBatchStep::Done(0, false)));
        assert_eq!(RecvBatchFuture::new(0).poll(&mut ch, &mut out, 7), Some((0, false)));
        if round == 0 {
            try_send(&mut ch, 1).unwrap();
        } else if round == 1 {
            assert_eq!(try_recv(&mut ch), Ok(1));
            ch.drop_sender();
        }
    }
    assert!(out.is_empty());
}

/// A batch receive parks for its first item and takes what has come by then.
#[test]
fn batch_waits_for_its_first_item() {
    let mut ch: Link<4> = Inner::new();
    let mut out = Vec::new();
    let mut op = RecvBatchOp::new(3, false);
    let step = op.step(&mut ch, &mut out, WaitEvent::Go);
    assert!(matches!(step, RecvBatchStep::Wait(RecvStep::AskThread)));
    let step = op.step(&mut ch, &mut out, WaitEvent::Thread(9));
    assert!(matches!(step, RecvBatchStep::Wait(RecvStep::Park)));
    for i in 0..4 {
        try_send(&mut ch, i).unwrap();
    }
    let step = op.step(&mut ch, &mut out, WaitEvent::Go);
    assert!(matches!(step, RecvBatchStep::Wait(RecvStep::Again)));
    let step = op.step(&mut ch, &mut out, WaitEvent::Go);
    assert!(matches!(step, RecvBatchStep::Done(3, false)));
    assert_eq!(out, vec![0, 1, 2]);

    let mut late = RecvBatchOp::new(2, true);
    assert_eq!(try_recv(&mut ch), Ok(3));
    let step = late.step(&mut ch, &mut out, WaitEvent::Go);
    assert!(matches!(step, RecvBatchStep::Wait(RecvStep::AskClock)));
    let step = late.step(&mut ch, &mut out, WaitEvent::Expired(Duration::from_millis(1)));
    assert!(matches!(step, RecvBatchStep::Done(0, false)));
}

/// An awaited batch waits for its first item; with the last item of a closed channel it says
/// that no more will come.
#[test]
fn awaited_batch_waits_for_its_first_item() {
    let mut ch: Link<4> = Inner::new();
    let mut out = Vec::new();
    let mut f = RecvBatchFuture::new(3);
    assert_eq!(f.poll(&mut ch, &mut out, 7), None);
    try_send(&mut ch, 1).unwrap();
    assert_eq!(ch.take_woken(), vec![7]);
    ch.drop_sender();
    assert_eq!(f.poll(&mut ch, &mut out, 7), Some((1, true)));
    assert_eq!(out, vec![1]);
    assert_eq!(RecvBatchFuture::new(3).poll(&mut ch, &mut out, 7), Some((0, true)));
    let mut open: Link<4> = Inner::new();
    let mut g = RecvBatchFuture::new(1);
    assert_eq!(g.poll(&mut open, &mut out, 5), None);
    g.cancel(&mut open);
    try_send(&mut open, 2).unwrap();
    assert!(open.take_woken().is_empty());
}
