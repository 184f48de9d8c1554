use hel::internal_channel::inner::SeqInner;
use hel::internal_channel::traits::{InnerChannel, Pushed};
use hel::ring::{Ring, Slot};
use std::rc::Rc;

#[test]
fn algo_ring_1p1c_wraparound_exact() {
    let mut ch: SeqInner<usize, 2, u64> = SeqInner::new();
    let mut got = Vec::new();
    for v in 1..=3usize {
        let mut item = v;
        loop {
            match ch.push(item) {
                Ok(()) => break,
                Err(back) => {
                    item = back;
                    got.push(ch.pop().unwrap());
                }
            }
        }
    }
    while got.len() < 3 {
        got.push(ch.pop().unwrap());
    }
    assert_eq!(got, vec![1, 2, 3], "order through wrap around");
    assert!(ch.pop().is_none());
}

#[test]
fn algo_ring_2p1c_no_loss_no_dup() {
    let mut ch: SeqInner<usize, 2, u64> = SeqInner::new();
    for p in 0..2usize {
        assert!(ch.push(p * 10).is_ok());
    }
    let mut got = Vec::new();
    while got.len() < 2 {
        got.push(ch.pop().unwrap());
    }
    got.sort_unstable();
    assert_eq!(got, vec![0, 10], "loss or duplication in the ring");
    assert!(ch.pop().is_none(), "phantom element after drain");
}

#[test]
fn algo_ring_push_batch_vs_pop() {
    let mut ch: SeqInner<usize, 2, u64> = SeqInner::new();
    let mut buf = vec![1usize, 2];
    let mut pushed = 0;
    let mut got = Vec::new();
    while pushed < 2 {
        pushed += ch.push_batch(&mut buf);
    }
    while got.len() < 2 {
        got.push(ch.pop().unwrap());
    }
    got.sort_unstable();
    assert_eq!(got, vec![1, 2], "batch publication visible out of order");
}

#[test]
fn algo_ring_close_drain_no_lost_element() {
    let mut ch: SeqInner<usize, 2, u64> = SeqInner::new();
    ch.push(7usize).unwrap();
    ch.sender_sub();
    ch.tx_close();
    ch.notify_all_on_tx_close();
    let mut got = None;
    loop {
        match ch.pop() {
            Some(v) => {
                got = Some(v);
                break;
            }
            None => {
                if ch.is_tx_closed() && ch.is_empty() {
                    break;
                }
            }
        }
    }
    assert_eq!(got, Some(7), "element lost on shutdown");
}

/// Every item is accounted for when a reserved position is given up.
#[test]
fn algo_ring_abort_seal_vs_pop() {
    for pop_first in [true, false] {
        let all = Rc::new(());
        let mut ch: SeqInner<(usize, Rc<()>), 2, u64> = SeqInner::new();
        assert!(ch.push((1, all.clone())).is_ok());
        assert!(ch.push((2, all.clone())).is_ok());
        let (value, pos) = match ch.push_fetch_add((3, all.clone())) {
            Pushed::Waiting { value, pos } => (value, pos),
            _ => panic!("the ring is full"),
        };
        let mut popped = None;
        if pop_first {
            popped = ch.pop();
        }
        ch.rx_close();
        ch.notify_all_on_rx_close();
        match ch.push_reserved(pos, value) {
            Pushed::Done => assert!(pop_first),
            Pushed::Refused(v) => {
                assert!(!pop_first);
                assert_eq!(v.0, 3);
            }
            Pushed::Waiting { .. } => panic!("the receivers are gone"),
        }
        if let Some(v) = &popped {
            assert_eq!(v.0, 1);
        }
        drop(popped);
        drop(ch);
        assert_eq!(Rc::strong_count(&all), 1, "value lost");
    }
}

#[test]
fn algo_ring_two_aborts_over_reservation() {
    let all = Rc::new(());
    let mut ch: SeqInner<(usize, Rc<()>), 2, u64> = SeqInner::new();
    assert!(ch.push((1, all.clone())).is_ok());
    assert!(ch.push((2, all.clone())).is_ok());
    let (value, pos) = match ch.push_fetch_add((3, all.clone())) {
        Pushed::Waiting { value, pos } => (value, pos),
        _ => panic!("the ring is full"),
    };
    ch.rx_close();
    ch.notify_all_on_rx_close();
    assert!(
        matches!(ch.push_reserved(pos, value), Pushed::Refused(_)),
        "blocked producer must abort after the close"
    );
    let mut buf = vec![(9, all.clone())];
    assert_eq!(ch.push_batch(&mut buf), 0, "push_batch must not spin on over reservation");
    drop(buf);
    drop(ch);
    assert_eq!(Rc::strong_count(&all), 1);
}

/// An over-reserved ring takes no batch even while there are receivers.
#[test]
fn batch_waits_behind_reservations() {
    let mut ring: Ring<u64, 2> = Ring::new();
    assert!(ring.push(1).is_ok());
    assert!(ring.push(2).is_ok());
    let pos = ring.reserve();
    assert_eq!(ring.fill(pos, 3), Err(3));
    let mut buf = vec![4, 5];
    assert_eq!(ring.push_batch(&mut buf), 0);
    assert_eq!(ring.pop(), Some(1));
    assert_eq!(ring.push_batch(&mut buf), 0);
    assert_eq!(ring.fill(pos, 3), Ok(()));
    assert_eq!(ring.pop(), Some(2));
    assert_eq!(ring.push_batch(&mut buf), 1);
    assert_eq!(buf, vec![5]);
    let mut out = Vec::new();
    assert_eq!(ring.pop_batch(&mut out, 9), 2);
    assert_eq!(out, vec![3, 4]);
    assert_eq!(ring.positions(), (4, 4));
}

/// A reader that has claimed the oldest position keeps its cell from being overwritten.
#[test]
fn claimed_position_is_not_overwritten() {
    let mut ring: Ring<u64, 2> = Ring::new();
    assert!(ring.begin_pop().is_none());
    assert!(ring.push(1).is_ok());
    assert!(ring.push(2).is_ok());
    let pos = ring.begin_pop().unwrap();
    assert_eq!(pos, 0);
    assert_eq!(ring.push(3), Err(3));
    assert_eq!(ring.finish_pop(pos), 1);
    assert_eq!(ring.push(3), Ok(()));
    assert_eq!(ring.pop(), Some(2));
    assert_eq!(ring.pop(), Some(3));
    assert!(ring.is_empty());
    assert_eq!(ring.len(), 0);
}

/// An unwritten position stops a reader, whatever comes behind it.
#[test]
fn unwritten_position_holds_the_line() {
    let mut ring: Ring<u64, 4> = Ring::new();
    let a = ring.reserve();
    assert!(ring.push(2).is_ok());
    assert_eq!(ring.pop(), None);
    let mut out = Vec::new();
    assert_eq!(ring.pop_batch(&mut out, 4), 0);
    assert_eq!(ring.fill(a, 1), Ok(()));
    assert_eq!(ring.pop_batch(&mut out, 4), 2);
    assert_eq!(out, vec![1, 2]);
}

#[test]
fn new_slot_is_empty() {
    let s: Slot<u64> = Slot::new(3);
    assert_eq!(s.sequence, 3);
    assert!(s.data.is_none());
}
