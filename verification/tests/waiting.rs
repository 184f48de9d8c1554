use hel::cache::Padding;
use hel::internal_channel::sync::SyncList;
use hel::shim::{AtomicWaker, Registration};
use hel::waiters::SyncRawList;

/// A wake-up that comes before, between or after the cancellation of another slot still
/// reaches a live waiter.
#[test]
fn notify_never_starves_live_waiter() {
    for cancel_first in [true, false] {
        let mut list: SyncList<u64> = SyncList::new();
        let a = list.push_async_slot(1);
        let _b = list.push_async_slot(2);
        let woken = if cancel_first {
            list.cancel_async_slot(a);
            list.notify_one()
        } else {
            let w = list.notify_one();
            list.cancel_async_slot(a);
            w
        };
        assert_eq!(woken, Some(if cancel_first { 2 } else { 1 }));
    }
}

#[test]
fn concurrent_cancels_keep_count_consistent() {
    for swap in [false, true] {
        let mut list: SyncList<u64> = SyncList::new();
        let a = list.push_async_slot(1);
        let b = list.push_async_slot(2);
        let (first, second) = if swap { (b, a) } else { (a, b) };
        list.cancel_async_slot(first);
        list.cancel_async_slot(second);
        let count = list.async_count_seqcst();
        let qlen = list.debug_async_queue_len();
        assert_eq!(count, qlen, "the count drifted from the real queue length");
        assert!(qlen <= 2, "queue grew beyond the slots ever pushed");
    }
}

#[test]
fn normal_exit_unlinks_the_node() {
    let mut list: SyncList<u64> = SyncList::new();
    let node = list.push_blocking(1);
    assert_eq!(list.blocking_count_acquire(), 1);
    list.remove(node);
    assert_eq!(list.blocking_count_acquire(), 0);
    assert!(!list.has_waiters());
}

#[test]
fn cancelled_slots_behind_a_live_waiter_are_swept() {
    let mut list: SyncList<u64> = SyncList::new();
    let live = list.push_async_slot(0);
    let dead: Vec<usize> = (0..64).map(|i| list.push_async_slot(i)).collect();
    for s in dead {
        list.cancel_async_slot(s);
    }
    assert_eq!(
        list.debug_async_queue_len(),
        1,
        "tombstones piled up behind the live head"
    );
    list.cancel_async_slot(live);
    assert_eq!(list.debug_async_queue_len(), 0);
}

/// Tasks are woken before threads, each kind in order.
#[test]
fn tasks_come_before_threads() {
    let mut list: SyncList<u64> = SyncList::new();
    let _ = list.push_blocking(10);
    let _ = list.push_async_slot(1);
    let _ = list.push_blocking(11);
    let _ = list.push_async_slot(2);
    let mut out = Vec::new();
    list.notify_n(3, &mut out);
    assert_eq!(out, vec![1, 2, 10]);
    assert_eq!(list.wake_one(), Some(11));
    assert_eq!(list.wake_one(), None);
}

#[test]
fn everybody_is_woken_once() {
    let mut list: SyncList<u64> = SyncList::new();
    let slot = list.push_async_slot(1);
    let node = list.push_blocking(10);
    let mut out = Vec::new();
    list.wake_all(&mut out);
    out.sort_unstable();
    assert_eq!(out, vec![1, 10]);
    assert!(!list.has_waiters());
    assert!(!list.is_queued(slot));
    list.remove(node);
    list.cancel_async_slot(slot);
    assert_eq!(list.notify_one(), None);
}

/// The hints say whether anybody waits; without any nobody is looked for.
#[test]
fn hints_decide_whether_to_look() {
    let mut list: SyncList<u64> = SyncList::new();
    let _ = list.push_async_slot(1);
    assert_eq!(list.notify_one_if(0, 0), None);
    assert_eq!(list.notify_one_if(1, 0), Some(1));
}

#[test]
fn raw_list_is_first_in_first_out() {
    let mut l: SyncRawList<u64> = SyncRawList::new();
    let a = l.new_node();
    let b = l.new_node();
    let c = l.new_node();
    l.push_back(a, 1);
    l.push_back(b, 2);
    l.push_back(c, 3);
    assert!(l.is_in_list(b));
    l.remove(b);
    assert!(!l.is_in_list(b));
    l.remove(b);
    l.set_kind(c, 30);
    assert_eq!(l.pop_front(), Some(1));
    assert_eq!(l.pop_front(), Some(30));
    assert_eq!(l.pop_front(), None);
    assert!(l.is_empty());
    l.push_back(b, 4);
    assert_eq!(l.pop_front(), Some(4));
    l.drop_node(a);
    assert_eq!(l.new_node(), a);
}

#[test]
fn waker_is_handed_out_once() {
    let mut cell: AtomicWaker<u64> = AtomicWaker::new();
    assert_eq!(cell.take(), None);
    assert_eq!(cell.register(1), None);
    assert_eq!(cell.register(2), None);
    assert_eq!(cell.take(), Some(2));
    assert_eq!(cell.take(), None);
}

/// A wake-up that comes in during a registration is delivered by the registration.
#[test]
fn wake_up_during_a_registration_is_not_lost() {
    let mut cell: AtomicWaker<u64> = AtomicWaker::new();
    assert!(matches!(cell.begin_register(5), Registration::Stored));
    assert_eq!(cell.take(), None);
    assert!(matches!(cell.begin_register(6), Registration::Dropped));
    assert_eq!(cell.finish_register(), Some(5));
    assert_eq!(cell.take(), None);
}

/// A registration that comes in during a take is told to wake itself.
#[test]
fn registration_during_a_take_wakes_itself() {
    let mut cell: AtomicWaker<u64> = AtomicWaker::new();
    assert_eq!(cell.register(1), None);
    assert!(cell.begin_take());
    assert_eq!(cell.register(2), Some(2));
    assert!(!cell.begin_take());
    assert_eq!(cell.finish_take(), Some(1));
}

#[test]
fn padding_gives_its_value() {
    let p = Padding(7u64);
    assert_eq!(*p, 7);
}

/// Whatever others do, a waiter can go on from its place.
#[test]
fn places_are_kept() {
    let mut list: SyncList<u64> = SyncList::new();
    let a = list.push_async_slot(1);
    let node = list.push_blocking(10);
    let b = list.push_async_slot(2);
    let other = list.push_blocking(11);
    list.cancel_async_slot(b);
    list.remove(other);
    let mut out = Vec::new();
    list.wake_all(&mut out);
    assert_eq!(out.len(), 2);
    // woken, but still holding its place: it may wait again or leave
    let again = list.wait_async(Some(a), 3);
    assert!(list.is_queued(again));
    list.remove(node);
    assert_eq!(list.notify_one(), Some(3));
}
