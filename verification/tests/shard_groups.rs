use hel::internal_channel::errors::TrySendBatchError;
use hel::internal_channel::inner::SeqInner;
use hel::internal_channel::receiver::try_recv_batch;
use hel::internal_channel::sender::{BatchStart, SendBatchOp};
use hel::internal_channel::traits::InnerChannel;
use hel::shard::errors::{ShardAsyncBatchSendError, ShardKeyBatchSendError};
use hel::shard::mpmc::batch::ShardBatch;
use hel::shard::mpmc::flow::{BatchFlow, FlowStep};
use hel::shard::mpmc::sender_group::{shard_group, RouteMap, ShardGroupCase};

fn symbol(item: &(String, u64)) -> &str {
    item.0.as_str()
}

fn item(key: &str, n: u64) -> (String, u64) {
    (key.to_string(), n)
}

/// What a batch receive of at most `max` gives at once.
fn read_now<T, const CAP: usize>(lane: &mut SeqInner<T, CAP, u64>, max: usize) -> Vec<T> {
    let mut buf = Vec::new();
    try_recv_batch(lane, &mut buf, max);
    buf
}

/// Sends a batch that was laid out by shard, with waiting; nothing is expected to park.
fn run_batch<const CAP: usize>(
    lanes: &mut Vec<SeqInner<(String, u64), CAP, u64>>,
    mut b: ShardBatch<(String, u64)>,
    buf: &mut Vec<(String, u64)>,
) -> Result<usize, ShardKeyBatchSendError> {
    while let Some((shard, mut group)) = b.take() {
        let r = match SendBatchOp::begin(&mut lanes[shard], &mut group, false) {
            BatchStart::Done(r) => r,
            BatchStart::Wait(_) => panic!("the batch would block"),
        };
        b = b.settle(shard, group, r, buf, &symbol)?;
    }
    Ok(b.finish(Vec::new(), buf))
}

fn run_flow<T, const CAP: usize>(
    f: &mut BatchFlow<T>,
    lanes: &mut Vec<SeqInner<T, CAP, u64>>,
    waker: u64,
) -> FlowStep {
    loop {
        match f.step(lanes, waker) {
            FlowStep::Again => {}
            step => return step,
        }
    }
}

#[test]
fn groups_route_deterministically() {
    let (tx, _rx, _lanes) = shard_group::<u64, 64, u64>(ShardGroupCase::Groups {
        groups: &[&["BTCUSDT", "ETHUSDT"], &["BTC-PERP", "ETH-PERP"], &["BTC-USD", "ETH-USD"]],
    });
    assert_eq!(tx.shard_for("BTCUSDT"), tx.shard_for("ETHUSDT"));
    assert_eq!(tx.shard_for("BTC-PERP"), tx.shard_for("ETH-PERP"));
    assert_ne!(tx.shard_for("BTCUSDT"), tx.shard_for("BTC-PERP"));
    assert_eq!(tx.shard_for("DOGE"), None);
    assert_eq!(tx.keys_count(), 6);
}

#[test]
fn handle_resolves_once() {
    let (tx, _rx, _lanes) =
        shard_group::<u64, 64, u64>(ShardGroupCase::Groups { groups: &[&["AAA"], &["BBB"]] });
    let a = tx.handle("AAA").unwrap();
    let b = tx.handle("BBB").unwrap();
    assert_ne!(a.shard(), b.shard());
    assert!(tx.handle("ZZZ").is_none());
}

#[test]
fn shard_handle_shares_route() {
    let (tx, _rx, _lanes) =
        shard_group::<u64, 64, u64>(ShardGroupCase::Groups { groups: &[&["AAA"], &["BBB"]] });
    let resolver = tx.shard_handle();
    assert_eq!(resolver.handle("AAA").unwrap().shard(), tx.handle("AAA").unwrap().shard());
    assert!(resolver.handle("ZZZ").is_none());
}

#[test]
fn send_by_handle_lands_in_group_shard() {
    let (tx, rx, mut lanes) =
        shard_group::<u64, 64, u64>(ShardGroupCase::Groups { groups: &[&["AAA"], &["BBB"]] });
    let a = tx.handle("AAA").unwrap();
    tx.try_send(&mut lanes, a, 42).unwrap();
    assert_eq!(rx.receiver(a.shard()).try_recv(&mut lanes[a.shard()]).unwrap(), 42);
}

#[test]
fn batch_single_instrument_fast() {
    let (tx, _rx, mut lanes) = shard_group::<(String, u64), 64, u64>(ShardGroupCase::Groups {
        groups: &[&["AAA"], &["BBB"]],
    });
    let a = tx.handle("AAA").unwrap();
    let mut buf = vec![item("AAA", 1), item("AAA", 2), item("AAA", 3), item("AAA", 4)];
    let sent = tx.try_send_batch(&mut lanes, &mut buf, symbol).unwrap();
    assert_eq!(sent, 4);
    assert!(buf.is_empty());
    let out = read_now(&mut lanes[a.shard()], 8);
    assert_eq!(out, vec![item("AAA", 1), item("AAA", 2), item("AAA", 3), item("AAA", 4)]);
}

#[test]
fn batch_two_shards_via_into_receivers() {
    let (tx, rx, mut lanes) = shard_group::<(String, u64), 64, u64>(ShardGroupCase::Groups {
        groups: &[&["AAA"], &["BBB"]],
    });
    let a = tx.handle("AAA").unwrap();
    let b = tx.handle("BBB").unwrap();
    assert_ne!(a.shard(), b.shard());
    let mut buf = vec![
        item("AAA", 1),
        item("BBB", 10),
        item("AAA", 2),
        item("BBB", 20),
        item("AAA", 3),
        item("BBB", 30),
        item("AAA", 4),
    ];
    let sent = tx.try_send_batch(&mut lanes, &mut buf, symbol).unwrap();
    assert_eq!(sent, 7);
    assert!(buf.is_empty());
    let receivers = rx.into_receivers();
    let mut out_a = Vec::new();
    receivers[a.shard()].try_recv_batch(&mut lanes[a.shard()], &mut out_a, 8);
    assert_eq!(out_a, vec![item("AAA", 1), item("AAA", 2), item("AAA", 3), item("AAA", 4)]);
    let mut out_b = Vec::new();
    receivers[b.shard()].try_recv_batch(&mut lanes[b.shard()], &mut out_b, 8);
    assert_eq!(out_b, vec![item("BBB", 10), item("BBB", 20), item("BBB", 30)]);
    assert!(out_a.iter().all(|(s, _)| s == "AAA"));
    assert!(out_b.iter().all(|(s, _)| s == "BBB"));
}

#[test]
fn from_map_constructor() {
    let mut m = RouteMap::new();
    m.insert("X".to_string(), 0);
    m.insert("Y".to_string(), 1);
    m.insert("Z".to_string(), 0);
    let (tx, _rx, _lanes) =
        shard_group::<u64, 64, u64>(ShardGroupCase::Routes { map: m, num_groups: 2 });
    assert_eq!(tx.shard_for("X"), tx.shard_for("Z"));
    assert_ne!(tx.shard_for("X"), tx.shard_for("Y"));
}

#[test]
fn shard_group_via_case() {
    let (tx, _rx, _lanes) =
        shard_group::<u64, 64, u64>(ShardGroupCase::Groups { groups: &[&["AAA"], &["BBB"]] });
    assert_ne!(tx.shard_for("AAA"), tx.shard_for("BBB"));
    let mut m = RouteMap::new();
    m.insert("X".to_string(), 0usize);
    m.insert("Y".to_string(), 1usize);
    let (tx2, _rx2, _lanes2) =
        shard_group::<u64, 64, u64>(ShardGroupCase::Routes { map: m, num_groups: 2 });
    assert_ne!(tx2.shard_for("X"), tx2.shard_for("Y"));
}

#[test]
fn clone_shares_routing() {
    let (tx1, _rx, mut lanes) =
        shard_group::<u64, 64, u64>(ShardGroupCase::Groups { groups: &[&["AAA"], &["BBB"]] });
    let tx2 = tx1.clone(&mut lanes);
    assert_eq!(tx1.shard_for("AAA"), tx2.shard_for("AAA"));
    assert_eq!(tx1.shards(), tx2.shards());
}

#[test]
fn async_send_by_handle() {
    let (tx, rx, mut lanes) =
        shard_group::<u64, 64, u64>(ShardGroupCase::Groups { groups: &[&["AAA"], &["BBB"]] });
    let a = tx.handle("AAA").unwrap();
    let (s, mut f) = tx.send_async(a, 7);
    assert_eq!(s, a.shard());
    assert!(matches!(f.poll(&mut lanes[s], 1), Some(Ok(()))));
    let mut r = rx.receiver(s).recv_async();
    assert_eq!(r.poll(&mut lanes[s], 2), Some(Ok(7)));
}

/// The items of known keys go through, the others stay.
#[test]
fn group_send_batch_timeout_overflow_must_not_destroy_batch() {
    let (tx, _rx, mut lanes) = shard_group::<(String, u64), 8, u64>(ShardGroupCase::Groups {
        groups: &[&["A"], &["B"]],
    });
    let mut buf = vec![item("A", 1), item("B", 2), item("A", 3), item("GHOST", 4)];
    let b = tx.send_batch(&mut buf, &symbol);
    let sent = run_batch(&mut lanes, b, &mut buf).expect("send must succeed");
    assert_eq!(sent, 3, "three routable items");
    assert_eq!(buf, vec![item("GHOST", 4)], "only the GHOST stays in buf");
}

/// A batch that does not fit stops at the first shard that falls short, and everything
/// that was not sent comes back.
#[test]
fn group_batch_stops_at_the_first_short_shard() {
    let (tx, _rx, mut lanes) = shard_group::<(String, u64), 2, u64>(ShardGroupCase::Groups {
        groups: &[&["A"], &["B"]],
    });
    let mut buf = vec![
        item("A", 1),
        item("GHOST", 9),
        item("A", 2),
        item("A", 3),
        item("B", 4),
    ];
    let e = tx.try_send_batch(&mut lanes, &mut buf, symbol).unwrap_err();
    assert_eq!((e.shard, e.sent, e.reason), (0, 2, TrySendBatchError::Full));
    assert_eq!(e.key, "A");
    assert_eq!(buf, vec![item("A", 3), item("B", 4), item("GHOST", 9)]);
    assert!(read_now(&mut lanes[1], 8).is_empty());
}

#[test]
fn group_async_batch_keeps_everything_it_could_not_send() {
    let (tx, rx, mut lanes) = shard_group::<(String, u64), 2, u64>(ShardGroupCase::Groups {
        groups: &[&["A"], &["B"]],
    });
    let mut buf = vec![
        item("GHOST", 9),
        item("A", 1),
        item("B", 4),
        item("A", 2),
        item("A", 3),
    ];
    let mut f = tx.send_batch_async(&mut buf, &symbol);
    assert_eq!(run_flow(&mut f, &mut lanes, 6), FlowStep::Pending);
    rx.close(&mut lanes);
    assert_eq!(lanes[0].take_woken(), vec![6]);
    assert_eq!(run_flow(&mut f, &mut lanes, 6), FlowStep::Disconnected);
    let r = f.finish(&mut buf);
    assert_eq!(r, Err(ShardAsyncBatchSendError { shard: 0, sent: 2 }));
    assert_eq!(buf, vec![item("A", 3), item("B", 4), item("GHOST", 9)]);
}

#[test]
fn group_async_batch_leaves_the_strangers() {
    let (tx, _rx, mut lanes) = shard_group::<(String, u64), 2, u64>(ShardGroupCase::Groups {
        groups: &[&["A"], &["B"]],
    });
    let mut buf = vec![item("GHOST", 9), item("B", 4), item("A", 1)];
    let mut f = tx.send_batch_async(&mut buf, &symbol);
    assert_eq!(run_flow(&mut f, &mut lanes, 6), FlowStep::Done);
    assert_eq!(f.finish(&mut buf), Ok(2));
    assert_eq!(buf, vec![item("GHOST", 9)]);
}

/// Three groups take four shards; groups are shards.
#[test]
fn groups_are_shards() {
    let (tx, rx, lanes) = shard_group::<u64, 4, u64>(ShardGroupCase::Groups {
        groups: &[&["a"], &["b"], &["c", "a"]],
    });
    assert_eq!(tx.shards(), 4);
    assert_eq!(rx.shards(), 4);
    assert_eq!(lanes.len(), 4);
    assert_eq!(tx.shard_for("b"), Some(1));
    assert_eq!(tx.shard_for("c"), Some(2));
    // a key that is named twice belongs to the later group
    assert_eq!(tx.shard_for("a"), Some(2));
}

/// Each shard of a batch by route may take the whole time.
#[test]
fn batch_by_route_has_a_budget_for_each_shard() {
    let (tx, _rx, _lanes) =
        shard_group::<(String, u64), 4, u64>(ShardGroupCase::Groups { groups: &[&["a"], &["b"]] });
    let mut buf = vec![("a".to_string(), 1), ("b".to_string(), 2)];
    let mut b = tx.send_batch_timeout(&mut buf, &symbol, 40);
    assert_eq!(b.take().unwrap().0, 0);
    assert_eq!(b.time_left(10), Some(40));
    assert_eq!(b.take().unwrap().0, 1);
    assert_eq!(b.time_left(45), Some(40));
    let mut buf = vec![("a".to_string(), 1)];
    assert_eq!(tx.send_batch(&mut buf, &symbol).time_left(0), None);
}
