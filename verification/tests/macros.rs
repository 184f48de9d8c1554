use hel::internal_channel::receiver::{recv_batch, recv_batch_begin, try_recv};
use hel::pow2::nearest_power_of_two;
use hel::shard::mpmc::hash::{auto_shards, shards_for};
use hel::shard::mpmc::sender_key::shard_key;
use hel::shard::mpmc::sender_round_robin::round_robin;
use hel::shard::spsc::{shard_spsc, shard_spsc_auto};

/// The number of shards when none is given.
fn default_shards() -> usize {
    auto_shards().unwrap()
}

#[test]
fn pow2_exact() {
    assert_eq!(nearest_power_of_two(1), 1);
    assert_eq!(nearest_power_of_two(2), 2);
    assert_eq!(nearest_power_of_two(4), 4);
    assert_eq!(nearest_power_of_two(128), 128);
    assert_eq!(nearest_power_of_two(1024), 1024);
}

#[test]
fn pow2_rounds_up() {
    assert_eq!(nearest_power_of_two(3), 4);
    assert_eq!(nearest_power_of_two(5), 8);
    assert_eq!(nearest_power_of_two(100), 128);
    assert_eq!(nearest_power_of_two(300), 512);
    assert_eq!(nearest_power_of_two(430), 512);
    assert_eq!(nearest_power_of_two(500), 512);
    assert_eq!(nearest_power_of_two(513), 1024);
    assert_eq!(nearest_power_of_two(1000), 1024);
}

#[test]
fn pow2_zero_returns_one() {
    assert_eq!(nearest_power_of_two(0), 1);
}

#[test]
fn pow2_of_the_largest_half() {
    let top = usize::MAX / 2 + 1;
    assert_eq!(nearest_power_of_two(top), top);
    assert_eq!(nearest_power_of_two(top - 1), top);
    assert_eq!(nearest_power_of_two(nearest_power_of_two(77)), nearest_power_of_two(77));
}

#[test]
fn shard_counts_are_rounded_or_refused() {
    assert_eq!(shards_for(0), Some(1));
    assert_eq!(shards_for(6), Some(8));
    assert_eq!(shards_for(usize::MAX / 2 + 1), Some(usize::MAX / 2 + 1));
    assert_eq!(shards_for(usize::MAX / 2 + 2), None);
    assert_eq!(shards_for(usize::MAX), None);
}

#[test]
fn sharded_macro_round_robin_default() {
    let (mut tx, _rx, mut lanes) = round_robin::<u64, 128, u64>(default_shards());
    assert!(tx.shards().is_power_of_two());
    tx.try_send(&mut lanes, 1).unwrap();
}

#[test]
fn sharded_macro_round_robin_explicit() {
    let (mut tx, _rx, mut lanes) = round_robin::<u64, 128, u64>(default_shards());
    assert!(tx.shards().is_power_of_two());
    tx.try_send(&mut lanes, 1).unwrap();
}

#[test]
fn sharded_macro_round_robin_with_shards() {
    let (mut tx, _rx, mut lanes) = round_robin::<u64, 128, u64>(4);
    assert_eq!(tx.shards(), 4);
    tx.try_send(&mut lanes, 1).unwrap();
}

#[test]
fn sharded_macro_bykey_auto_shards() {
    let (tx, _rx, _lanes) = shard_key::<u64, 128, u64>(default_shards());
    assert!(tx.shards().is_power_of_two());
    let shard = tx.shard_for("AAPL");
    assert!(shard < tx.shards());
}

#[test]
fn sharded_macro_bykey_explicit_shards() {
    let (tx, rx, mut lanes) = shard_key::<u64, 128, u64>(4);
    assert_eq!(tx.shards(), 4);
    let shard = tx.shard_for("AAPL");
    tx.try_send(&mut lanes, "AAPL", 42).unwrap();
    assert_eq!(rx.receiver(shard).try_recv(&mut lanes[shard]).unwrap(), 42);
}

#[test]
fn sharded_macro_policy_ordering() {
    let (tx, _rx, mut lanes) = shard_key::<u64, 64, u64>(4);
    let s = tx.shard_for("ETH");
    for i in 0..5u64 {
        tx.try_send(&mut lanes, "ETH", i).unwrap();
    }
    let mut buf = Vec::new();
    assert_eq!(recv_batch_begin(&mut lanes[s], 5), None);
    let first = Ok(try_recv(&mut lanes[s]).unwrap());
    recv_batch(&mut lanes[s], &mut buf, 5, first);
    assert_eq!(buf, vec![0, 1, 2, 3, 4]);
}

#[test]
fn sharded_key_macro_auto_shards() {
    let (tx, rx, mut lanes) = shard_key::<u64, 256, u64>(default_shards());
    assert!(tx.shards().is_power_of_two());
    assert!(tx.shards() >= 1);
    let shard = tx.shard_for("AAPL");
    assert!(shard < tx.shards());
    rx.close(&mut lanes);
}

#[test]
fn sharded_key_macro_explicit_shards() {
    let (tx, _rx, _lanes) = shard_key::<u64, 512, u64>(8);
    assert_eq!(tx.shards(), 8);
    // 500 is rounded up to 512
    assert_eq!(nearest_power_of_two(500), 512);
    let (tx2, _rx2, _lanes2) = shard_key::<u64, 512, u64>(4);
    assert_eq!(tx2.shards(), 4);
}

#[test]
fn sharded_key_macro_routing() {
    let (tx, rx, mut lanes) = shard_key::<u64, 64, u64>(4);
    let shard = tx.shard_for("AAPL");
    tx.try_send(&mut lanes, "AAPL", 42).unwrap();
    assert_eq!(rx.receiver(shard).try_recv(&mut lanes[shard]).unwrap(), 42);
}

#[test]
fn sharded_key_macro_shards_rounded() {
    // 6 becomes 8
    let (tx, _rx, _lanes) = shard_key::<u64, 128, u64>(6);
    assert_eq!(tx.shards(), 8);
    // 12 becomes 16
    let (tx2, _rx2, _lanes2) = shard_key::<u64, 128, u64>(12);
    assert_eq!(tx2.shards(), 16);
}

#[test]
fn sharded_spsc_macro_auto_shards() {
    let ch = shard_spsc_auto::<u64, 256, u64>();
    assert!(ch.shards() >= 1);
    assert_eq!(ch.shards(), num_cpus::get());
}

#[test]
fn sharded_spsc_macro_explicit_shards() {
    // the number of shards need not be a power of two here
    let ch = shard_spsc::<u64, 256, u64>(3);
    assert_eq!(ch.shards(), 3);
}

#[test]
fn sharded_spsc_macro_into_pairs() {
    let ch = shard_spsc::<u64, 64, u64>(4);
    let pairs = ch.into_pairs();
    assert_eq!(pairs.len(), 4);
    for (i, (shard_id, mut pair)) in pairs.into_iter().enumerate() {
        assert_eq!(shard_id, i);
        pair.tx.try_send(&mut pair.inner, shard_id as u64).unwrap();
        assert_eq!(pair.rx.try_recv(&mut pair.inner).unwrap(), shard_id as u64);
    }
}

#[test]
fn sharded_spsc_macro_take_pair() {
    let mut ch = shard_spsc::<u64, 64, u64>(4);
    let mut p0 = ch.take_pair(0).unwrap();
    let mut p2 = ch.take_pair(2).unwrap();
    assert_eq!(ch.remaining(), vec![1, 3]);
    p0.tx.try_send(&mut p0.inner, 10).unwrap();
    p2.tx.try_send(&mut p2.inner, 20).unwrap();
    assert_eq!(p0.rx.try_recv(&mut p0.inner).unwrap(), 10);
    assert_eq!(p2.rx.try_recv(&mut p2.inner).unwrap(), 20);
}

#[test]
fn sharded_explicit_rounds_both() {
    // capacity 500 becomes 512, 6 shards become 8
    assert_eq!(nearest_power_of_two(500), 512);
    let (tx, _rx, _lanes) = shard_key::<u64, 512, u64>(6);
    assert_eq!(tx.shards(), 8);
    let s = tx.shard_for("AAPL");
    assert!(s < 8);
}

#[test]
fn sharded_explicit_exact_powers() {
    let (tx, _rx, _lanes) = round_robin::<u64, 128, u64>(4);
    assert_eq!(tx.shards(), 4);
}

#[test]
fn sharded_explicit_large_cap() {
    // 1000 becomes 1024, 12 becomes 16
    assert_eq!(nearest_power_of_two(1000), 1024);
    let (tx, _rx, _lanes) = shard_key::<u64, 1024, u64>(12);
    assert_eq!(tx.shards(), 16);
    assert!(tx.shard_for("BTC") < 16);
}

#[test]
fn sharded_send_recv_after_macro() {
    assert_eq!(nearest_power_of_two(100), 128);
    let (tx, rx, mut lanes) = shard_key::<u64, 128, u64>(4);
    let shard = tx.shard_for("ETH");
    tx.try_send(&mut lanes, "ETH", 999u64).unwrap();
    assert_eq!(rx.receiver(shard).try_recv(&mut lanes[shard]).unwrap(), 999);
}
