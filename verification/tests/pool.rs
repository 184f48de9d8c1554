use hel::internal_channel::receiver::try_recv_batch;
use hel::pool::errors::{ConfigError, PoolError, SpawnKind};
use hel::pool::guard::{CommitBatchGuard, CommitGuard, OwnerGuard};
use hel::pool::handler::PerItem;
use hel::pool::instance::{
    claim_or_release, claim_or_release_to, desired_owner, Config, FillSignal, State, NONE,
};
use hel::pool::placement::{monitor, rebalance, shard_loads};
use hel::pool::signal::Stop;
use hel::pool::stall::{stall_looks, stall_takeover_pass, StallWatch};
use hel::pool::stats::{snapshot, worker_id};
use hel::pool::sync::{AsyncPool, SyncPool};
use hel::pool::traits::SyncSlotHandler;
use hel::pool::util::YieldNow;
use hel::pool::worker::{
    idle_phase, settle_item, sleep_step, IdlePhase, ItemEnd, MonitorLoop, MonitorStep, SleepStep,
    Spawner, WorkerLoop, WorkerStep,
};
use hel::helper::panic::PanicReason;
use hel::pool::{async_pool_slot, sync_pool_slot};
use hel::shard::mpmc::sender_round_robin::round_robin;

fn desired_vec(state: &State) -> Vec<usize> {
    (0..state.shards()).map(|s| state.desired(s)).collect()
}

#[test]
fn spawn_error_displays_the_kind() {
    let e = PoolError::Spawn(SpawnKind::WouldBlock);
    let s = e.text();
    assert!(s.contains("WouldBlock"), "kind missing from: {s}");
    assert!(s.contains("refused"), "cause missing from: {s}");
    assert_eq!(e, PoolError::Spawn(SpawnKind::WouldBlock));
}

#[test]
fn pool_errors_in_words() {
    assert_eq!(
        PoolError::Spawn(SpawnKind::Other("Interrupted".to_string())).text(),
        "the OS refused to create a pool thread (Interrupted): thread limit (RLIMIT_NPROC / cgroup pids.max) or out of memory"
    );
    assert!(PoolError::ReceiverEmpty.text().contains("at least one shard"));
    let e = ConfigError::StallTakeoverNeedsSpareWorker { effective_max: 1 };
    assert!(e.text().contains("max_consumers is 1 after"));
    assert_eq!(PoolError::Config(e.clone()).text(), e.text());
    assert_eq!(SpawnKind::OutOfMemory.name(), "OutOfMemory");
}

#[test]
fn uniform_load_matches_modulo() {
    let mut state = State::new(8, 4);
    for loads in [[0usize; 8], [5usize; 8]] {
        rebalance(&mut state, &loads, 4, 0);
        let got = desired_vec(&state);
        let want: Vec<usize> = (0..8).map(|s| s % 4).collect();
        assert_eq!(got, want, "uniform load drifted from modulo placement");
    }
}

#[test]
fn hot_shard_gets_isolated() {
    let mut state = State::new(4, 2);
    let loads = [100usize, 0, 0, 0];
    rebalance(&mut state, &loads, 2, 0);
    let d = desired_vec(&state);
    let hot_worker = d[0];
    assert_eq!(
        d.iter().filter(|&&w| w == hot_worker).count(),
        1,
        "hot shard must not share its worker: {d:?}"
    );
    assert_ne!(d[2], hot_worker, "cold shard 2 did not migrate off the hotspot");
}

#[test]
fn placement_never_targets_retired_worker() {
    let mut state = State::new(16, 8);
    let loads = [3usize; 16];
    rebalance(&mut state, &loads, 3, 0);
    for (s, w) in desired_vec(&state).into_iter().enumerate() {
        assert!(w < 3, "shard {s} targets retired worker {w}");
    }
}

#[test]
fn rebalance_margin_damps_churn() {
    let mut state = State::new(2, 2);
    state.set_desired(0, 0);
    state.set_desired(1, 0);
    rebalance(&mut state, &[10, 8], 2, 0);
    assert_eq!(desired_vec(&state), vec![0, 1], "no margin: idle worker takes S1");
    state.set_desired(0, 0);
    state.set_desired(1, 0);
    rebalance(&mut state, &[10, 8], 2, 20);
    assert_eq!(
        desired_vec(&state),
        vec![0, 0],
        "margin: sub-threshold gap must not reshuffle owners"
    );
}

const CAP: usize = 1024;

/// What the average fill calls for, with the usual thresholds.
fn signal_of(cfg: &Config, loads: &[usize]) -> FillSignal {
    let total: usize = loads.iter().sum();
    let fill = total as f64 / (loads.len() * CAP) as f64;
    if fill > 0.80 {
        FillSignal::High { target: (fill * cfg.max_consumers as f64).ceil() as usize }
    } else if fill < 0.20 {
        FillSignal::Low
    } else {
        FillSignal::Steady
    }
}

/// Scaling by average fill alone, shards placed by remainder.
fn old_monitor(cfg: &Config, cur: usize, loads: &[usize]) -> (usize, usize) {
    let n = loads.len();
    let active = cfg.decide(cur, signal_of(cfg, loads)).max(1);
    let hot_owner = 0 % active;
    let co_tenants = (0..n).filter(|s| s % active == hot_owner).count();
    (active, co_tenants)
}

/// Scaling and placement by load.
fn new_monitor(cfg: &Config, cur: usize, loads: &[usize]) -> (usize, usize) {
    let n = loads.len();
    let hot = loads.iter().filter(|&&q| q as f64 > 0.80 * CAP as f64).count();
    let mut state = State::new(n, cur);
    monitor(cfg, &mut state, loads, signal_of(cfg, loads), hot, 0);
    let hot_owner = state.desired(0);
    let co_tenants = (0..n).filter(|s| state.desired(*s) == hot_owner).count();
    (state.active(), co_tenants)
}

#[test]
fn old_vs_new_on_one_hot_shard() {
    let mut loads = [0usize; 8];
    loads[0] = CAP;

    let cfg = Config::new(2, 8);
    let (ao, co) = old_monitor(&cfg, 2, &loads);
    let (an, cn) = new_monitor(&cfg, 2, &loads);
    assert_eq!(ao, an, "same consumer count in this scenario");
    assert!(co > 1, "old: hot shard shares its consumer with cold shards");
    assert_eq!(cn, 1, "new: hot shard is alone on its consumer");

    let cfg = Config::new(1, 8);
    let (ao, co) = old_monitor(&cfg, 1, &loads);
    let (an, cn) = new_monitor(&cfg, 1, &loads);
    assert_eq!(ao, 1, "old: aggregate fill stayed below 0.80, no scale-up");
    assert_eq!(co, 8, "old: the sole worker drains every shard incl. the hot one");
    assert_eq!(an, 2, "new: skew floor bumps active to hot+1");
    assert_eq!(cn, 1, "new: hot shard isolated");
}

#[test]
fn loom_pool_claim_never_double_owns() {
    // every order of the two workers' passes
    for order in [[0usize, 1], [1, 0]] {
        let mut state = State::new(2, 1);
        // a stale view: worker 0 should own everything
        for id in order {
            for shard in 0..2 {
                let _ = claim_or_release_to(&mut state, id, shard, 0);
            }
        }
        // a fresh view: shard s belongs to worker s
        let mut mine = [false; 2];
        while !(mine[0] && mine[1]) {
            for id in order {
                mine[id] = claim_or_release_to(&mut state, id, id, id);
                let _ = claim_or_release_to(&mut state, id, 1 - id, 1 - id);
            }
        }
        for s in 0..2 {
            assert_eq!(state.owner(s), s, "shard {s} not owned by its desired worker");
        }
    }
}

#[test]
fn snapshot_rows_cover_desired_targets() {
    let mut state = State::new(2, 1);
    state.set_desired(1, 7);
    let s = snapshot(&state);
    assert!(
        s.shards[1].desired < s.workers.len(),
        "desired {} must be indexable into workers ({})",
        s.shards[1].desired,
        s.workers.len()
    );
}

#[test]
fn snapshot_keeps_rows_for_workers_beyond_active() {
    let mut state = State::new(2, 2);
    state.set_owner(1, 1);
    state.set_active(1);
    let s = snapshot(&state);
    assert_eq!(s.active, 1);
    assert_eq!(s.workers.len(), 2, "peak workers must keep their rows");
    let owner = s.shards[1].owner.expect("shard 1 has an owner");
    assert!(
        owner < s.workers.len(),
        "owner {owner} must be indexable into workers ({})",
        s.workers.len()
    );
    assert_eq!(owner, 1);
}

#[test]
fn spawn_failures_reach_the_snapshot() {
    let mut state = State::new(1, 1);
    assert_eq!(snapshot(&state).spawn_failures, 0);
    state.note_spawn_failure();
    state.note_spawn_failure();
    assert_eq!(snapshot(&state).spawn_failures, 2);
}

#[test]
fn azero_shards_is_rejected_loudly() {
    let err = sync_pool_slot::<u64>(Config::new(1, 1), 0).err();
    assert!(err.is_some(), "UB");
    assert_eq!(err, Some(PoolError::ReceiverEmpty), "wrong error");
    assert_eq!(async_pool_slot::<u64>(Config::new(1, 1), 0).err(), Some(PoolError::ReceiverEmpty));
}

#[test]
fn worker_count_is_capped_by_shard_count() {
    let (cfg, pool) = sync_pool_slot::<u64>(Config::new(usize::MAX, usize::MAX), 2).unwrap();
    assert_eq!((cfg.min_consumers, cfg.max_consumers), (2, 2));
    assert!(pool.active() <= 2, "workers must never exceed the shard count");
}

#[test]
fn relief_needs_a_spare_worker() {
    let cfg = Config::new(1, 4).stall_takeover(20);
    assert_eq!(
        cfg.plan(1),
        Err(PoolError::Config(ConfigError::StallTakeoverNeedsSpareWorker { effective_max: 1 }))
    );
    assert_eq!(cfg.plan(2).unwrap().max_consumers, 2);
}

#[test]
fn broken_config_fields_are_repaired() {
    let mut cfg = Config::new(1, 2).batch_size(0);
    cfg.min_consumers = 10;
    let plan = cfg.plan(6).unwrap();
    assert_eq!(plan.batch_size, 1);
    assert_eq!((plan.min_consumers, plan.max_consumers), (6, 6));
    let (mut tx, _rx, mut lanes) = round_robin::<u64, 128, u64>(6);
    for i in 0..600u64 {
        tx.try_send(&mut lanes, i).unwrap();
    }
    tx.close(&mut lanes);
    let mut state = State::new(lanes.len(), plan.min_consumers);
    let mut workers: Vec<WorkerLoop> = (0..plan.min_consumers).map(WorkerLoop::new).collect();
    let mut count = 0u64;
    while !state.is_stopped() {
        for w in workers.iter_mut() {
            if let WorkerStep::Read(s) = w.next(&mut state) {
                let mut buf = Vec::new();
                let (n, dc) = try_recv_batch(&mut lanes[s], &mut buf, plan.batch_size);
                w.begin_batch(&mut state, s, n);
                for v in buf {
                    w.begin_item(&mut state);
                    count += 1;
                    assert!(matches!(settle_item(&mut state, false, Some(v)), ItemEnd::Done(_)));
                    w.end_item(&mut state, false);
                }
                w.end_batch(&mut state, s, n, dc);
            }
        }
    }
    assert_eq!(count, 600, "loss on a repaired config");
    assert_eq!(state.processed(), 600);
}

/// A pool whose stop flag is set lets its workers leave at the start of their next pass.
#[test]
fn sync_stop_and_wait() {
    let (mut tx, _rx, mut lanes) = round_robin::<u64, 256, u64>(2);
    let mut pool: SyncPool<u64> = SyncPool::new(State::new(2, 1));
    let mut w = WorkerLoop::new(0);
    for i in 0..100 {
        tx.try_send(&mut lanes, i).unwrap();
    }
    let mut done = 0;
    for _ in 0..2 {
        if let WorkerStep::Read(s) = w.next(pool.state()) {
            let mut buf = Vec::new();
            let (n, dc) = try_recv_batch(&mut lanes[s], &mut buf, 16);
            w.begin_batch(pool.state(), s, n);
            done += n;
            w.end_batch(pool.state(), s, n, dc);
        }
    }
    pool.get_signal_stop().stop(pool.state());
    assert!(pool.is_stopped());
    // the pass that has begun is finished first
    assert_eq!(w.next(pool.state()), WorkerStep::Again);
    assert_eq!(w.next(pool.state()), WorkerStep::Stop);
    assert_eq!(done, 32);
    assert!(pool.take_workers().is_empty());
}

/// Every second item's handler panics before it takes the item.
#[test]
fn sync_panic_in_handle_is_caught_and_dead_lettered() {
    const N: u64 = 20;
    let mut state = State::new(1, 1);
    let mut dead = 0;
    for i in 1..=N {
        let panicked = i % 2 == 0;
        let slot = if panicked { Some(i) } else { None };
        if let ItemEnd::DeadLetter(v) = settle_item(&mut state, panicked, slot) {
            assert_eq!(v, i);
            dead += 1;
        }
    }
    assert_eq!(state.handler_panics(), N / 2, "panics were not counted");
    assert_eq!(dead, N / 2, "items lost instead of dead-lettered");
    assert_eq!(state.processed(), N / 2, "odd items were stranded");
    assert!(matches!(settle_item::<u64>(&mut state, true, None), ItemEnd::Taken));
    assert_eq!(state.handler_panics(), N / 2 + 1);
    // the dead letters panicked as well: counted too
    WorkerLoop::new(0).end_item(&mut state, true);
    assert_eq!(state.handler_panics(), N / 2 + 2);
}

#[test]
fn cancelled_worker_hands_the_item_back() {
    let mut held = CommitGuard::new(42u64);
    assert_eq!(*held.slot(), Some(42));
    // the worker goes away while its handler waits
    let reason: PanicReason<u64> = PanicReason::cancelled();
    assert_eq!(held.abandon(), Some(42), "the inflight item was lost on cancellation");
    assert!(reason.is_cancelled(), "reason should say cancelled, not panic");
}

#[test]
fn cancelled_worker_hands_back_the_whole_batch() {
    const N: u64 = 8;
    let mut buf: Vec<u64> = (0..N).collect();
    let mut batch = CommitBatchGuard::new(&mut buf);
    assert!(buf.is_empty());
    let held = CommitGuard::new(batch.next().unwrap());
    let mut got = Vec::new();
    if let Some(v) = held.abandon() {
        got.push(v);
    }
    let rest: Vec<(u64, PanicReason<u64>)> = batch.abandon();
    for (v, reason) in rest {
        assert!(reason.is_cancelled(), "reason should say cancelled, not panic");
        got.push(v);
    }
    assert_eq!(got, (0..N).collect::<Vec<_>>(), "batch handed back out of order");
}

#[test]
fn finished_item_is_not_handed_back() {
    let mut held = CommitGuard::new(1u64);
    assert_eq!(held.slot().take(), Some(1));
    assert_eq!(held.disarm(), None);
    assert_eq!(held.abandon(), None);
    let mut kept = CommitGuard::new(2u64);
    assert_eq!(kept.disarm(), Some(2));
    assert_eq!(kept.abandon(), None);
}

#[test]
fn owner_guard_releases_all_shards() {
    let mut state = State::new(3, 1);
    let guard = OwnerGuard::new(0);
    for shard in 0..2 {
        assert!(claim_or_release_to(&mut state, 0, shard, 0));
    }
    state.set_owner(2, 1);
    guard.release(&mut state);
    for shard in 0..2 {
        assert_eq!(state.owner(shard), NONE);
        assert!(claim_or_release_to(&mut state, 1, shard, 1), "survivor cannot claim {shard}");
    }
    assert_eq!(state.owner(2), 1);
}

#[test]
fn workers_claim_what_they_should_own() {
    let mut state = State::new(4, 2);
    assert_eq!(desired_vec(&state), vec![0, 1, 0, 1]);
    assert_eq!(desired_owner(5, 0), 0);
    assert_eq!(desired_owner(5, 3), 2);
    let mut w = WorkerLoop::new(1);
    assert_eq!(w.next(&mut state), WorkerStep::Read(1));
    assert_eq!(w.next(&mut state), WorkerStep::Read(3));
    assert_eq!(w.next(&mut state), WorkerStep::Idle(IdlePhase::Spin));
    // shard 3 is wanted elsewhere now
    state.set_desired(3, 0);
    assert_eq!(w.next(&mut state), WorkerStep::Read(1));
    assert_eq!(w.next(&mut state), WorkerStep::Idle(IdlePhase::Spin));
    assert_eq!(state.owner(3), NONE);
    assert!(claim_or_release(&mut state, 0, 3));
    // the worker is not wanted any more
    state.set_active(1);
    assert_eq!(w.next(&mut state), WorkerStep::Read(1));
    assert_eq!(w.next(&mut state), WorkerStep::Tick);
}

#[test]
fn pool_stops_with_the_last_shard() {
    let mut state = State::new(2, 1);
    state.mark_closed(0);
    state.mark_closed(0);
    assert!(!state.is_stopped());
    state.mark_closed(1);
    assert!(state.is_stopped());
    let mut w = WorkerLoop::new(0);
    assert_eq!(w.next(&mut state), WorkerStep::Stop);
}

#[test]
fn workers_wait_with_growing_patience() {
    assert_eq!(idle_phase(0), IdlePhase::Spin);
    assert_eq!(idle_phase(127), IdlePhase::Spin);
    assert_eq!(idle_phase(128), IdlePhase::Yield);
    assert_eq!(idle_phase(255), IdlePhase::Yield);
    assert_eq!(idle_phase(256), IdlePhase::Sleep);
    assert_eq!(idle_phase(u32::MAX), IdlePhase::Sleep);
}

#[test]
fn monitor_starts_workers_up_to_what_is_wanted() {
    let mut state = State::new(4, 1);
    let mut s = Spawner::new(1);
    assert_eq!(s.due(&state, 4), None);
    state.set_active(3);
    assert_eq!(s.due(&state, 4), Some(1));
    s.started();
    assert_eq!(s.due(&state, 2), None);
    assert_eq!(s.due(&state, 4), Some(2));
    state.set_active(1);
    assert_eq!(s.due(&state, 4), None);
    state.set_active(4);
    state.stop();
    assert_eq!(s.due(&state, 4), None);
}

/// The monitor sleeps, looks, starts who is wanted, and begins again.
#[test]
fn monitor_goes_round() {
    let mut state = State::new(4, 1);
    let mut m = MonitorLoop::new(25, 10, 1);
    assert_eq!(m.next(&state, 4), MonitorStep::Sleep(10));
    assert_eq!(m.next(&state, 4), MonitorStep::Sleep(10));
    assert_eq!(m.next(&state, 4), MonitorStep::Sleep(5));
    assert_eq!(m.next(&state, 4), MonitorStep::Look);
    state.set_active(3);
    assert_eq!(m.next(&state, 4), MonitorStep::Spawn(1));
    m.started(&mut state, true);
    assert_eq!(m.next(&state, 4), MonitorStep::Spawn(2));
    // the system refuses: that is counted, and tried again after the next look
    m.started(&mut state, false);
    assert_eq!(state.spawn_failures(), 1);
    assert_eq!(m.started_workers(), 2);
    for d in [10, 10, 5] {
        assert_eq!(m.next(&state, 4), MonitorStep::Sleep(d));
    }
    assert_eq!(m.next(&state, 4), MonitorStep::Look);
    assert_eq!(m.next(&state, 4), MonitorStep::Spawn(2));
    m.started(&mut state, true);
    assert_eq!(m.next(&state, 4), MonitorStep::Sleep(10));
    state.stop();
    assert_eq!(m.next(&state, 4), MonitorStep::Stop);
}

#[test]
fn monitor_sleeps_in_pieces() {
    assert_eq!(sleep_step(0, 25, 10, false), SleepStep::Sleep(10));
    assert_eq!(sleep_step(20, 25, 10, false), SleepStep::Sleep(5));
    assert_eq!(sleep_step(25, 25, 10, false), SleepStep::Over);
    assert_eq!(sleep_step(0, 25, 10, true), SleepStep::Stopped);
}

#[test]
fn scaling_goes_up_at_once_and_down_by_one() {
    let cfg = Config::new(2, 8);
    assert_eq!(cfg.decide(3, FillSignal::High { target: 7 }), 7);
    assert_eq!(cfg.decide(3, FillSignal::High { target: 2 }), 3);
    assert_eq!(cfg.decide(3, FillSignal::High { target: 20 }), 8);
    assert_eq!(cfg.decide(5, FillSignal::Low), 4);
    assert_eq!(cfg.decide(2, FillSignal::Low), 2);
    assert_eq!(cfg.decide(5, FillSignal::Steady), 5);
}

#[test]
fn plain_placement_without_isolation() {
    let cfg = Config::new(1, 4).hotspot_isolation(false);
    let mut state = State::new(4, 1);
    monitor(&cfg, &mut state, &[9, 0, 0, 0], FillSignal::High { target: 3 }, 1, 0);
    assert_eq!(state.active(), 3);
    assert_eq!(desired_vec(&state), vec![0, 1, 2, 0]);
}

#[test]
fn loads_are_queue_depths() {
    let (mut tx, _rx, mut lanes) = round_robin::<u64, 4, u64>(2);
    for i in 0..3 {
        tx.try_send(&mut lanes, i).unwrap();
    }
    assert_eq!(shard_loads(&lanes), vec![2, 1]);
}

#[test]
fn handler_only_looks() {
    let seen = std::cell::RefCell::new(Vec::new());
    let h = PerItem(|v: &u64| seen.borrow_mut().push(*v));
    let mut slot = Some(5u64);
    h.handle(&mut slot);
    assert_eq!(slot, Some(5));
    let mut empty: Option<u64> = None;
    h.handle(&mut empty);
    assert_eq!(empty, None);
    assert_eq!(*seen.borrow(), vec![5]);
}

#[test]
fn pools_report_their_state() {
    let mut pool: AsyncPool<&str> = AsyncPool::new(State::new(2, 2));
    pool.add_worker("a");
    pool.add_worker("b");
    assert_eq!(pool.worker_handles(), 2);
    assert_eq!((pool.active(), pool.max_active(), pool.shards()), (2, 2, 2));
    pool.state().set_depth(1, 10);
    assert_eq!(pool.shard_queued(1), Some(10));
    assert_eq!(pool.shard_queued(2), None);
    assert_eq!(pool.depths(), Some(vec![0, 10]));
    let _ = pool.state().processed_add(3);
    let _ = pool.state().note_handler_panic();
    assert_eq!((pool.processed(), pool.handler_panics(), pool.takeovers()), (3, 1, 0));
    let stats = pool.stats();
    assert_eq!((stats.processed, stats.handler_panics, stats.stopped), (3, 1, false));
    assert_eq!(stats.shards[1].queued, 10);
    assert_eq!(pool.take_workers(), vec!["a", "b"]);
    let state = pool.stop_and_detach();
    assert!(state.is_stopped());
    assert_eq!(worker_id(NONE), None);
    assert_eq!(worker_id(3), Some(3));
}

#[test]
fn stop_signal_outlives_the_pool() {
    let mut state = State::new(1, 1);
    let stop = Stop::new();
    stop.stop(&mut state);
    assert!(state.is_stopped());
}

#[test]
fn yield_gives_way_once() {
    let mut y = YieldNow::new();
    assert!(!y.poll());
    assert!(y.poll());
}

#[test]
fn rows_follow_the_workers() {
    let mut state = State::new(1, 1);
    let mut w = WorkerLoop::new(3);
    w.begin_batch(&mut state, 0, 2);
    w.begin_item(&mut state);
    assert!(state.worker_busy(3));
    assert!(!state.worker_stalled(3));
    assert_eq!(state.current_shard_of(3), 0);
    w.end_item(&mut state, false);
    assert_eq!(state.beat_of(3), 1);
    assert!(!state.worker_busy(3));
    w.end_batch(&mut state, 0, 2, false);
    assert_eq!(state.current_shard_of(3), NONE);
    assert_eq!(state.beat_of(9), 0);
}

/// Worker 0 owns everything and is inside user code with an item of shard 0.
fn stuck_on_shard_0(shards: usize) -> (State, WorkerLoop) {
    let mut state = State::new(shards, 1);
    let mut w = WorkerLoop::new(0);
    for s in 0..shards {
        assert!(claim_or_release(&mut state, 0, s));
    }
    w.begin_batch(&mut state, 0, 1);
    w.begin_item(&mut state);
    (state, w)
}

/// With a limit of 20 ms and a look every millisecond, the twentieth look in a row marks
/// the worker. Its shards go to another worker, but for the one that it holds items of.
#[test]
fn stall_takeover_rescues_shards_from_a_stuck_owner() {
    let cfg = Config::new(1, 4).batch_size(1).stall_takeover(20).plan(4).unwrap();
    let (mut state, _w) = stuck_on_shard_0(4);
    let mut watch = StallWatch::new(cfg.max_consumers);
    let loads = [5usize, 50, 50, 50];
    for _ in 0..19 {
        assert_eq!(stall_takeover_pass(&cfg, &mut state, &loads, &mut watch, 1, 1), 0);
        assert!(!state.worker_stalled(0));
    }
    assert_eq!(stall_takeover_pass(&cfg, &mut state, &loads, &mut watch, 1, 1), 3);
    assert!(state.worker_stalled(0));
    assert_eq!(state.takeovers(), 3);
    assert_eq!(state.owner(0), 0, "the frozen shard stays");
    assert_eq!((1..4).map(|s| state.owner(s)).collect::<Vec<_>>(), vec![NONE; 3]);
    assert_eq!(state.active(), 2, "a second worker is wanted");
    let mut spare = WorkerLoop::new(1);
    for s in 1..4 {
        assert_eq!(spare.next(&mut state), WorkerStep::Read(s));
    }
    // the next look finds nothing more to do
    assert_eq!(stall_takeover_pass(&cfg, &mut state, &loads, &mut watch, 2, 1), 0);
    assert_eq!(state.owner(0), 0);
}

#[test]
fn no_takeover_by_default_strict_ownership_holds() {
    let cfg = Config::new(1, 4).plan(4).unwrap();
    let (mut state, _w) = stuck_on_shard_0(4);
    let mut watch = StallWatch::new(cfg.max_consumers);
    for _ in 0..300 {
        assert_eq!(stall_takeover_pass(&cfg, &mut state, &[1; 4], &mut watch, 1, 1), 0);
    }
    assert!(!state.worker_stalled(0));
    assert_eq!((0..4).map(|s| state.owner(s)).collect::<Vec<_>>(), vec![0; 4]);
}

#[test]
fn idle_workers_are_never_marked_stalled() {
    let cfg = Config::new(4, 4).stall_takeover(20).plan(4).unwrap();
    let mut state = State::new(4, 4);
    let mut watch = StallWatch::new(4);
    let mut w = WorkerLoop::new(0);
    for _ in 0..400 {
        // worker 0 completes an item now and then, the others wait
        w.begin_item(&mut state);
        w.end_item(&mut state, false);
        assert_eq!(stall_takeover_pass(&cfg, &mut state, &[0; 4], &mut watch, 4, 1), 0);
    }
    for id in 0..4 {
        assert!(!state.worker_stalled(id));
    }
}

/// The shard that the stuck worker holds an item of is empty, so it may be taken too, and
/// found closed by another worker.
#[test]
fn autodrain_completes_despite_a_stuck_worker() {
    let cfg = Config::new(1, 2).stall_takeover(20).plan(2).unwrap();
    let (mut tx, _rx, mut lanes) = round_robin::<u64, 64, u64>(2);
    let (mut state, _stuck) = stuck_on_shard_0(2);
    let mut watch = StallWatch::new(cfg.max_consumers);
    for i in 1..=20u64 {
        let _ = tx.next_shard();
        tx.try_send(&mut lanes, i).unwrap();
    }
    tx.close(&mut lanes);
    let mut spare = WorkerLoop::new(1);
    let mut got = 0;
    for _ in 0..100 {
        let loads = shard_loads(&lanes);
        stall_takeover_pass(&cfg, &mut state, &loads, &mut watch, 2, 1);
        if let WorkerStep::Read(s) = spare.next(&mut state) {
            let mut buf = Vec::new();
            let (n, dc) = try_recv_batch(&mut lanes[s], &mut buf, cfg.batch_size);
            spare.begin_batch(&mut state, s, n);
            got += n;
            spare.end_batch(&mut state, s, n, dc);
        }
    }
    assert!(state.is_stopped(), "the stuck owner's empty shard was not closed");
    assert_eq!(got, 20);
}

/// A worker that gets going again is no longer marked.
#[test]
fn recovered_worker_is_unmarked() {
    let cfg = Config::new(1, 4).stall_takeover(0).plan(4).unwrap();
    let (mut state, w) = stuck_on_shard_0(4);
    let mut watch = StallWatch::new(cfg.max_consumers);
    stall_takeover_pass(&cfg, &mut state, &[1, 0, 0, 0], &mut watch, 1, 10);
    assert!(state.worker_stalled(0));
    w.end_item(&mut state, false);
    stall_takeover_pass(&cfg, &mut state, &[1, 0, 0, 0], &mut watch, 1, 10);
    assert!(!state.worker_stalled(0));
}

#[test]
fn stall_limits_in_looks() {
    assert_eq!(stall_looks(20, 1), 20);
    assert_eq!(stall_looks(20, 3), 7);
    assert_eq!(stall_looks(0, 5), 1);
    assert_eq!(stall_looks(7, 0), 7);
    assert_eq!(stall_looks(u64::MAX, 1), u32::MAX);
}

/// Fewer loads than shards: the shards without one stay where they are.
#[test]
fn shards_without_a_load_stay() {
    let mut state = State::new(4, 2);
    state.set_desired(3, 9);
    rebalance(&mut state, &[100, 0], 2, 0);
    assert_eq!(desired_vec(&state), vec![0, 1, 0, 9]);
    let cfg = Config::new(1, 4).hotspot_isolation(false);
    monitor(&cfg, &mut state, &[0, 0], FillSignal::Steady, 0, 0);
    assert_eq!(desired_vec(&state), vec![0, 1, 0, 9]);
}

#[test]
fn wide_margin_moves_nothing() {
    let mut state = State::new(4, 3);
    for (s, w) in [2, 2, 2, 0].into_iter().enumerate() {
        state.set_desired(s, w);
    }
    rebalance(&mut state, &[5, 6, 7, 1], 3, 19);
    assert_eq!(desired_vec(&state), vec![2, 2, 2, 0]);
    rebalance(&mut state, &[5, 6, 7, 1], 3, 0);
    assert_ne!(desired_vec(&state), vec![2, 2, 2, 0]);
}

/// Only going up needs the number of workers to be within the limit.
#[test]
fn too_many_workers_shrink_one_by_one() {
    let cfg = Config::new(1, 4);
    assert_eq!(cfg.decide(9, FillSignal::Low), 8);
    assert_eq!(cfg.decide(9, FillSignal::Steady), 9);
}

/// Items that are handled, that panic in the handler and that panic after they were taken:
/// when the pool has stopped, each is in one place.
#[test]
fn every_item_has_one_fate() {
    let (mut tx, _rx, mut lanes) = round_robin::<u64, 16, u64>(3);
    let mut sent: Vec<u64> = Vec::new();
    for i in 0..30u64 {
        tx.try_send(&mut lanes, i).unwrap();
        sent.push(i);
    }
    tx.close(&mut lanes);
    assert_eq!(lanes.len(), 4);
    let mut state = State::new(lanes.len(), 2);
    let mut workers: Vec<WorkerLoop> = (0..2).map(WorkerLoop::new).collect();
    let mut done: Vec<u64> = Vec::new();
    let mut dead: Vec<u64> = Vec::new();
    let mut taken: Vec<u64> = Vec::new();
    while !state.is_stopped() {
        for w in workers.iter_mut() {
            if let WorkerStep::Read(s) = w.next(&mut state) {
                let mut buf = Vec::new();
                let (n, dc) = try_recv_batch(&mut lanes[s], &mut buf, 4);
                w.begin_batch(&mut state, s, n);
                for v in buf {
                    w.begin_item(&mut state);
                    let slot = if v % 5 == 0 { None } else { Some(v) };
                    match settle_item(&mut state, v % 5 == 0 || v % 5 == 1, slot) {
                        ItemEnd::Done(_) => done.push(v),
                        ItemEnd::DeadLetter(x) => dead.push(x),
                        ItemEnd::Taken => taken.push(v),
                    }
                    w.end_item(&mut state, v % 10 == 1);
                }
                w.end_batch(&mut state, s, n, dc);
            }
        }
    }
    assert_eq!((done.len(), dead.len(), taken.len()), (18, 6, 6));
    assert_eq!(state.processed(), 18);
    assert_eq!(state.handler_panics(), 15);
    let mut all: Vec<u64> = Vec::new();
    all.extend(done);
    all.extend(dead);
    all.extend(taken);
    all.sort();
    assert_eq!(all, sent);
}

/// Without isolation the loads are not added up to place the shards, however large they are.
#[test]
fn plain_placement_takes_any_load() {
    let cfg = Config::new(1, 4).hotspot_isolation(false);
    let mut state = State::new(4, 2);
    let loads = [usize::MAX; 4];
    monitor(&cfg, &mut state, &loads, FillSignal::High { target: 3 }, 4, usize::MAX);
    assert_eq!(state.active(), 3);
    assert_eq!(desired_vec(&state), vec![0, 1, 2, 0]);
}
