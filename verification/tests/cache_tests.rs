use okayeg::cache::{Decision, RefreshMode, TtlCache};

fn key(s: &str) -> String {
    s.to_string()
}

#[test]
fn repeated_reads_within_ttl_compute_once() {
    let mut cache: TtlCache<i64> = TtlCache::new();
    let k = key("top_users");
    let mut computations = 0;
    for t in 0..50 {
        match cache.begin(&k, 60, RefreshMode::Lazy, t) {
            Decision::Compute => {
                computations += 1;
                cache.complete(&k, 42, t);
            }
            Decision::Hit => {
                assert_eq!(cache.get(&k).copied(), Some(42));
            }
            Decision::Wait => panic!("nothing else computes in a sequential run"),
        }
    }
    assert_eq!(computations, 1, "one computation serves every read inside the TTL");
}

#[test]
fn expiry_under_lazy_mode_recomputes_once() {
    let mut cache: TtlCache<i64> = TtlCache::new();
    let k = key("top_channels");
    assert_eq!(cache.begin(&k, 10, RefreshMode::Lazy, 0), Decision::Compute);
    cache.complete(&k, 1, 0);
    assert_eq!(cache.begin(&k, 10, RefreshMode::Lazy, 9), Decision::Hit);
    // Past the TTL the first reader wins the recomputation...
    assert_eq!(cache.begin(&k, 10, RefreshMode::Lazy, 20), Decision::Compute);
    // ...and every concurrent reader coalesces onto it.
    assert_eq!(cache.begin(&k, 10, RefreshMode::Lazy, 21), Decision::Wait);
    assert_eq!(cache.begin(&k, 10, RefreshMode::Lazy, 22), Decision::Wait);
    // The stale value stays readable while the refresh is in flight.
    assert_eq!(cache.get(&k).copied(), Some(1));
    cache.complete(&k, 2, 22);
    // Everyone now reads the single recomputed result.
    assert_eq!(cache.begin(&k, 10, RefreshMode::Lazy, 23), Decision::Hit);
    assert_eq!(cache.get(&k).copied(), Some(2));
}

#[test]
fn cold_start_readers_wait_for_the_first_value() {
    let mut cache: TtlCache<String> = TtlCache::new();
    let k = key("search:abc");
    assert_eq!(cache.begin(&k, 60, RefreshMode::Lazy, 5), Decision::Compute);
    assert_eq!(cache.begin(&k, 60, RefreshMode::Lazy, 6), Decision::Wait);
    assert!(cache.get(&k).is_none());
    cache.complete(&k, "result".to_string(), 6);
    assert_eq!(cache.get(&k).map(|s| s.as_str()), Some("result"));
}

#[test]
fn failed_first_computation_leaves_no_entry() {
    let mut cache: TtlCache<i64> = TtlCache::new();
    let k = key("stats");
    assert_eq!(cache.begin(&k, 60, RefreshMode::Lazy, 0), Decision::Compute);
    cache.fail(&k);
    assert!(cache.get(&k).is_none());
    // A later reader may try again: errors are never cached.
    assert_eq!(cache.begin(&k, 60, RefreshMode::Lazy, 1), Decision::Compute);
}

#[test]
fn failed_refresh_keeps_the_stale_value() {
    let mut cache: TtlCache<i64> = TtlCache::new();
    let k = key("chart");
    cache.begin(&k, 10, RefreshMode::Lazy, 0);
    cache.complete(&k, 7, 0);
    assert_eq!(cache.begin(&k, 10, RefreshMode::Lazy, 30), Decision::Compute);
    cache.fail(&k);
    assert_eq!(cache.get(&k).copied(), Some(7));
    assert_eq!(cache.begin(&k, 10, RefreshMode::Lazy, 31), Decision::Compute);
}

#[test]
fn proactive_readers_never_miss() {
    let mut cache: TtlCache<i64> = TtlCache::new();
    let k = key("rate_chart");
    // A cold start still computes synchronously once.
    assert_eq!(cache.begin(&k, 10, RefreshMode::Proactive, 0), Decision::Compute);
    cache.complete(&k, 5, 0);
    // Far past the TTL a reader still hits the populated entry.
    assert_eq!(cache.begin(&k, 10, RefreshMode::Proactive, 100), Decision::Hit);
    assert_eq!(cache.get(&k).copied(), Some(5));
    // The schedule, not a reader, starts the recomputation.
    assert!(cache.begin_refresh(&k, 100));
    assert!(!cache.begin_refresh(&k, 100), "a refresh already runs");
    assert_eq!(cache.begin(&k, 10, RefreshMode::Proactive, 101), Decision::Hit);
    cache.complete(&k, 6, 101);
    assert_eq!(cache.get(&k).copied(), Some(6));
    assert!(!cache.begin_refresh(&k, 105), "not due again yet");
}

#[test]
fn distinct_keys_are_independent() {
    let mut cache: TtlCache<i64> = TtlCache::new();
    let a = key("a");
    let b = key("b");
    assert_eq!(cache.begin(&a, 60, RefreshMode::Lazy, 0), Decision::Compute);
    // A second key recomputes concurrently, undisturbed by the first.
    assert_eq!(cache.begin(&b, 60, RefreshMode::Lazy, 0), Decision::Compute);
    cache.complete(&a, 1, 0);
    cache.complete(&b, 2, 0);
    assert_eq!(cache.get(&a).copied(), Some(1));
    assert_eq!(cache.get(&b).copied(), Some(2));
}
