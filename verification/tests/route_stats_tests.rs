use dashboard::route_stats::{RouteStats, SLIDING_WINDOW_SIZE};

#[test]
fn default_route_stats_has_neutral_extremes() {
    let stats = RouteStats::default();
    assert_eq!(stats.total_calls, 0);
    assert_eq!(stats.total_duration_ms, 0);
    assert_eq!(stats.min_duration_ms, u64::MAX);
    assert_eq!(stats.max_duration_ms, 0);
    assert_eq!(stats.min_memory_delta_bytes, isize::MAX);
    assert_eq!(stats.max_memory_delta_bytes, isize::MIN);
    assert!(stats.recent_durations_ms.is_empty());
    assert!(stats.recent_memory_deltas.is_empty());
    assert_eq!(stats.sliding_duration_sum_ms, 0);
    assert_eq!(stats.sliding_memory_delta_sum_bytes, 0);
}

#[test]
fn add_call_updates_every_figure() {
    let mut stats = RouteStats::default();
    stats.add_call(10, 100, true);
    stats.add_call(30, -40, false);
    stats.add_call(20, 10, true);
    assert_eq!(stats.total_calls, 3);
    assert_eq!(stats.total_duration_ms, 60);
    assert_eq!(stats.min_duration_ms, 10);
    assert_eq!(stats.max_duration_ms, 30);
    assert_eq!(stats.success_count, 2);
    assert_eq!(stats.error_count, 1);
    assert_eq!(stats.total_memory_delta_bytes, 70);
    assert_eq!(stats.min_memory_delta_bytes, -40);
    assert_eq!(stats.max_memory_delta_bytes, 100);
    assert_eq!(stats.recent_durations_ms, vec![10, 30, 20]);
    assert_eq!(stats.recent_memory_deltas, vec![100, -40, 10]);
    assert_eq!(stats.sliding_duration_sum_ms, 60);
    assert_eq!(stats.sliding_memory_delta_sum_bytes, 70);
}

#[test]
fn sliding_window_keeps_last_fifty_calls() {
    let mut stats = RouteStats::default();
    for i in 1..=60u64 {
        stats.add_call(i, -(i as isize), true);
    }
    assert_eq!(stats.recent_durations_ms.len(), SLIDING_WINDOW_SIZE);
    assert_eq!(stats.recent_durations_ms.front(), Some(&11));
    assert_eq!(stats.recent_durations_ms.back(), Some(&60));
    // 11 + 12 + ... + 60
    assert_eq!(stats.sliding_duration_sum_ms, 1775);
    assert_eq!(stats.sliding_memory_delta_sum_bytes, -1775);
    assert_eq!(stats.total_duration_ms, 1830);
    assert_eq!(stats.total_calls, 60);
}

#[test]
fn sliding_sum_does_not_wrap_with_huge_durations() {
    let mut stats = RouteStats::default();
    stats.add_call(u64::MAX, isize::MAX, true);
    stats.add_call(u64::MAX, 0, true);
    assert_eq!(stats.sliding_duration_sum_ms, 2 * (u64::MAX as u128));
    assert_eq!(stats.total_duration_ms, 2 * (u64::MAX as u128));
}

#[test]
fn can_add_call_detects_memory_overflow() {
    let mut stats = RouteStats::default();
    stats.add_call(1, isize::MAX, true);
    assert!(!stats.can_add_call(1, 1, true));
    assert!(stats.can_add_call(1, -1, true));
    stats.total_calls = usize::MAX;
    assert!(!stats.can_add_call(1, -1, true));
}

#[test]
fn update_sliding_averages_recomputes_sums() {
    let mut stats = RouteStats::default();
    stats.recent_durations_ms.extend([5u64, 7, 9]);
    stats.recent_memory_deltas.extend([-3isize, 1]);
    stats.update_sliding_averages();
    assert_eq!(stats.sliding_duration_sum_ms, 21);
    assert_eq!(stats.sliding_memory_delta_sum_bytes, -2);
}

#[test]
fn merge_loaded_adds_counts_and_keeps_extremes() {
    let mut current = RouteStats::default();
    current.add_call(10, 5, true);
    let mut loaded = RouteStats::default();
    loaded.add_call(4, -8, false);
    loaded.add_call(40, 2, true);
    assert!(current.can_merge(&loaded));
    current.merge_loaded(loaded);
    assert_eq!(current.total_calls, 3);
    assert_eq!(current.total_duration_ms, 54);
    assert_eq!(current.success_count, 2);
    assert_eq!(current.error_count, 1);
    assert_eq!(current.total_memory_delta_bytes, -1);
    assert_eq!(current.min_duration_ms, 4);
    assert_eq!(current.max_duration_ms, 40);
    assert_eq!(current.min_memory_delta_bytes, -8);
    assert_eq!(current.max_memory_delta_bytes, 5);
    // the current window was not empty, so it stays
    assert_eq!(current.recent_durations_ms, vec![10]);
    assert_eq!(current.sliding_duration_sum_ms, 10);
}

#[test]
fn merge_into_empty_stats_gives_loaded_back() {
    let mut loaded = RouteStats::default();
    loaded.add_call(4, -8, false);
    loaded.add_call(40, 2, true);
    let copy = loaded.clone();
    let mut empty = RouteStats::default();
    empty.merge_loaded(loaded);
    assert_eq!(empty, copy);
}

#[test]
fn can_merge_detects_overflow() {
    let mut current = RouteStats::default();
    current.total_calls = usize::MAX;
    let mut loaded = RouteStats::default();
    loaded.total_calls = 1;
    assert!(!current.can_merge(&loaded));
    loaded.total_calls = 0;
    assert!(current.can_merge(&loaded));
}

#[test]
fn consistency_is_kept_by_add_call() {
    let mut stats = RouteStats::default();
    for i in 0..120u64 {
        stats.add_call(i % 7, (i as isize) - 60, i % 3 != 0);
        assert_eq!(stats.success_count + stats.error_count, stats.total_calls);
        assert!(stats.recent_durations_ms.len() <= SLIDING_WINDOW_SIZE);
        assert!(stats.min_duration_ms <= stats.max_duration_ms);
        assert!(stats.min_memory_delta_bytes <= stats.max_memory_delta_bytes);
        let window_sum: u128 = stats.recent_durations_ms.iter().map(|d| *d as u128).sum();
        assert_eq!(stats.sliding_duration_sum_ms, window_sum);
    }
}
