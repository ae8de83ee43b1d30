use std::collections::VecDeque;

use dashboard::globals::{add_to_deque, get_recent_from_deque, MAX_HISTORY};

#[test]
fn add_to_deque_drops_oldest_when_full() {
    let mut deque: VecDeque<u64> = VecDeque::new();
    for i in 0..(MAX_HISTORY as u64 + 5) {
        add_to_deque(&mut deque, i);
    }
    assert_eq!(deque.len(), MAX_HISTORY);
    assert_eq!(deque.front(), Some(&5));
    assert_eq!(deque.back(), Some(&(MAX_HISTORY as u64 + 4)));
}

#[test]
fn get_recent_from_deque_is_newest_first() {
    let deque: VecDeque<u64> = (1..=10).collect();
    assert_eq!(get_recent_from_deque(&deque, 3), vec![10, 9, 8]);
    assert_eq!(get_recent_from_deque(&deque, 50).len(), 10);
    assert_eq!(get_recent_from_deque(&deque, 0), Vec::<u64>::new());
}

use dashboard::history::{merge_history, retain_outside};
use dashboard::models::{MemoryAllocation, RouteCall, SystemSnapshot};

fn snapshot(timestamp: u64, memory_usage: u64) -> SystemSnapshot {
    SystemSnapshot {
        timestamp,
        cpu_usage_bits: 0,
        memory_usage,
        process_cpu_usage_bits: 0,
        process_memory_usage: 0,
        allocations: 0,
        deallocations: 0,
        current_memory: 0,
        peak_memory: 0,
    }
}

fn call(timestamp: u64, method: &str, path: &str, duration: u64) -> RouteCall {
    RouteCall {
        path: path.to_string(),
        method: method.to_string(),
        timestamp,
        duration_ms: Some(duration),
        status_code: Some(200),
        memory_delta_bytes: Some(0),
    }
}

fn event(timestamp: u64, size: usize) -> MemoryAllocation {
    MemoryAllocation {
        size,
        timestamp,
        stack_trace: None,
        allocation_type: "periodic_update".to_string(),
    }
}

#[test]
fn merge_history_orders_by_timestamp_and_keeps_first_of_a_second() {
    let loaded: VecDeque<SystemSnapshot> = vec![snapshot(5, 1), snapshot(1, 2), snapshot(3, 3)].into();
    let current: VecDeque<SystemSnapshot> = vec![snapshot(3, 4), snapshot(2, 5), snapshot(6, 6)].into();
    let merged = merge_history(loaded, current);
    let stamps: Vec<u64> = merged.iter().map(|s| s.timestamp).collect();
    assert_eq!(stamps, vec![1, 2, 3, 5, 6]);
    // the loaded snapshot of second 3 comes first and is the one kept
    assert_eq!(merged[2].memory_usage, 3);
}

#[test]
fn merge_history_keeps_newest_entries() {
    let loaded: VecDeque<MemoryAllocation> = (0..800u64).map(|t| event(t, 1)).collect();
    let current: VecDeque<MemoryAllocation> = (600..1400u64).map(|t| event(t, 2)).collect();
    let merged = merge_history(loaded, current);
    assert_eq!(merged.len(), MAX_HISTORY);
    assert_eq!(merged.front().unwrap().timestamp, 400);
    assert_eq!(merged.back().unwrap().timestamp, 1399);
    // second 700 was in both: the loaded event is kept
    assert_eq!(merged[300].timestamp, 700);
    assert_eq!(merged[300].size, 1);
}

#[test]
fn merge_history_drops_only_adjacent_repeated_calls() {
    let loaded: VecDeque<RouteCall> = vec![
        call(10, "GET", "/a", 1),
        call(10, "GET", "/b", 2),
        call(10, "GET", "/a", 3),
        call(10, "GET", "/a", 4),
    ]
    .into();
    let merged = merge_history(loaded, VecDeque::new());
    let durations: Vec<Option<u64>> = merged.iter().map(|c| c.duration_ms).collect();
    assert_eq!(durations, vec![Some(1), Some(2), Some(3)]);
}

#[test]
fn merge_into_empty_history_gives_it_back() {
    let loaded: VecDeque<RouteCall> =
        vec![call(1, "GET", "/a", 1), call(1, "POST", "/a", 2), call(4, "GET", "/a", 3)].into();
    let copy = loaded.clone();
    assert_eq!(merge_history(loaded, VecDeque::new()), copy);
}

#[test]
fn retain_outside_drops_the_time_range() {
    let entries: VecDeque<SystemSnapshot> = (0..10u64).map(|t| snapshot(t, t)).collect();
    let kept = retain_outside(entries, 3, 7);
    let stamps: Vec<u64> = kept.iter().map(|s| s.timestamp).collect();
    assert_eq!(stamps, vec![0, 1, 2, 7, 8, 9]);
}

#[test]
fn retain_outside_with_empty_range_keeps_everything() {
    let entries: VecDeque<SystemSnapshot> = (0..5u64).map(|t| snapshot(t, t)).collect();
    let kept = retain_outside(entries.clone(), 4, 4);
    assert_eq!(kept, entries);
}

fn pseudo_random(seed: &mut u64) -> u64 {
    *seed = seed.wrapping_mul(6364136223846793005).wrapping_add(1442695040888963407);
    *seed >> 33
}

#[test]
fn merged_history_is_ordered_bounded_and_free_of_repeats() {
    let mut seed = 42u64;
    let loaded: VecDeque<RouteCall> = (0..900)
        .map(|i| {
            let t = pseudo_random(&mut seed) % 400;
            let path = if pseudo_random(&mut seed) % 2 == 0 { "/a" } else { "/b" };
            call(t, "GET", path, i)
        })
        .collect();
    let current: VecDeque<RouteCall> = (0..700)
        .map(|i| {
            let t = pseudo_random(&mut seed) % 400;
            call(t, "GET", "/a", 10_000 + i)
        })
        .collect();
    let all: Vec<RouteCall> = loaded.iter().chain(current.iter()).cloned().collect();
    let merged = merge_history(loaded, current);
    assert!(merged.len() <= MAX_HISTORY);
    for i in 1..merged.len() {
        assert!(merged[i - 1].timestamp <= merged[i].timestamp);
        let repeat = merged[i].timestamp == merged[i - 1].timestamp
            && merged[i].path == merged[i - 1].path
            && merged[i].method == merged[i - 1].method;
        assert!(!repeat);
    }
    for entry in merged.iter() {
        assert!(all.contains(entry));
    }
    // entries of one timestamp keep their order of arrival
    for i in 1..merged.len() {
        if merged[i].timestamp == merged[i - 1].timestamp {
            let first = all.iter().position(|c| c == &merged[i - 1]).unwrap();
            let second = all.iter().position(|c| c == &merged[i]).unwrap();
            assert!(first < second);
        }
    }
}
