use dashboard::memory_stats::MemoryStats;
use dashboard::tracking_allocator::TrackingAllocator;

#[test]
fn allocator_counts_allocations_and_releases() {
    let mut counters = TrackingAllocator::new();
    counters.record_alloc(100);
    counters.record_alloc(50);
    assert_eq!(counters.allocated_bytes, 150);
    assert_eq!(counters.current_memory_bytes, 150);
    assert_eq!(counters.peak_memory_bytes, 150);
    counters.record_dealloc(120);
    assert_eq!(counters.deallocated_bytes, 120);
    assert_eq!(counters.current_memory_bytes, 30);
    assert_eq!(counters.peak_memory_bytes, 150);
    counters.record_alloc(10);
    assert_eq!(counters.current_memory_bytes, 40);
    assert_eq!(counters.peak_memory_bytes, 150);
}

#[test]
fn allocator_current_memory_never_negative() {
    let mut counters = TrackingAllocator::new();
    counters.record_alloc(10);
    counters.record_dealloc(25);
    assert_eq!(counters.current_memory_bytes, 0);
    assert_eq!(counters.peak_memory_bytes, 10);
}

#[test]
fn allocator_peak_never_decreases() {
    let mut counters = TrackingAllocator::new();
    let mut last_peak = 0;
    for i in 0..50usize {
        if i % 3 == 0 {
            counters.record_dealloc(i * 2);
        } else {
            counters.record_alloc(i);
        }
        assert!(counters.peak_memory_bytes >= last_peak);
        assert!(counters.peak_memory_bytes >= counters.current_memory_bytes);
        assert_eq!(
            counters.current_memory_bytes,
            counters.allocated_bytes.saturating_sub(counters.deallocated_bytes)
        );
        last_peak = counters.peak_memory_bytes;
    }
}

fn stats_with(peak: usize, sizes: Vec<(&str, usize)>) -> MemoryStats {
    let mut stats = MemoryStats::default();
    stats.peak_memory = peak;
    stats.total_allocations = 7;
    stats.allocation_sizes = sizes.into_iter().map(|(c, n)| (c.to_string(), n)).collect();
    stats
}

#[test]
fn memory_stats_merge_takes_larger_peak_and_adds_categories() {
    let mut current = stats_with(100, vec![("small", 3), ("large", 1)]);
    let loaded = stats_with(250, vec![("large", 4), ("medium", 2)]);
    assert!(current.can_merge(&loaded));
    current.merge_loaded(&loaded);
    assert_eq!(current.peak_memory, 250);
    assert_eq!(current.total_allocations, 7);
    assert_eq!(
        current.allocation_sizes,
        vec![
            ("small".to_string(), 3),
            ("large".to_string(), 5),
            ("medium".to_string(), 2)
        ]
    );
}

#[test]
fn memory_stats_merge_keeps_larger_current_peak() {
    let mut current = stats_with(300, vec![]);
    let loaded = stats_with(250, vec![]);
    current.merge_loaded(&loaded);
    assert_eq!(current.peak_memory, 300);
}

#[test]
fn memory_stats_can_merge_detects_overflow() {
    let current = stats_with(0, vec![("x", usize::MAX)]);
    let loaded = stats_with(0, vec![("x", 1)]);
    assert!(!current.can_merge(&loaded));
    let zero = stats_with(0, vec![("x", 0)]);
    assert!(current.can_merge(&zero));
    let other = stats_with(0, vec![("y", 5)]);
    assert!(current.can_merge(&other));
}

#[test]
fn memory_stats_clone_and_default() {
    let stats = stats_with(12, vec![("a", 1)]);
    assert_eq!(stats.clone(), stats);
    let empty = MemoryStats::default();
    assert_eq!(empty.peak_memory, 0);
    assert!(empty.allocation_sizes.is_empty());
}

#[test]
fn allocator_counts_allocations_by_size_category() {
    let mut counters = TrackingAllocator::new();
    counters.record_alloc(1023);
    counters.record_alloc(1024);
    counters.record_alloc(1_048_575);
    counters.record_alloc(1_048_576);
    counters.record_alloc(0);
    assert_eq!(counters.small_allocations, 2);
    assert_eq!(counters.medium_allocations, 2);
    assert_eq!(counters.large_allocations, 1);
    counters.record_dealloc(1_048_576);
    assert_eq!(counters.large_allocations, 1);
}

#[test]
fn can_record_alloc_detects_overflow() {
    let mut counters = TrackingAllocator::new();
    assert!(counters.can_record_alloc(10));
    counters.allocated_bytes = usize::MAX - 5;
    assert!(!counters.can_record_alloc(10));
    assert!(counters.can_record_alloc(5));
    counters.allocated_bytes = 0;
    counters.large_allocations = usize::MAX;
    assert!(!counters.can_record_alloc(2_000_000));
    assert!(counters.can_record_alloc(20));
}

#[test]
fn merging_nothing_leaves_memory_stats_unchanged() {
    let mut current = stats_with(100, vec![("small", 3), ("large", 1)]);
    let copy = current.clone();
    current.merge_loaded(&MemoryStats::default());
    assert_eq!(current, copy);
}

#[test]
fn merge_lists_loaded_categories_with_zero_count() {
    let mut current = stats_with(0, vec![("small", 3)]);
    let loaded = stats_with(0, vec![("huge", 0)]);
    current.merge_loaded(&loaded);
    assert_eq!(
        current.allocation_sizes,
        vec![("small".to_string(), 3), ("huge".to_string(), 0)]
    );
}
