use std::collections::VecDeque;
use vstd::prelude::*;

use crate::memory_stats::MemoryStats;
use crate::route_stats::RouteStats;

verus! {

/// One handled request: where it went, when, how long it took and what it
/// did to memory.
#[derive(Debug, PartialEq)]
pub struct RouteCall {
    pub path: String,
    pub method: String,
    pub timestamp: u64,
    pub duration_ms: Option<u64>,
    pub status_code: Option<u16>,
    pub memory_delta_bytes: Option<isize>,
}

impl Clone for RouteCall {
    fn clone(&self) -> (copy: Self)
        ensures
            copy == *self,
    {
        RouteCall {
            path: self.path.clone(),
            method: self.method.clone(),
            timestamp: self.timestamp,
            duration_ms: self.duration_ms,
            status_code: self.status_code,
            memory_delta_bytes: self.memory_delta_bytes,
        }
    }
}

/// A memory event recorded in the history of memory events.
#[derive(Debug, PartialEq)]
pub struct MemoryAllocation {
    pub size: usize,
    pub timestamp: u64,
    pub stack_trace: Option<String>,
    pub allocation_type: String,
}

impl Clone for MemoryAllocation {
    fn clone(&self) -> (copy: Self)
        ensures
            copy == *self,
    {
        let stack_trace = match &self.stack_trace {
            Some(trace) => Some(trace.clone()),
            None => None,
        };
        MemoryAllocation {
            size: self.size,
            timestamp: self.timestamp,
            stack_trace,
            allocation_type: self.allocation_type.clone(),
        }
    }
}

/// A reading of the machine and of the allocator counters at one moment.
///
/// The two CPU loads are 32-bit floating-point numbers in the readings; they
/// are kept here by their bit patterns (`f32::to_bits`), so that a snapshot
/// is carried through histories unchanged.
#[derive(Clone, Copy, Debug, PartialEq, Eq)]
pub struct SystemSnapshot {
    pub timestamp: u64,
    pub cpu_usage_bits: u32,
    pub memory_usage: u64,
    pub process_cpu_usage_bits: u32,
    pub process_memory_usage: u64,
    pub allocations: usize,
    pub deallocations: usize,
    pub current_memory: usize,
    pub peak_memory: usize,
}

/// Everything that is saved to storage and loaded back.
#[derive(Debug, PartialEq)]
pub struct PersistentMetricsData {
    pub system_snapshots: VecDeque<SystemSnapshot>,
    pub route_calls: VecDeque<RouteCall>,
    pub route_stats: Vec<(String, RouteStats)>,
    pub memory_events: VecDeque<MemoryAllocation>,
    pub memory_stats: MemoryStats,
    pub blacklist: Vec<String>,
}

/// What the dashboard is sent at each update: the latest snapshot, the
/// newest route calls and memory events (newest first), the statistics of
/// each route with their sliding sums taken, the memory statistics and the
/// blacklist.
#[derive(Debug, PartialEq)]
pub struct RealtimeMetricsData {
    pub system_snapshot: SystemSnapshot,
    pub recent_route_calls: Vec<RouteCall>,
    pub route_stats: Vec<(String, RouteStats)>,
    pub recent_memory_events: Vec<MemoryAllocation>,
    pub memory_stats: MemoryStats,
    pub blacklist: Vec<String>,
}

} // verus!
