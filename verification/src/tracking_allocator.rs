use vstd::prelude::*;

verus! {

/// Allocations of fewer bytes than this are small.
pub const SMALL_ALLOCATION_LIMIT: usize = 1024;

/// Allocations of at least this many bytes are large; those between the two
/// limits are medium.
pub const LARGE_ALLOCATION_THRESHOLD: usize = 1048576;

/// The byte counters that the tracking allocator keeps: bytes allocated and
/// freed since the start, bytes in use, the most bytes ever in use, and the
/// number of allocations of each size category.
#[derive(Clone, Copy, Debug, PartialEq, Eq)]
pub struct TrackingAllocator {
    pub allocated_bytes: usize,
    pub deallocated_bytes: usize,
    pub current_memory_bytes: usize,
    pub peak_memory_bytes: usize,
    pub small_allocations: usize,
    pub medium_allocations: usize,
    pub large_allocations: usize,
}

/// Whether an allocation of `size` bytes is small.
pub open spec fn is_small(size: usize) -> bool {
    size < SMALL_ALLOCATION_LIMIT
}

/// Whether an allocation of `size` bytes is large.
pub open spec fn is_large(size: usize) -> bool {
    size >= LARGE_ALLOCATION_THRESHOLD
}

/// Bytes in use: allocated minus freed, and never below zero.
pub open spec fn in_use(allocated: usize, deallocated: usize) -> usize {
    if allocated >= deallocated {
        (allocated - deallocated) as usize
    } else {
        0
    }
}

impl TrackingAllocator {
    /// Whether the counters agree: the bytes in use are the bytes allocated
    /// minus those freed, and the peak is at least the bytes in use.
    pub open spec fn consistent(&self) -> bool {
        &&& self.current_memory_bytes == in_use(self.allocated_bytes, self.deallocated_bytes)
        &&& self.current_memory_bytes <= self.peak_memory_bytes
    }

    /// Counters before any allocation.
    pub fn new() -> (counters: Self)
        ensures
            counters.allocated_bytes == 0,
            counters.deallocated_bytes == 0,
            counters.current_memory_bytes == 0,
            counters.peak_memory_bytes == 0,
            counters.small_allocations == 0,
            counters.medium_allocations == 0,
            counters.large_allocations == 0,
    {
        TrackingAllocator {
            allocated_bytes: 0,
            deallocated_bytes: 0,
            current_memory_bytes: 0,
            peak_memory_bytes: 0,
            small_allocations: 0,
            medium_allocations: 0,
            large_allocations: 0,
        }
    }

    /// The number of allocations counted so far in the size category of an
    /// allocation of `size` bytes.
    pub open spec fn count_in_category(self, size: usize) -> usize {
        if is_small(size) {
            self.small_allocations
        } else if is_large(size) {
            self.large_allocations
        } else {
            self.medium_allocations
        }
    }

    /// The counters after an allocation of `size` bytes: the bytes in use
    /// follow, the peak rises to them when they pass it, and the allocation
    /// counts in its size category.
    pub open spec fn alloc_counted(self, size: usize) -> TrackingAllocator {
        let allocated = (self.allocated_bytes + size) as usize;
        let current = in_use(allocated, self.deallocated_bytes);
        TrackingAllocator {
            allocated_bytes: allocated,
            deallocated_bytes: self.deallocated_bytes,
            current_memory_bytes: current,
            peak_memory_bytes: if self.peak_memory_bytes >= current {
                self.peak_memory_bytes
            } else {
                current
            },
            small_allocations: if is_small(size) {
                (self.small_allocations + 1) as usize
            } else {
                self.small_allocations
            },
            medium_allocations: if !is_small(size) && !is_large(size) {
                (self.medium_allocations + 1) as usize
            } else {
                self.medium_allocations
            },
            large_allocations: if is_large(size) {
                (self.large_allocations + 1) as usize
            } else {
                self.large_allocations
            },
        }
    }

    /// The counters after `size` bytes are freed: the bytes in use follow,
    /// and the peak stays.
    pub open spec fn dealloc_counted(self, size: usize) -> TrackingAllocator {
        let deallocated = (self.deallocated_bytes + size) as usize;
        TrackingAllocator {
            allocated_bytes: self.allocated_bytes,
            deallocated_bytes: deallocated,
            current_memory_bytes: in_use(self.allocated_bytes, deallocated),
            ..self
        }
    }

    /// Counts an allocation of `size` bytes that succeeded, in the byte
    /// counters and in its size category.
    pub fn record_alloc(&mut self, size: usize)
        requires
            old(self).allocated_bytes + size <= usize::MAX,
            old(self).count_in_category(size) < usize::MAX,
        ensures
            *final(self) == old(self).alloc_counted(size),
    {
        self.allocated_bytes = self.allocated_bytes + size;
        self.current_memory_bytes = self.allocated_bytes.saturating_sub(self.deallocated_bytes);
        if self.current_memory_bytes > self.peak_memory_bytes {
            self.peak_memory_bytes = self.current_memory_bytes;
        }
        if size < SMALL_ALLOCATION_LIMIT {
            self.small_allocations = self.small_allocations + 1;
        } else if size >= LARGE_ALLOCATION_THRESHOLD {
            self.large_allocations = self.large_allocations + 1;
        } else {
            self.medium_allocations = self.medium_allocations + 1;
        }
    }

    /// Whether an allocation of `size` bytes can be counted within `usize`
    /// (`record_alloc` asks for it).
    pub fn can_record_alloc(&self, size: usize) -> (fits: bool)
        ensures
            fits == (self.allocated_bytes + size <= usize::MAX && self.count_in_category(size)
                < usize::MAX),
    {
        let count = if size < SMALL_ALLOCATION_LIMIT {
            self.small_allocations
        } else if size >= LARGE_ALLOCATION_THRESHOLD {
            self.large_allocations
        } else {
            self.medium_allocations
        };
        self.allocated_bytes <= usize::MAX - size && count < usize::MAX
    }

    /// Counts the release of `size` bytes.
    pub fn record_dealloc(&mut self, size: usize)
        requires
            old(self).deallocated_bytes + size <= usize::MAX,
        ensures
            *final(self) == old(self).dealloc_counted(size),
    {
        self.deallocated_bytes = self.deallocated_bytes + size;
        self.current_memory_bytes = self.allocated_bytes.saturating_sub(self.deallocated_bytes);
    }
}


/// Fresh counters are consistent, and counting allocations and releases
/// keeps them consistent: the bytes in use are always the bytes allocated
/// minus those freed, and the peak is never below them.
pub proof fn lemma_counting_keeps_consistent(counters: TrackingAllocator, size: usize)
    ensures
        (TrackingAllocator {
            allocated_bytes: 0,
            deallocated_bytes: 0,
            current_memory_bytes: 0,
            peak_memory_bytes: 0,
            small_allocations: 0,
            medium_allocations: 0,
            large_allocations: 0,
        }).consistent(),
        counters.consistent() && counters.allocated_bytes + size <= usize::MAX ==> counters.alloc_counted(
            size,
        ).consistent(),
        counters.consistent() && counters.deallocated_bytes + size <= usize::MAX
            ==> counters.dealloc_counted(size).consistent(),
{
}

/// The peak never decreases, and after an allocation it is at least the
/// bytes in use.
pub proof fn lemma_peak_never_decreases(counters: TrackingAllocator, size: usize)
    ensures
        counters.alloc_counted(size).peak_memory_bytes >= counters.peak_memory_bytes,
        counters.alloc_counted(size).peak_memory_bytes >= counters.alloc_counted(
            size,
        ).current_memory_bytes,
        counters.dealloc_counted(size).peak_memory_bytes == counters.peak_memory_bytes,
{
}

/// Each allocation counts in exactly one size category: small below
/// `SMALL_ALLOCATION_LIMIT` bytes, large from `LARGE_ALLOCATION_THRESHOLD`
/// bytes, medium between; releases leave the category counts as they are.
pub proof fn lemma_allocation_counts_in_one_category(counters: TrackingAllocator, size: usize)
    requires
        counters.count_in_category(size) < usize::MAX,
    ensures
        counters.alloc_counted(size).small_allocations + counters.alloc_counted(size).medium_allocations
            + counters.alloc_counted(size).large_allocations == counters.small_allocations
            + counters.medium_allocations + counters.large_allocations + 1,
        counters.alloc_counted(size).count_in_category(size) == counters.count_in_category(size) + 1,
        counters.dealloc_counted(size).small_allocations == counters.small_allocations,
        counters.dealloc_counted(size).medium_allocations == counters.medium_allocations,
        counters.dealloc_counted(size).large_allocations == counters.large_allocations,
{
}

} // verus!
