use std::collections::VecDeque;
use vstd::prelude::*;

use crate::history::newest;

verus! {

broadcast use vstd::std_specs::vecdeque::group_vec_dequeue_axioms;

/// Number of most recent calls over which the sliding figures of a route
/// are taken.
pub const SLIDING_WINDOW_SIZE: usize = 50;

/// Statistics of the calls to one route.
///
/// Averages are kept as exact sums: the mean duration is
/// `total_duration_ms / total_calls`, the mean memory delta is
/// `total_memory_delta_bytes / total_calls`, and the sliding means are the
/// sliding sums divided by the lengths of the windows.
#[derive(Debug, PartialEq)]
pub struct RouteStats {
    pub total_calls: usize,
    pub total_duration_ms: u128,
    pub min_duration_ms: u64,
    pub max_duration_ms: u64,
    pub success_count: usize,
    pub error_count: usize,
    pub total_memory_delta_bytes: isize,
    pub min_memory_delta_bytes: isize,
    pub max_memory_delta_bytes: isize,
    pub recent_durations_ms: VecDeque<u64>,
    pub recent_memory_deltas: VecDeque<isize>,
    pub sliding_duration_sum_ms: u128,
    pub sliding_memory_delta_sum_bytes: i128,
}

/// The mathematical value of a `RouteStats`.
pub struct RouteStatsView {
    pub total_calls: usize,
    pub total_duration_ms: u128,
    pub min_duration_ms: u64,
    pub max_duration_ms: u64,
    pub success_count: usize,
    pub error_count: usize,
    pub total_memory_delta_bytes: isize,
    pub min_memory_delta_bytes: isize,
    pub max_memory_delta_bytes: isize,
    pub recent_durations_ms: Seq<u64>,
    pub recent_memory_deltas: Seq<isize>,
    pub sliding_duration_sum_ms: u128,
    pub sliding_memory_delta_sum_bytes: i128,
}

impl View for RouteStats {
    type V = RouteStatsView;

    open spec fn view(&self) -> RouteStatsView {
        RouteStatsView {
            total_calls: self.total_calls,
            total_duration_ms: self.total_duration_ms,
            min_duration_ms: self.min_duration_ms,
            max_duration_ms: self.max_duration_ms,
            success_count: self.success_count,
            error_count: self.error_count,
            total_memory_delta_bytes: self.total_memory_delta_bytes,
            min_memory_delta_bytes: self.min_memory_delta_bytes,
            max_memory_delta_bytes: self.max_memory_delta_bytes,
            recent_durations_ms: self.recent_durations_ms@,
            recent_memory_deltas: self.recent_memory_deltas@,
            sliding_duration_sum_ms: self.sliding_duration_sum_ms,
            sliding_memory_delta_sum_bytes: self.sliding_memory_delta_sum_bytes,
        }
    }
}

/// Sum of a sequence of durations.
pub open spec fn duration_sum(s: Seq<u64>) -> int
    decreases s.len(),
{
    if s.len() == 0 {
        0
    } else {
        duration_sum(s.drop_last()) + s.last() as int
    }
}

/// Sum of a sequence of memory deltas.
pub open spec fn delta_sum(s: Seq<isize>) -> int
    decreases s.len(),
{
    if s.len() == 0 {
        0
    } else {
        delta_sum(s.drop_last()) + s.last() as int
    }
}

/// The window after one more value: when it is already full, its oldest
/// value leaves first.
pub open spec fn window_pushed<T>(window: Seq<T>, value: T) -> Seq<T> {
    if window.len() >= SLIDING_WINDOW_SIZE {
        window.drop_first().push(value)
    } else {
        window.push(value)
    }
}

/// Whether `r` is the smaller of `a` and `b`.
pub open spec fn smaller_of(r: int, a: int, b: int) -> bool {
    r <= a && r <= b && (r == a || r == b)
}

/// Whether `r` is the larger of `a` and `b`.
pub open spec fn larger_of(r: int, a: int, b: int) -> bool {
    r >= a && r >= b && (r == a || r == b)
}

pub open spec fn min_u64(a: u64, b: u64) -> u64 {
    if a <= b { a } else { b }
}

pub open spec fn max_u64(a: u64, b: u64) -> u64 {
    if a >= b { a } else { b }
}

pub open spec fn min_isize(a: isize, b: isize) -> isize {
    if a <= b { a } else { b }
}

pub open spec fn max_isize(a: isize, b: isize) -> isize {
    if a >= b { a } else { b }
}

impl RouteStatsView {
    /// The statistics with their sliding sums taken over their windows.
    pub open spec fn with_sliding_sums(self) -> RouteStatsView {
        RouteStatsView {
            sliding_duration_sum_ms: duration_sum(self.recent_durations_ms) as u128,
            sliding_memory_delta_sum_bytes: delta_sum(self.recent_memory_deltas) as i128,
            ..self
        }
    }

    /// Whether the sliding sums are those of the windows.
    pub open spec fn sliding_sums_current(self) -> bool {
        &&& self.sliding_duration_sum_ms == duration_sum(self.recent_durations_ms)
        &&& self.sliding_memory_delta_sum_bytes == delta_sum(self.recent_memory_deltas)
    }

    /// Whether one more call fits the integer types of the statistics.
    pub open spec fn call_fits(
        self,
        duration_ms: u64,
        memory_delta_bytes: isize,
        is_success: bool,
    ) -> bool {
        &&& self.total_calls < usize::MAX
        &&& self.total_duration_ms + duration_ms <= u128::MAX
        &&& isize::MIN <= self.total_memory_delta_bytes + memory_delta_bytes <= isize::MAX
        &&& is_success ==> self.success_count < usize::MAX
        &&& !is_success ==> self.error_count < usize::MAX
    }

    /// The statistics after one more call.
    pub open spec fn call_added(
        self,
        duration_ms: u64,
        memory_delta_bytes: isize,
        is_success: bool,
    ) -> RouteStatsView {
        RouteStatsView {
            total_calls: (self.total_calls + 1) as usize,
            total_duration_ms: (self.total_duration_ms + duration_ms) as u128,
            min_duration_ms: min_u64(self.min_duration_ms, duration_ms),
            max_duration_ms: max_u64(self.max_duration_ms, duration_ms),
            success_count: if is_success {
                (self.success_count + 1) as usize
            } else {
                self.success_count
            },
            error_count: if is_success {
                self.error_count
            } else {
                (self.error_count + 1) as usize
            },
            total_memory_delta_bytes: (self.total_memory_delta_bytes
                + memory_delta_bytes) as isize,
            min_memory_delta_bytes: min_isize(self.min_memory_delta_bytes, memory_delta_bytes),
            max_memory_delta_bytes: max_isize(self.max_memory_delta_bytes, memory_delta_bytes),
            recent_durations_ms: window_pushed(self.recent_durations_ms, duration_ms),
            recent_memory_deltas: window_pushed(self.recent_memory_deltas, memory_delta_bytes),
            ..self
        }.with_sliding_sums()
    }

    /// Whether the statistics loaded can be merged into these within the
    /// integer types of the statistics.
    pub open spec fn merge_fits(self, loaded: RouteStatsView) -> bool {
        &&& self.total_calls + loaded.total_calls <= usize::MAX
        &&& self.total_duration_ms + loaded.total_duration_ms <= u128::MAX
        &&& self.success_count + loaded.success_count <= usize::MAX
        &&& self.error_count + loaded.error_count <= usize::MAX
        &&& isize::MIN <= self.total_memory_delta_bytes + loaded.total_memory_delta_bytes
            <= isize::MAX
    }

    /// These statistics with `loaded` merged in: counts and totals add up,
    /// the extremes are the extremes of both, and an empty window takes the
    /// loaded one.
    pub open spec fn merged(self, loaded: RouteStatsView) -> RouteStatsView {
        RouteStatsView {
            total_calls: (self.total_calls + loaded.total_calls) as usize,
            total_duration_ms: (self.total_duration_ms + loaded.total_duration_ms) as u128,
            min_duration_ms: min_u64(self.min_duration_ms, loaded.min_duration_ms),
            max_duration_ms: max_u64(self.max_duration_ms, loaded.max_duration_ms),
            success_count: (self.success_count + loaded.success_count) as usize,
            error_count: (self.error_count + loaded.error_count) as usize,
            total_memory_delta_bytes: (self.total_memory_delta_bytes
                + loaded.total_memory_delta_bytes) as isize,
            min_memory_delta_bytes: min_isize(
                self.min_memory_delta_bytes,
                loaded.min_memory_delta_bytes,
            ),
            max_memory_delta_bytes: max_isize(
                self.max_memory_delta_bytes,
                loaded.max_memory_delta_bytes,
            ),
            recent_durations_ms: if self.recent_durations_ms.len() == 0 {
                loaded.recent_durations_ms
            } else {
                self.recent_durations_ms
            },
            recent_memory_deltas: if self.recent_memory_deltas.len() == 0 {
                loaded.recent_memory_deltas
            } else {
                self.recent_memory_deltas
            },
            ..self
        }.with_sliding_sums()
    }

    /// Whether the counts agree with each other: every call is a success or
    /// an error, the windows hold at most their size, and there are extremes
    /// of the calls once there is a call.
    pub open spec fn consistent(self) -> bool {
        &&& self.success_count + self.error_count == self.total_calls
        &&& self.recent_durations_ms.len() <= SLIDING_WINDOW_SIZE
        &&& self.recent_memory_deltas.len() <= SLIDING_WINDOW_SIZE
        &&& self.recent_durations_ms.len() <= self.total_calls
        &&& self.recent_memory_deltas.len() <= self.total_calls
        &&& self.total_calls > 0 ==> {
            &&& self.min_duration_ms <= self.max_duration_ms
            &&& self.min_memory_delta_bytes <= self.max_memory_delta_bytes
        }
        &&& self.total_duration_ms <= self.total_calls * u64::MAX
    }
}

/// The statistics of a route that has had no call.
pub open spec fn empty_route_stats() -> RouteStatsView {
    RouteStatsView {
        total_calls: 0,
        total_duration_ms: 0,
        min_duration_ms: u64::MAX,
        max_duration_ms: 0,
        success_count: 0,
        error_count: 0,
        total_memory_delta_bytes: 0,
        min_memory_delta_bytes: isize::MAX,
        max_memory_delta_bytes: isize::MIN,
        recent_durations_ms: Seq::empty(),
        recent_memory_deltas: Seq::empty(),
        sliding_duration_sum_ms: 0,
        sliding_memory_delta_sum_bytes: 0,
    }
}

proof fn lemma_duration_sum_bounds(s: Seq<u64>)
    ensures
        0 <= duration_sum(s) <= s.len() * u64::MAX,
    decreases s.len(),
{
    if s.len() > 0 {
        lemma_duration_sum_bounds(s.drop_last());
        assert(duration_sum(s) <= (s.len() - 1) * u64::MAX + u64::MAX) by (nonlinear_arith)
            requires
                duration_sum(s) == duration_sum(s.drop_last()) + s.last() as int,
                duration_sum(s.drop_last()) <= s.drop_last().len() * u64::MAX,
                s.drop_last().len() == s.len() - 1,
                s.last() <= u64::MAX,
        ;
        assert((s.len() - 1) * u64::MAX + u64::MAX == s.len() * u64::MAX) by (nonlinear_arith);
    }
}

proof fn lemma_delta_sum_bounds(s: Seq<isize>)
    ensures
        s.len() * isize::MIN <= delta_sum(s) <= s.len() * isize::MAX,
    decreases s.len(),
{
    if s.len() > 0 {
        lemma_delta_sum_bounds(s.drop_last());
        assert((s.len() - 1) * isize::MAX + isize::MAX == s.len() * isize::MAX) by (nonlinear_arith);
        assert((s.len() - 1) * isize::MIN + isize::MIN == s.len() * isize::MIN) by (nonlinear_arith);
    }
}

proof fn lemma_sum_bounds_fit(len: int)
    requires
        0 <= len <= usize::MAX,
    ensures
        len * u64::MAX <= u128::MAX,
        i128::MIN <= len * isize::MIN,
        len * isize::MAX <= i128::MAX,
{
    assert(len * u64::MAX <= u64::MAX * u64::MAX) by (nonlinear_arith)
        requires
            0 <= len <= u64::MAX,
    ;
    assert(len * isize::MAX <= u64::MAX * isize::MAX) by (nonlinear_arith)
        requires
            0 <= len <= u64::MAX,
    ;
    assert(len * isize::MIN >= u64::MAX * isize::MIN) by (nonlinear_arith)
        requires
            0 <= len <= u64::MAX,
    ;
}

/// Exact sum of the durations in a window.
fn sum_durations(window: &VecDeque<u64>) -> (sum: u128)
    ensures
        sum == duration_sum(window@),
{
    let mut sum: u128 = 0;
    let mut i: usize = 0;
    let length = window.len();
    proof {
        lemma_sum_bounds_fit(length as int);
    }
    while i < window.len()
        invariant
            i <= window@.len(),
            window@.len() * u64::MAX <= u128::MAX,
            sum == duration_sum(window@.take(i as int)),
        decreases window@.len() - i,
    {
        proof {
            assert(window@.take(i + 1).drop_last() =~= window@.take(i as int));
            lemma_duration_sum_bounds(window@.take(i + 1));
            assert((i + 1) * u64::MAX <= window@.len() * u64::MAX) by (nonlinear_arith)
                requires
                    i + 1 <= window@.len(),
            ;
        }
        sum = sum + window[i] as u128;
        i += 1;
    }
    assert(window@.take(window@.len() as int) =~= window@);
    sum
}

/// Exact sum of the memory deltas in a window.
fn sum_deltas(window: &VecDeque<isize>) -> (sum: i128)
    ensures
        sum == delta_sum(window@),
{
    let mut sum: i128 = 0;
    let mut i: usize = 0;
    let length = window.len();
    proof {
        lemma_sum_bounds_fit(length as int);
    }
    while i < window.len()
        invariant
            i <= window@.len(),
            i128::MIN <= window@.len() * isize::MIN,
            window@.len() * isize::MAX <= i128::MAX,
            sum == delta_sum(window@.take(i as int)),
        decreases window@.len() - i,
    {
        proof {
            assert(window@.take(i + 1).drop_last() =~= window@.take(i as int));
            lemma_delta_sum_bounds(window@.take(i + 1));
            assert((i + 1) * isize::MAX <= window@.len() * isize::MAX) by (nonlinear_arith)
                requires
                    i + 1 <= window@.len(),
            ;
            assert((i + 1) * isize::MIN >= window@.len() * isize::MIN) by (nonlinear_arith)
                requires
                    i + 1 <= window@.len(),
            ;
        }
        sum = sum + window[i] as i128;
        i += 1;
    }
    assert(window@.take(window@.len() as int) =~= window@);
    sum
}

fn clone_window<T: Copy>(window: &VecDeque<T>) -> (copy: VecDeque<T>)
    ensures
        copy@ == window@,
{
    let mut copy: VecDeque<T> = VecDeque::new();
    let mut i: usize = 0;
    while i < window.len()
        invariant
            i <= window@.len(),
            copy@ == window@.take(i as int),
        decreases window@.len() - i,
    {
        copy.push_back(window[i]);
        assert(window@.take(i + 1) =~= window@.take(i as int).push(window@[i as int]));
        i += 1;
    }
    assert(window@.take(window@.len() as int) =~= window@);
    copy
}

impl Clone for RouteStats {
    fn clone(&self) -> (copy: Self)
        ensures
            copy@ == self@,
    {
        RouteStats {
            total_calls: self.total_calls,
            total_duration_ms: self.total_duration_ms,
            min_duration_ms: self.min_duration_ms,
            max_duration_ms: self.max_duration_ms,
            success_count: self.success_count,
            error_count: self.error_count,
            total_memory_delta_bytes: self.total_memory_delta_bytes,
            min_memory_delta_bytes: self.min_memory_delta_bytes,
            max_memory_delta_bytes: self.max_memory_delta_bytes,
            recent_durations_ms: clone_window(&self.recent_durations_ms),
            recent_memory_deltas: clone_window(&self.recent_memory_deltas),
            sliding_duration_sum_ms: self.sliding_duration_sum_ms,
            sliding_memory_delta_sum_bytes: self.sliding_memory_delta_sum_bytes,
        }
    }
}

impl Default for RouteStats {
    fn default() -> (stats: Self)
        ensures
            stats@ == empty_route_stats(),
    {
        RouteStats {
            total_calls: 0,
            total_duration_ms: 0,
            min_duration_ms: u64::MAX,
            max_duration_ms: 0,
            success_count: 0,
            error_count: 0,
            total_memory_delta_bytes: 0,
            min_memory_delta_bytes: isize::MAX,
            max_memory_delta_bytes: isize::MIN,
            recent_durations_ms: VecDeque::with_capacity(SLIDING_WINDOW_SIZE),
            recent_memory_deltas: VecDeque::with_capacity(SLIDING_WINDOW_SIZE),
            sliding_duration_sum_ms: 0,
            sliding_memory_delta_sum_bytes: 0,
        }
    }
}

impl RouteStats {
    /// Takes the sliding sums anew over the two windows.
    pub fn update_sliding_averages(&mut self)
        ensures
            final(self)@ == old(self)@.with_sliding_sums(),
            final(self)@.sliding_sums_current(),
    {
        if self.recent_durations_ms.len() == 0 {
            self.sliding_duration_sum_ms = 0;
        } else {
            self.sliding_duration_sum_ms = sum_durations(&self.recent_durations_ms);
        }
        if self.recent_memory_deltas.len() == 0 {
            self.sliding_memory_delta_sum_bytes = 0;
        } else {
            self.sliding_memory_delta_sum_bytes = sum_deltas(&self.recent_memory_deltas);
        }
        proof {
            lemma_duration_sum_bounds(self.recent_durations_ms@);
            lemma_delta_sum_bounds(self.recent_memory_deltas@);
            lemma_sum_bounds_fit(self.recent_durations_ms@.len() as int);
            lemma_sum_bounds_fit(self.recent_memory_deltas@.len() as int);
        }
    }

    /// Whether one more call with these figures fits the integer types of
    /// the statistics (`add_call` asks for it).
    pub fn can_add_call(&self, duration_ms: u64, memory_delta_bytes: isize, is_success: bool) -> (fits: bool)
        ensures
            fits == self@.call_fits(duration_ms, memory_delta_bytes, is_success),
    {
        let counted = if is_success {
            self.success_count < usize::MAX
        } else {
            self.error_count < usize::MAX
        };
        let delta_fits = if memory_delta_bytes >= 0 {
            self.total_memory_delta_bytes <= isize::MAX - memory_delta_bytes
        } else {
            self.total_memory_delta_bytes >= isize::MIN - memory_delta_bytes
        };
        self.total_calls < usize::MAX && self.total_duration_ms <= u128::MAX
            - duration_ms as u128 && delta_fits && counted
    }

    /// Records one call: its duration, its memory delta and whether it
    /// succeeded.
    pub fn add_call(&mut self, duration_ms: u64, memory_delta_bytes: isize, is_success: bool)
        requires
            old(self)@.call_fits(duration_ms, memory_delta_bytes, is_success),
        ensures
            final(self)@ == old(self)@.call_added(duration_ms, memory_delta_bytes, is_success),
            final(self).total_calls == old(self).total_calls + 1,
            final(self).total_duration_ms == old(self).total_duration_ms + duration_ms,
            final(self).total_memory_delta_bytes == old(self).total_memory_delta_bytes
                + memory_delta_bytes,
            smaller_of(
                final(self).min_duration_ms as int,
                old(self).min_duration_ms as int,
                duration_ms as int,
            ),
            larger_of(
                final(self).max_duration_ms as int,
                old(self).max_duration_ms as int,
                duration_ms as int,
            ),
            smaller_of(
                final(self).min_memory_delta_bytes as int,
                old(self).min_memory_delta_bytes as int,
                memory_delta_bytes as int,
            ),
            larger_of(
                final(self).max_memory_delta_bytes as int,
                old(self).max_memory_delta_bytes as int,
                memory_delta_bytes as int,
            ),
            final(self).success_count == old(self).success_count + if is_success {
                1int
            } else {
                0int
            },
            final(self).error_count == old(self).error_count + if is_success {
                0int
            } else {
                1int
            },
            final(self).recent_durations_ms@ == if old(self).recent_durations_ms@.len()
                >= SLIDING_WINDOW_SIZE {
                old(self).recent_durations_ms@.subrange(
                    1,
                    old(self).recent_durations_ms@.len() as int,
                ).push(duration_ms)
            } else {
                old(self).recent_durations_ms@.push(duration_ms)
            },
            final(self).recent_memory_deltas@ == if old(self).recent_memory_deltas@.len()
                >= SLIDING_WINDOW_SIZE {
                old(self).recent_memory_deltas@.subrange(
                    1,
                    old(self).recent_memory_deltas@.len() as int,
                ).push(memory_delta_bytes)
            } else {
                old(self).recent_memory_deltas@.push(memory_delta_bytes)
            },
            final(self)@.sliding_sums_current(),
    {
        self.total_calls += 1;
        if duration_ms < self.min_duration_ms {
            self.min_duration_ms = duration_ms;
        }
        if duration_ms > self.max_duration_ms {
            self.max_duration_ms = duration_ms;
        }
        self.total_duration_ms = self.total_duration_ms + duration_ms as u128;
        self.total_memory_delta_bytes += memory_delta_bytes;
        if memory_delta_bytes < self.min_memory_delta_bytes {
            self.min_memory_delta_bytes = memory_delta_bytes;
        }
        if memory_delta_bytes > self.max_memory_delta_bytes {
            self.max_memory_delta_bytes = memory_delta_bytes;
        }
        if is_success {
            self.success_count += 1;
        } else {
            self.error_count += 1;
        }
        if self.recent_durations_ms.len() >= SLIDING_WINDOW_SIZE {
            self.recent_durations_ms.pop_front();
        }
        self.recent_durations_ms.push_back(duration_ms);
        if self.recent_memory_deltas.len() >= SLIDING_WINDOW_SIZE {
            self.recent_memory_deltas.pop_front();
        }
        self.recent_memory_deltas.push_back(memory_delta_bytes);
        self.update_sliding_averages();
    }

    /// Whether `loaded` can be merged into these statistics within their
    /// integer types (`merge_loaded` asks for it).
    pub fn can_merge(&self, loaded: &RouteStats) -> (fits: bool)
        ensures
            fits == self@.merge_fits(loaded@),
    {
        let delta_fits = if loaded.total_memory_delta_bytes >= 0 {
            self.total_memory_delta_bytes <= isize::MAX - loaded.total_memory_delta_bytes
        } else {
            self.total_memory_delta_bytes >= isize::MIN - loaded.total_memory_delta_bytes
        };
        self.total_calls <= usize::MAX - loaded.total_calls && self.total_duration_ms <= u128::MAX
            - loaded.total_duration_ms && self.success_count <= usize::MAX - loaded.success_count
            && self.error_count <= usize::MAX - loaded.error_count && delta_fits
    }

    /// Merges statistics loaded from storage into these.
    pub fn merge_loaded(&mut self, loaded: RouteStats)
        requires
            old(self)@.merge_fits(loaded@),
        ensures
            final(self)@ == old(self)@.merged(loaded@),
            final(self).total_calls == old(self).total_calls + loaded.total_calls,
            final(self).total_duration_ms == old(self).total_duration_ms + loaded.total_duration_ms,
            final(self).success_count == old(self).success_count + loaded.success_count,
            final(self).error_count == old(self).error_count + loaded.error_count,
            final(self).total_memory_delta_bytes == old(self).total_memory_delta_bytes
                + loaded.total_memory_delta_bytes,
            smaller_of(
                final(self).min_duration_ms as int,
                old(self).min_duration_ms as int,
                loaded.min_duration_ms as int,
            ),
            larger_of(
                final(self).max_duration_ms as int,
                old(self).max_duration_ms as int,
                loaded.max_duration_ms as int,
            ),
            smaller_of(
                final(self).min_memory_delta_bytes as int,
                old(self).min_memory_delta_bytes as int,
                loaded.min_memory_delta_bytes as int,
            ),
            larger_of(
                final(self).max_memory_delta_bytes as int,
                old(self).max_memory_delta_bytes as int,
                loaded.max_memory_delta_bytes as int,
            ),
            final(self).recent_durations_ms@ == if old(self).recent_durations_ms@.len() == 0 {
                loaded.recent_durations_ms@
            } else {
                old(self).recent_durations_ms@
            },
            final(self).recent_memory_deltas@ == if old(self).recent_memory_deltas@.len() == 0 {
                loaded.recent_memory_deltas@
            } else {
                old(self).recent_memory_deltas@
            },
            final(self)@.sliding_sums_current(),
    {
        self.total_calls = self.total_calls + loaded.total_calls;
        self.total_duration_ms = self.total_duration_ms + loaded.total_duration_ms;
        self.success_count = self.success_count + loaded.success_count;
        self.error_count = self.error_count + loaded.error_count;
        self.total_memory_delta_bytes = self.total_memory_delta_bytes
            + loaded.total_memory_delta_bytes;
        if loaded.min_duration_ms < self.min_duration_ms {
            self.min_duration_ms = loaded.min_duration_ms;
        }
        if loaded.max_duration_ms > self.max_duration_ms {
            self.max_duration_ms = loaded.max_duration_ms;
        }
        if loaded.min_memory_delta_bytes < self.min_memory_delta_bytes {
            self.min_memory_delta_bytes = loaded.min_memory_delta_bytes;
        }
        if loaded.max_memory_delta_bytes > self.max_memory_delta_bytes {
            self.max_memory_delta_bytes = loaded.max_memory_delta_bytes;
        }
        if self.recent_durations_ms.len() == 0 {
            self.recent_durations_ms = loaded.recent_durations_ms;
        }
        if self.recent_memory_deltas.len() == 0 {
            self.recent_memory_deltas = loaded.recent_memory_deltas;
        }
        self.update_sliding_averages();
    }
}


/// A route with no call has consistent statistics.
pub proof fn lemma_empty_stats_consistent()
    ensures
        empty_route_stats().consistent(),
        empty_route_stats().sliding_sums_current(),
{
}

/// Recording a call keeps statistics consistent, and leaves their sliding
/// sums those of their windows.
pub proof fn lemma_add_call_keeps_consistent(
    stats: RouteStatsView,
    duration_ms: u64,
    memory_delta_bytes: isize,
    is_success: bool,
)
    requires
        stats.consistent(),
        stats.call_fits(duration_ms, memory_delta_bytes, is_success),
    ensures
        stats.call_added(duration_ms, memory_delta_bytes, is_success).consistent(),
        stats.call_added(duration_ms, memory_delta_bytes, is_success).sliding_sums_current(),
{
    let after = stats.call_added(duration_ms, memory_delta_bytes, is_success);
    lemma_duration_sum_bounds(after.recent_durations_ms);
    lemma_delta_sum_bounds(after.recent_memory_deltas);
    lemma_sum_bounds_fit(after.recent_durations_ms.len() as int);
    lemma_sum_bounds_fit(after.recent_memory_deltas.len() as int);
    assert(stats.total_duration_ms + duration_ms <= (stats.total_calls + 1) * u64::MAX) by (nonlinear_arith)
        requires
            stats.total_duration_ms <= stats.total_calls * u64::MAX,
            duration_ms <= u64::MAX,
    ;
}

/// For consistent statistics the total duration never overflows: one more
/// call fits as soon as the call count, the memory total and the success or
/// error count have room.
pub proof fn lemma_consistent_duration_fits(
    stats: RouteStatsView,
    duration_ms: u64,
    memory_delta_bytes: isize,
    is_success: bool,
)
    requires
        stats.consistent(),
        stats.total_calls < usize::MAX,
        isize::MIN <= stats.total_memory_delta_bytes + memory_delta_bytes <= isize::MAX,
        is_success ==> stats.success_count < usize::MAX,
        !is_success ==> stats.error_count < usize::MAX,
    ensures
        stats.call_fits(duration_ms, memory_delta_bytes, is_success),
{
    assert(stats.total_duration_ms + duration_ms <= u128::MAX) by (nonlinear_arith)
        requires
            stats.total_duration_ms <= stats.total_calls * u64::MAX,
            stats.total_calls < usize::MAX,
            usize::MAX <= u64::MAX,
            duration_ms <= u64::MAX,
    ;
}

/// Statistics loaded into a route with no call come out as they were loaded,
/// with their sliding sums taken over their windows.
pub proof fn lemma_merge_into_empty_stats(loaded: RouteStatsView)
    ensures
        empty_route_stats().merge_fits(loaded),
        empty_route_stats().merged(loaded) == loaded.with_sliding_sums(),
        loaded.sliding_sums_current() ==> empty_route_stats().merged(loaded) == loaded,
{
    if loaded.sliding_sums_current() {
        assert(loaded.with_sliding_sums() == loaded);
    }
}

/// A window that holds at most `SLIDING_WINDOW_SIZE` values keeps so: after
/// one more value it holds the newest `SLIDING_WINDOW_SIZE` of its values and
/// the new one, which comes last.
pub proof fn lemma_window_keeps_newest<T>(window: Seq<T>, value: T)
    requires
        window.len() <= SLIDING_WINDOW_SIZE,
    ensures
        window_pushed(window, value).len() <= SLIDING_WINDOW_SIZE,
        window_pushed(window, value) == newest(window.push(value), SLIDING_WINDOW_SIZE as nat),
        window_pushed(window, value).last() == value,
{
    if window.len() >= SLIDING_WINDOW_SIZE {
        assert(window.drop_first().push(value) =~= window.push(value).skip(1));
    }
}

/// Every call counts once, as a success or as an error: when successes and
/// errors add up to the calls and there is room for one more call, neither
/// count is at its limit, and after one more call they still add up.
pub proof fn lemma_add_call_counts_once(
    stats: RouteStatsView,
    duration_ms: u64,
    memory_delta_bytes: isize,
    is_success: bool,
)
    requires
        stats.success_count + stats.error_count == stats.total_calls,
        stats.total_calls < usize::MAX,
    ensures
        stats.success_count < usize::MAX,
        stats.error_count < usize::MAX,
        stats.call_added(duration_ms, memory_delta_bytes, is_success).total_calls == stats.total_calls
            + 1,
        stats.call_added(duration_ms, memory_delta_bytes, is_success).success_count
            == stats.success_count + if is_success {
            1int
        } else {
            0int
        },
        stats.call_added(duration_ms, memory_delta_bytes, is_success).error_count == stats.error_count
            + if is_success {
            0int
        } else {
            1int
        },
        stats.call_added(duration_ms, memory_delta_bytes, is_success).success_count + stats.call_added(
            duration_ms,
            memory_delta_bytes,
            is_success,
        ).error_count == stats.call_added(duration_ms, memory_delta_bytes, is_success).total_calls,
{
}

/// Recording a call moves each extreme only towards the call: the smallest
/// duration becomes the smaller of the old one and the call's, the largest
/// the larger, and likewise for the memory delta, whether the call succeeded
/// or not; the call comes last in both windows, and the sliding sums are
/// those of the windows.
pub proof fn lemma_call_extremes(
    stats: RouteStatsView,
    duration_ms: u64,
    memory_delta_bytes: isize,
    is_success: bool,
)
    ensures
        smaller_of(
            stats.call_added(duration_ms, memory_delta_bytes, is_success).min_duration_ms as int,
            stats.min_duration_ms as int,
            duration_ms as int,
        ),
        larger_of(
            stats.call_added(duration_ms, memory_delta_bytes, is_success).max_duration_ms as int,
            stats.max_duration_ms as int,
            duration_ms as int,
        ),
        smaller_of(
            stats.call_added(duration_ms, memory_delta_bytes, is_success).min_memory_delta_bytes as int,
            stats.min_memory_delta_bytes as int,
            memory_delta_bytes as int,
        ),
        larger_of(
            stats.call_added(duration_ms, memory_delta_bytes, is_success).max_memory_delta_bytes as int,
            stats.max_memory_delta_bytes as int,
            memory_delta_bytes as int,
        ),
        stats.call_added(duration_ms, memory_delta_bytes, is_success).recent_durations_ms.last()
            == duration_ms,
        stats.call_added(duration_ms, memory_delta_bytes, is_success).recent_memory_deltas.last()
            == memory_delta_bytes,
        stats.recent_durations_ms.len() < usize::MAX && stats.recent_memory_deltas.len()
            < usize::MAX ==> stats.call_added(
            duration_ms,
            memory_delta_bytes,
            is_success,
        ).sliding_sums_current(),
        stats.call_fits(duration_ms, memory_delta_bytes, is_success) ==> {
            &&& stats.call_added(duration_ms, memory_delta_bytes, is_success).total_calls
                == stats.total_calls + 1
            &&& stats.call_added(duration_ms, memory_delta_bytes, is_success).total_duration_ms
                == stats.total_duration_ms + duration_ms
            &&& stats.call_added(duration_ms, memory_delta_bytes, is_success).total_memory_delta_bytes
                == stats.total_memory_delta_bytes + memory_delta_bytes
        },
{
    let after = stats.call_added(duration_ms, memory_delta_bytes, is_success);
    if stats.recent_durations_ms.len() < usize::MAX && stats.recent_memory_deltas.len() < usize::MAX {
        lemma_duration_sum_bounds(after.recent_durations_ms);
        lemma_delta_sum_bounds(after.recent_memory_deltas);
        lemma_sum_bounds_fit(after.recent_durations_ms.len() as int);
        lemma_sum_bounds_fit(after.recent_memory_deltas.len() as int);
    }
}

/// Merging loaded statistics keeps the extremes of both: each smallest
/// figure is the smaller of the two, each largest the larger; a window that
/// is not empty stays, and an empty one takes the loaded window; the sliding
/// sums are those of the windows; and, when the merge fits, counts and
/// totals add up.
pub proof fn lemma_merge_keeps_extremes(current: RouteStatsView, loaded: RouteStatsView)
    ensures
        smaller_of(
            current.merged(loaded).min_duration_ms as int,
            current.min_duration_ms as int,
            loaded.min_duration_ms as int,
        ),
        larger_of(
            current.merged(loaded).max_duration_ms as int,
            current.max_duration_ms as int,
            loaded.max_duration_ms as int,
        ),
        smaller_of(
            current.merged(loaded).min_memory_delta_bytes as int,
            current.min_memory_delta_bytes as int,
            loaded.min_memory_delta_bytes as int,
        ),
        larger_of(
            current.merged(loaded).max_memory_delta_bytes as int,
            current.max_memory_delta_bytes as int,
            loaded.max_memory_delta_bytes as int,
        ),
        current.merged(loaded).recent_durations_ms == if current.recent_durations_ms.len() == 0 {
            loaded.recent_durations_ms
        } else {
            current.recent_durations_ms
        },
        current.merged(loaded).recent_memory_deltas == if current.recent_memory_deltas.len() == 0 {
            loaded.recent_memory_deltas
        } else {
            current.recent_memory_deltas
        },
        current.recent_durations_ms.len() <= usize::MAX && current.recent_memory_deltas.len()
            <= usize::MAX && loaded.recent_durations_ms.len() <= usize::MAX
            && loaded.recent_memory_deltas.len() <= usize::MAX ==> current.merged(
            loaded,
        ).sliding_sums_current(),
        current.merge_fits(loaded) ==> {
            &&& current.merged(loaded).total_calls == current.total_calls + loaded.total_calls
            &&& current.merged(loaded).total_duration_ms == current.total_duration_ms
                + loaded.total_duration_ms
            &&& current.merged(loaded).success_count == current.success_count + loaded.success_count
            &&& current.merged(loaded).error_count == current.error_count + loaded.error_count
            &&& current.merged(loaded).total_memory_delta_bytes == current.total_memory_delta_bytes
                + loaded.total_memory_delta_bytes
        },
{
    let after = current.merged(loaded);
    if current.recent_durations_ms.len() <= usize::MAX && current.recent_memory_deltas.len()
        <= usize::MAX && loaded.recent_durations_ms.len() <= usize::MAX
        && loaded.recent_memory_deltas.len() <= usize::MAX {
        lemma_duration_sum_bounds(after.recent_durations_ms);
        lemma_delta_sum_bounds(after.recent_memory_deltas);
        lemma_sum_bounds_fit(after.recent_durations_ms.len() as int);
        lemma_sum_bounds_fit(after.recent_memory_deltas.len() as int);
    }
}

} // verus!
