use vstd::prelude::*;

use crate::globals::find_key;

verus! {

/// Process-wide memory figures, and counts of allocations by size category.
///
/// `allocation_sizes` lists (category, count) pairs; a category that occurs
/// more than once counts with the sum of its entries (see `size_count`).
#[derive(Debug, PartialEq)]
pub struct MemoryStats {
    pub total_allocations: usize,
    pub total_deallocations: usize,
    pub current_memory: usize,
    pub peak_memory: usize,
    pub allocation_sizes: Vec<(String, usize)>,
}

/// The mathematical value of a `MemoryStats`.
pub struct MemoryStatsView {
    pub total_allocations: usize,
    pub total_deallocations: usize,
    pub current_memory: usize,
    pub peak_memory: usize,
    pub allocation_sizes: Seq<(String, usize)>,
}

impl View for MemoryStats {
    type V = MemoryStatsView;

    open spec fn view(&self) -> MemoryStatsView {
        MemoryStatsView {
            total_allocations: self.total_allocations,
            total_deallocations: self.total_deallocations,
            current_memory: self.current_memory,
            peak_memory: self.peak_memory,
            allocation_sizes: self.allocation_sizes@,
        }
    }
}

/// The count of a size category: the sum of the counts of all entries whose
/// category is `category`.
pub open spec fn size_count(sizes: Seq<(String, usize)>, category: Seq<char>) -> int
    decreases sizes.len(),
{
    if sizes.len() == 0 {
        0
    } else {
        size_count(sizes.drop_last(), category) + if sizes.last().0@ == category {
            sizes.last().1 as int
        } else {
            0
        }
    }
}

/// Whether no size category is listed twice.
pub open spec fn categories_unique(sizes: Seq<(String, usize)>) -> bool {
    forall|i: int, j: int| 0 <= i < j < sizes.len() ==> #[trigger] sizes[i].0@ != #[trigger] sizes[j].0@
}

/// The figures of memory statistics when nothing has been recorded.
pub open spec fn empty_memory_stats() -> MemoryStatsView {
    MemoryStatsView {
        total_allocations: 0,
        total_deallocations: 0,
        current_memory: 0,
        peak_memory: 0,
        allocation_sizes: Seq::empty(),
    }
}

/// The index of the first entry of `sizes` in category `category`, or -1
/// when there is none.
pub open spec fn category_index(sizes: Seq<(String, usize)>, category: Seq<char>) -> int
    decreases sizes.len(),
{
    if sizes.len() == 0 {
        -1
    } else {
        let earlier = category_index(sizes.drop_last(), category);
        if earlier >= 0 {
            earlier
        } else if sizes.last().0@ == category {
            sizes.len() - 1
        } else {
            -1
        }
    }
}

/// `sizes` with the count of `entry` added to the first entry of its
/// category, or with `entry` appended when its category is not listed.
pub open spec fn count_added(sizes: Seq<(String, usize)>, entry: (String, usize)) -> Seq<(String, usize)> {
    let j = category_index(sizes, entry.0@);
    if j >= 0 {
        sizes.update(j, (sizes[j].0, (sizes[j].1 + entry.1) as usize))
    } else {
        sizes.push(entry)
    }
}

/// `current` with the entries of `loaded` counted in one after another.
pub open spec fn sizes_merged(current: Seq<(String, usize)>, loaded: Seq<(String, usize)>) -> Seq<(String, usize)>
    decreases loaded.len(),
{
    if loaded.len() == 0 {
        current
    } else {
        count_added(sizes_merged(current, loaded.drop_last()), loaded.last())
    }
}

/// The size categories that `sizes` lists.
pub open spec fn listed_categories(sizes: Seq<(String, usize)>) -> Set<Seq<char>> {
    Set::new(|category: Seq<char>| exists|i: int| 0 <= i < sizes.len() && sizes[i].0@ == category)
}

/// The merged figures of `current` with `loaded`: the peak is the larger of
/// the two peaks; the size list is the current one with each loaded entry
/// counted in, so it lists the categories of both and every category counts
/// the sum of its two counts; the other figures stay those of `current`.
pub open spec fn memory_stats_merged(current: MemoryStatsView, loaded: MemoryStatsView, merged: MemoryStatsView) -> bool {
    &&& merged.allocation_sizes == sizes_merged(current.allocation_sizes, loaded.allocation_sizes)
    &&& listed_categories(merged.allocation_sizes) == listed_categories(current.allocation_sizes).union(
        listed_categories(loaded.allocation_sizes),
    )
    &&& merged.total_allocations == current.total_allocations
    &&& merged.total_deallocations == current.total_deallocations
    &&& merged.current_memory == current.current_memory
    &&& merged.peak_memory == if current.peak_memory >= loaded.peak_memory {
        current.peak_memory
    } else {
        loaded.peak_memory
    }
    &&& forall|category: Seq<char>|
        #[trigger] size_count(merged.allocation_sizes, category) == size_count(
            current.allocation_sizes,
            category,
        ) + size_count(loaded.allocation_sizes, category)
}

/// Whether merging `loaded` into `current` keeps every category count within
/// `usize`.
pub open spec fn memory_stats_merge_fits(current: MemoryStatsView, loaded: MemoryStatsView) -> bool {
    forall|category: Seq<char>|
        size_count(loaded.allocation_sizes, category) > 0 ==> #[trigger] size_count(
            current.allocation_sizes,
            category,
        ) + size_count(loaded.allocation_sizes, category) <= usize::MAX
}

proof fn lemma_size_count_nonneg(sizes: Seq<(String, usize)>, category: Seq<char>)
    ensures
        size_count(sizes, category) >= 0,
    decreases sizes.len(),
{
    if sizes.len() > 0 {
        lemma_size_count_nonneg(sizes.drop_last(), category);
    }
}

proof fn lemma_size_count_push(sizes: Seq<(String, usize)>, entry: (String, usize), category: Seq<char>)
    ensures
        size_count(sizes.push(entry), category) == size_count(sizes, category) + if entry.0@
            == category {
            entry.1 as int
        } else {
            0
        },
{
    assert(sizes.push(entry).drop_last() =~= sizes);
}

proof fn lemma_size_count_prefix(sizes: Seq<(String, usize)>, n: int, category: Seq<char>)
    requires
        0 <= n <= sizes.len(),
    ensures
        size_count(sizes.take(n), category) <= size_count(sizes, category),
    decreases sizes.len() - n,
{
    if n < sizes.len() {
        lemma_size_count_prefix(sizes, n + 1, category);
        assert(sizes.take(n + 1).drop_last() =~= sizes.take(n));
    } else {
        assert(sizes.take(n) =~= sizes);
    }
}

proof fn lemma_size_count_entry(sizes: Seq<(String, usize)>, j: int)
    requires
        0 <= j < sizes.len(),
    ensures
        sizes[j].1 <= size_count(sizes, sizes[j].0@),
    decreases sizes.len(),
{
    lemma_size_count_nonneg(sizes.drop_last(), sizes[j].0@);
    if j < sizes.len() - 1 {
        lemma_size_count_entry(sizes.drop_last(), j);
    }
}

proof fn lemma_size_count_update(
    sizes: Seq<(String, usize)>,
    j: int,
    value: usize,
    category: Seq<char>,
)
    requires
        0 <= j < sizes.len(),
    ensures
        size_count(sizes.update(j, (sizes[j].0, value)), category) == size_count(sizes, category)
            + if sizes[j].0@ == category {
            value - sizes[j].1
        } else {
            0
        },
    decreases sizes.len(),
{
    let updated = sizes.update(j, (sizes[j].0, value));
    if j < sizes.len() - 1 {
        assert(updated.drop_last() =~= sizes.drop_last().update(j, (sizes[j].0, value)));
        lemma_size_count_update(sizes.drop_last(), j, value, category);
    } else {
        assert(updated.drop_last() =~= sizes.drop_last());
    }
}

fn clone_sizes(sizes: &Vec<(String, usize)>) -> (copy: Vec<(String, usize)>)
    ensures
        copy@ == sizes@,
{
    let mut copy: Vec<(String, usize)> = Vec::new();
    let mut j: usize = 0;
    while j < sizes.len()
        invariant
            j <= sizes@.len(),
            copy@ == sizes@.take(j as int),
        decreases sizes@.len() - j,
    {
        let entry = (sizes[j].0.clone(), sizes[j].1);
        copy.push(entry);
        assert(sizes@.take(j + 1) =~= sizes@.take(j as int).push(sizes@[j as int]));
        j += 1;
    }
    assert(sizes@.take(sizes@.len() as int) =~= sizes@);
    copy
}

proof fn lemma_category_index_found(sizes: Seq<(String, usize)>, category: Seq<char>, j: int)
    requires
        0 <= j < sizes.len(),
        sizes[j].0@ == category,
        forall|k: int| 0 <= k < j ==> sizes[k].0@ != category,
    ensures
        category_index(sizes, category) == j,
    decreases sizes.len(),
{
    if j < sizes.len() - 1 {
        lemma_category_index_found(sizes.drop_last(), category, j);
    } else {
        lemma_category_index_absent(sizes.drop_last(), category);
    }
}

proof fn lemma_category_index_absent(sizes: Seq<(String, usize)>, category: Seq<char>)
    requires
        forall|k: int| 0 <= k < sizes.len() ==> sizes[k].0@ != category,
    ensures
        category_index(sizes, category) == -1,
    decreases sizes.len(),
{
    if sizes.len() > 0 {
        lemma_category_index_absent(sizes.drop_last(), category);
    }
}

proof fn lemma_listed_update(sizes: Seq<(String, usize)>, j: int, entry: (String, usize))
    requires
        0 <= j < sizes.len(),
        entry.0@ == sizes[j].0@,
    ensures
        listed_categories(sizes.update(j, entry)) == listed_categories(sizes),
{
    let updated = sizes.update(j, entry);
    assert forall|c: Seq<char>| listed_categories(updated).contains(c) <==> listed_categories(sizes).contains(c) by {
        if listed_categories(updated).contains(c) {
            let i = choose|i: int| 0 <= i < updated.len() && updated[i].0@ == c;
            assert(sizes[i].0@ == c);
        }
        if listed_categories(sizes).contains(c) {
            let i = choose|i: int| 0 <= i < sizes.len() && sizes[i].0@ == c;
            assert(updated[i].0@ == c);
        }
    }
    assert(listed_categories(updated) =~= listed_categories(sizes));
}

proof fn lemma_listed_push(sizes: Seq<(String, usize)>, entry: (String, usize))
    ensures
        listed_categories(sizes.push(entry)) == listed_categories(sizes).insert(entry.0@),
{
    let pushed = sizes.push(entry);
    assert forall|c: Seq<char>| listed_categories(pushed).contains(c) <==> listed_categories(sizes).insert(entry.0@).contains(c) by {
        if listed_categories(pushed).contains(c) {
            let i = choose|i: int| 0 <= i < pushed.len() && pushed[i].0@ == c;
            if i < sizes.len() {
                assert(sizes[i].0@ == c);
            }
        }
        if listed_categories(sizes).contains(c) {
            let i = choose|i: int| 0 <= i < sizes.len() && sizes[i].0@ == c;
            assert(pushed[i].0@ == c);
        }
        if c == entry.0@ {
            assert(pushed[sizes.len() as int].0@ == c);
        }
    }
    assert(listed_categories(pushed) =~= listed_categories(sizes).insert(entry.0@));
}

impl Clone for MemoryStats {
    fn clone(&self) -> (copy: Self)
        ensures
            copy@ == self@,
    {
        MemoryStats {
            total_allocations: self.total_allocations,
            total_deallocations: self.total_deallocations,
            current_memory: self.current_memory,
            peak_memory: self.peak_memory,
            allocation_sizes: clone_sizes(&self.allocation_sizes),
        }
    }
}

impl Default for MemoryStats {
    fn default() -> (stats: Self)
        ensures
            stats@ == empty_memory_stats(),
    {
        MemoryStats {
            total_allocations: 0,
            total_deallocations: 0,
            current_memory: 0,
            peak_memory: 0,
            allocation_sizes: Vec::new(),
        }
    }
}

impl MemoryStats {
    /// Merges loaded figures into these: the peak becomes the larger of the
    /// two, and the count of each size category loaded is added to that
    /// category here (a category not present yet is added with its count).
    pub fn merge_loaded(&mut self, loaded: &MemoryStats)
        requires
            memory_stats_merge_fits(old(self)@, loaded@),
        ensures
            memory_stats_merged(old(self)@, loaded@, final(self)@),
            categories_unique(old(self).allocation_sizes@) ==> categories_unique(
                final(self).allocation_sizes@,
            ),
    {
        if loaded.peak_memory > self.peak_memory {
            self.peak_memory = loaded.peak_memory;
        }
        let ghost start = self.allocation_sizes@;
        let ghost incoming = loaded.allocation_sizes@;
        assert forall|category: Seq<char>|
            size_count(incoming, category) > 0 implies #[trigger] size_count(start, category)
                + size_count(incoming, category) <= usize::MAX by {
            assert(size_count(old(self)@.allocation_sizes, category) + size_count(
                loaded@.allocation_sizes,
                category,
            ) <= usize::MAX);
        }
        assert(incoming.take(0) =~= Seq::<(String, usize)>::empty());
        assert(listed_categories(Seq::<(String, usize)>::empty()) =~= Set::empty());
        assert(listed_categories(start).union(Set::empty()) =~= listed_categories(start));
        let mut i: usize = 0;
        while i < loaded.allocation_sizes.len()
            invariant
                i <= incoming.len(),
                incoming == loaded.allocation_sizes@,
                forall|category: Seq<char>|
                    size_count(incoming, category) > 0 ==> #[trigger] size_count(start, category)
                        + size_count(incoming, category) <= usize::MAX,
                self.total_allocations == old(self).total_allocations,
                self.total_deallocations == old(self).total_deallocations,
                self.current_memory == old(self).current_memory,
                categories_unique(start) ==> categories_unique(self.allocation_sizes@),
                self.peak_memory == if old(self).peak_memory >= loaded.peak_memory {
                    old(self).peak_memory
                } else {
                    loaded.peak_memory
                },
                forall|category: Seq<char>|
                    #[trigger] size_count(self.allocation_sizes@, category) == size_count(
                        start,
                        category,
                    ) + size_count(incoming.take(i as int), category),
                self.allocation_sizes@ == sizes_merged(start, incoming.take(i as int)),
                listed_categories(self.allocation_sizes@) == listed_categories(start).union(
                    listed_categories(incoming.take(i as int)),
                ),
            decreases incoming.len() - i,
        {
            let category = &loaded.allocation_sizes[i].0;
            let count = loaded.allocation_sizes[i].1;
            let ghost before = self.allocation_sizes@;
            proof {
                assert(incoming.take(i + 1).drop_last() =~= incoming.take(i as int));
                assert(incoming.take(i + 1).last() == incoming[i as int]);
                assert(incoming.take(i + 1) =~= incoming.take(i as int).push(incoming[i as int]));
                lemma_listed_push(incoming.take(i as int), incoming[i as int]);
                lemma_size_count_prefix(incoming, i + 1, category@);
                lemma_size_count_nonneg(incoming.take(i as int), category@);
                lemma_size_count_nonneg(start, category@);
            }
            match find_key(&self.allocation_sizes, category) {
                Some(j) => {
                    let current = self.allocation_sizes[j].1;
                    proof {
                        lemma_size_count_entry(before, j as int);
                        lemma_size_count_entry(incoming, i as int);
                        if size_count(incoming, category@) > 0 {
                            assert(size_count(start, category@) + size_count(incoming, category@)
                                <= usize::MAX);
                        }
                        assert(current + count <= usize::MAX);
                    }
                    let name = self.allocation_sizes[j].0.clone();
                    self.allocation_sizes.set(j, (name, current + count));
                    proof {
                        assert forall|c: Seq<char>|
                            #[trigger] size_count(self.allocation_sizes@, c) == size_count(start, c)
                                + size_count(incoming.take(i + 1), c) by {
                            lemma_size_count_update(before, j as int, (current + count) as usize, c);
                            assert(self.allocation_sizes@ =~= before.update(
                                j as int,
                                (before[j as int].0, (current + count) as usize),
                            ));
                        }
                        if categories_unique(start) {
                            let after = self.allocation_sizes@;
                            assert forall|a: int, b: int| 0 <= a < b < after.len() implies #[trigger] after[a].0@ != #[trigger] after[b].0@ by {
                                assert(after[a].0@ == before[a].0@);
                                assert(after[b].0@ == before[b].0@);
                            }
                        }
                        lemma_category_index_found(before, category@, j as int);
                        assert(self.allocation_sizes@ =~= count_added(before, incoming[i as int]));
                        lemma_listed_update(before, j as int, (name, (current + count) as usize));
                        assert(listed_categories(self.allocation_sizes@) =~= listed_categories(start).union(
                            listed_categories(incoming.take(i + 1)),
                        ));
                    }
                },
                None => {
                    let entry = (category.clone(), count);
                    self.allocation_sizes.push(entry);
                    proof {
                        assert forall|c: Seq<char>|
                            #[trigger] size_count(self.allocation_sizes@, c) == size_count(start, c)
                                + size_count(incoming.take(i + 1), c) by {
                            lemma_size_count_push(before, entry, c);
                        }
                        if categories_unique(start) {
                            let after = self.allocation_sizes@;
                            assert forall|a: int, b: int| 0 <= a < b < after.len() implies #[trigger] after[a].0@ != #[trigger] after[b].0@ by {
                                assert(after[a] == before[a]);
                                if b < before.len() {
                                    assert(after[b] == before[b]);
                                }
                            }
                        }
                        lemma_category_index_absent(before, category@);
                        assert(entry == incoming[i as int]);
                        lemma_listed_push(before, entry);
                        assert(listed_categories(self.allocation_sizes@) =~= listed_categories(start).union(
                            listed_categories(incoming.take(i + 1)),
                        ));
                    }
                },
            }
            i += 1;
        }
        assert(incoming.take(incoming.len() as int) =~= incoming);
    }
}


proof fn lemma_size_count_bounds(sizes: Seq<(String, usize)>, category: Seq<char>)
    ensures
        0 <= size_count(sizes, category) <= sizes.len() * usize::MAX,
    decreases sizes.len(),
{
    if sizes.len() > 0 {
        lemma_size_count_bounds(sizes.drop_last(), category);
        assert((sizes.len() - 1) * usize::MAX + usize::MAX == sizes.len() * usize::MAX)
            by (nonlinear_arith);
    }
}

proof fn lemma_size_count_witness(sizes: Seq<(String, usize)>, category: Seq<char>)
    requires
        size_count(sizes, category) > 0,
    ensures
        exists|k: int| 0 <= k < sizes.len() && #[trigger] sizes[k].0@ == category,
    decreases sizes.len(),
{
    let rest = sizes.drop_last();
    if size_count(rest, category) > 0 {
        lemma_size_count_witness(rest, category);
        let k = choose|k: int| 0 <= k < rest.len() && #[trigger] rest[k].0@ == category;
        assert(sizes[k] == rest[k]);
    } else {
        assert(sizes[sizes.len() - 1].0@ == category);
    }
}

/// The count of size category `category` in `sizes`.
pub(crate) fn count_category(sizes: &Vec<(String, usize)>, category: &String) -> (count: u128)
    ensures
        count == size_count(sizes@, category@),
{
    let mut count: u128 = 0;
    let mut i: usize = 0;
    let length = sizes.len();
    assert(length * usize::MAX <= u128::MAX) by (nonlinear_arith)
        requires
            length <= usize::MAX,
    ;
    while i < length
        invariant
            length == sizes@.len(),
            i <= length,
            length * usize::MAX <= u128::MAX,
            count == size_count(sizes@.take(i as int), category@),
        decreases length - i,
    {
        proof {
            assert(sizes@.take(i + 1).drop_last() =~= sizes@.take(i as int));
            lemma_size_count_bounds(sizes@.take(i + 1), category@);
            assert((i + 1) * usize::MAX <= length * usize::MAX) by (nonlinear_arith)
                requires
                    i + 1 <= length,
            ;
        }
        if sizes[i].0 == *category {
            count = count + sizes[i].1 as u128;
        }
        i += 1;
    }
    assert(sizes@.take(length as int) =~= sizes@);
    count
}

impl MemoryStats {
    /// Whether `loaded` can be merged into these figures within `usize`
    /// (`merge_loaded` asks for it).
    pub fn can_merge(&self, loaded: &MemoryStats) -> (fits: bool)
        ensures
            fits == memory_stats_merge_fits(self@, loaded@),
    {
        let mut i: usize = 0;
        while i < loaded.allocation_sizes.len()
            invariant
                i <= loaded.allocation_sizes@.len(),
                forall|k: int|
                    0 <= k < i && size_count(loaded.allocation_sizes@, #[trigger] loaded.allocation_sizes@[k].0@) > 0
                        ==> size_count(self.allocation_sizes@, loaded.allocation_sizes@[k].0@)
                        + size_count(loaded.allocation_sizes@, loaded.allocation_sizes@[k].0@)
                        <= usize::MAX,
            decreases loaded.allocation_sizes@.len() - i,
        {
            let category = &loaded.allocation_sizes[i].0;
            let incoming = count_category(&loaded.allocation_sizes, category);
            if incoming > 0 {
                let present = count_category(&self.allocation_sizes, category);
                if present > usize::MAX as u128 || incoming > usize::MAX as u128
                    || present + incoming > usize::MAX as u128 {
                    proof {
                        lemma_size_count_nonneg(self.allocation_sizes@, category@);
                        assert(size_count(self@.allocation_sizes, category@) + size_count(
                            loaded@.allocation_sizes,
                            category@,
                        ) > usize::MAX);
                    }
                    return false;
                }
            }
            i += 1;
        }
        proof {
            assert forall|category: Seq<char>|
                size_count(loaded.allocation_sizes@, category) > 0 implies #[trigger] size_count(
                    self.allocation_sizes@,
                    category,
                ) + size_count(loaded.allocation_sizes@, category) <= usize::MAX by {
                lemma_size_count_witness(loaded.allocation_sizes@, category);
                let k = choose|k: int|
                    0 <= k < loaded.allocation_sizes@.len() && #[trigger] loaded.allocation_sizes@[k].0@
                        == category;
                assert(loaded.allocation_sizes@[k].0@ == category);
            }
        }
        true
    }
}


/// With categories listed once, a category counts at most what one entry
/// can hold.
pub proof fn lemma_unique_size_count_fits(sizes: Seq<(String, usize)>, category: Seq<char>)
    requires
        categories_unique(sizes),
    ensures
        0 <= size_count(sizes, category) <= usize::MAX,
    decreases sizes.len(),
{
    if sizes.len() > 0 {
        let rest = sizes.drop_last();
        assert(categories_unique(rest)) by {
            assert forall|a: int, b: int| 0 <= a < b < rest.len() implies #[trigger] rest[a].0@ != #[trigger] rest[b].0@ by {
                assert(rest[a] == sizes[a] && rest[b] == sizes[b]);
            }
        }
        lemma_unique_size_count_fits(rest, category);
        if sizes.last().0@ == category && size_count(rest, category) > 0 {
            lemma_size_count_witness(rest, category);
            let k = choose|k: int| 0 <= k < rest.len() && #[trigger] rest[k].0@ == category;
            assert(sizes[k].0@ != sizes[sizes.len() - 1].0@);
        }
        lemma_size_count_nonneg(rest, category);
    }
}

proof fn lemma_sizes_merged_into_empty(loaded: Seq<(String, usize)>)
    requires
        categories_unique(loaded),
    ensures
        sizes_merged(Seq::empty(), loaded) == loaded,
    decreases loaded.len(),
{
    if loaded.len() > 0 {
        let rest = loaded.drop_last();
        assert(categories_unique(rest)) by {
            assert forall|a: int, b: int| 0 <= a < b < rest.len() implies #[trigger] rest[a].0@ != #[trigger] rest[b].0@ by {
                assert(rest[a] == loaded[a] && rest[b] == loaded[b]);
            }
        }
        lemma_sizes_merged_into_empty(rest);
        assert forall|k: int| 0 <= k < rest.len() implies rest[k].0@ != loaded.last().0@ by {
            assert(loaded[k].0@ != loaded[loaded.len() - 1].0@);
        }
        lemma_category_index_absent(rest, loaded.last().0@);
        assert(rest.push(loaded.last()) =~= loaded);
    }
}

/// Loading memory statistics into empty ones fits, and gives their peak and
/// their size list back.
pub proof fn lemma_merge_into_empty_memory_stats(loaded: MemoryStatsView)
    requires
        categories_unique(loaded.allocation_sizes),
    ensures
        memory_stats_merge_fits(empty_memory_stats(), loaded),
        forall|merged: MemoryStatsView|
            memory_stats_merged(empty_memory_stats(), loaded, merged) ==> merged.peak_memory
                == loaded.peak_memory && merged.allocation_sizes == loaded.allocation_sizes,
{
    assert forall|category: Seq<char>|
        size_count(loaded.allocation_sizes, category) > 0 implies #[trigger] size_count(
            empty_memory_stats().allocation_sizes,
            category,
        ) + size_count(loaded.allocation_sizes, category) <= usize::MAX by {
        lemma_unique_size_count_fits(loaded.allocation_sizes, category);
    }
    lemma_sizes_merged_into_empty(loaded.allocation_sizes);
}

/// Merging memory statistics with nothing loaded leaves them as they are.
pub proof fn lemma_merge_nothing_memory_stats(current: MemoryStatsView, merged: MemoryStatsView)
    requires
        memory_stats_merged(current, empty_memory_stats(), merged),
    ensures
        merged == current,
{
}

} // verus!
