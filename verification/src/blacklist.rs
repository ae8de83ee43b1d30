use vstd::prelude::*;

use crate::globals::{find_name, name_set, names_unique, MetricsStore};

verus! {

proof fn lemma_name_set_push(names: Seq<String>, name: String)
    ensures
        name_set(names.push(name)) == name_set(names).insert(name@),
{
    let pushed = names.push(name);
    assert forall|n: Seq<char>| name_set(pushed).contains(n) <==> name_set(names).insert(name@).contains(n) by {
        if name_set(pushed).contains(n) {
            let i = choose|i: int| 0 <= i < pushed.len() && pushed[i]@ == n;
            if i < names.len() {
                assert(names[i]@ == n);
            }
        }
        if name_set(names).contains(n) {
            let i = choose|i: int| 0 <= i < names.len() && names[i]@ == n;
            assert(pushed[i]@ == n);
        }
        if n == name@ {
            assert(pushed[names.len() as int]@ == n);
        }
    }
    assert(name_set(pushed) =~= name_set(names).insert(name@));
}

proof fn lemma_name_set_remove(names: Seq<String>, j: int)
    requires
        names_unique(names),
        0 <= j < names.len(),
    ensures
        name_set(names.remove(j)) == name_set(names).remove(names[j]@),
        names_unique(names.remove(j)),
{
    let removed = names.remove(j);
    assert forall|n: Seq<char>| name_set(removed).contains(n) <==> name_set(names).remove(names[j]@).contains(n) by {
        if name_set(removed).contains(n) {
            let i = choose|i: int| 0 <= i < removed.len() && removed[i]@ == n;
            if i < j {
                assert(removed[i] == names[i]);
                assert(names[i]@ != names[j]@);
            } else {
                assert(removed[i] == names[i + 1]);
                assert(names[i + 1]@ != names[j]@);
            }
        }
        if name_set(names).remove(names[j]@).contains(n) {
            let i = choose|i: int| 0 <= i < names.len() && names[i]@ == n;
            if i < j {
                assert(removed[i] == names[i]);
            } else {
                assert(i != j);
                assert(removed[i - 1] == names[i]);
            }
        }
    }
    assert(name_set(removed) =~= name_set(names).remove(names[j]@));
    assert forall|a: int, b: int| 0 <= a < b < removed.len() implies #[trigger] removed[a]@ != #[trigger] removed[b]@ by {
        let a0 = if a < j { a } else { a + 1 };
        let b0 = if b < j { b } else { b + 1 };
        assert(removed[a] == names[a0] && removed[b] == names[b0]);
    }
}

/// Adds `item` to the blacklist; whether it was not there before.
pub fn add_blacklist_item(store: &mut MetricsStore, item: String) -> (is_added: bool)
    requires
        old(store).wf(),
    ensures
        final(store).wf(),
        is_added == !old(store).blacklisted().contains(item@),
        final(store).blacklisted() == old(store).blacklisted().insert(item@),
        final(store).system_snapshots@ == old(store).system_snapshots@,
        final(store).route_calls@ == old(store).route_calls@,
        final(store).route_stats@ == old(store).route_stats@,
        final(store).memory_events@ == old(store).memory_events@,
        final(store).memory_stats@ == old(store).memory_stats@,
        final(store).counted_allocations == old(store).counted_allocations,
{
    match find_name(&store.blacklist, &item) {
        Some(j) => {
            proof {
                assert(old(store).blacklisted().contains(item@)) by {
                    assert(store.blacklist@[j as int]@ == item@);
                }
                assert(old(store).blacklisted().insert(item@) =~= old(store).blacklisted());
            }
            false
        },
        None => {
            proof {
                lemma_name_set_push(store.blacklist@, item);
                assert forall|a: int, b: int| 0 <= a < b < store.blacklist@.push(item).len() implies
                    #[trigger] store.blacklist@.push(item)[a]@ != #[trigger] store.blacklist@.push(item)[b]@ by {
                    if b == store.blacklist@.len() {
                        assert(store.blacklist@.push(item)[a] == store.blacklist@[a]);
                        assert(name_set(store.blacklist@).contains(store.blacklist@[a]@));
                    } else {
                        assert(store.blacklist@.push(item)[a] == store.blacklist@[a]);
                        assert(store.blacklist@.push(item)[b] == store.blacklist@[b]);
                    }
                }
            }
            store.blacklist.push(item);
            true
        },
    }
}

/// Takes `item` off the blacklist; whether it was there.
pub fn remove_blacklist_item(store: &mut MetricsStore, item: &String) -> (removed: bool)
    requires
        old(store).wf(),
    ensures
        final(store).wf(),
        removed == old(store).blacklisted().contains(item@),
        final(store).blacklisted() == old(store).blacklisted().remove(item@),
        final(store).system_snapshots@ == old(store).system_snapshots@,
        final(store).route_calls@ == old(store).route_calls@,
        final(store).route_stats@ == old(store).route_stats@,
        final(store).memory_events@ == old(store).memory_events@,
        final(store).memory_stats@ == old(store).memory_stats@,
        final(store).counted_allocations == old(store).counted_allocations,
{
    match find_name(&store.blacklist, item) {
        Some(j) => {
            proof {
                lemma_name_set_remove(store.blacklist@, j as int);
                assert(old(store).blacklisted().contains(item@)) by {
                    assert(store.blacklist@[j as int]@ == item@);
                }
            }
            store.blacklist.remove(j);
            true
        },
        None => {
            proof {
                assert(old(store).blacklisted().remove(item@) =~= old(store).blacklisted());
            }
            false
        },
    }
}


/// Adds the names of `loaded` that `names` lacks.
pub(crate) fn merge_names(names: &mut Vec<String>, loaded: &Vec<String>)
    requires
        names_unique(old(names)@),
    ensures
        names_unique(final(names)@),
        name_set(final(names)@) == name_set(old(names)@).union(name_set(loaded@)),
{
    let ghost start = name_set(names@);
    let mut i: usize = 0;
    while i < loaded.len()
        invariant
            i <= loaded@.len(),
            names_unique(names@),
            name_set(names@) == start.union(name_set(loaded@.take(i as int))),
        decreases loaded@.len() - i,
    {
        proof {
            assert(loaded@.take(i + 1) =~= loaded@.take(i as int).push(loaded@[i as int]));
            lemma_name_set_push(loaded@.take(i as int), loaded@[i as int]);
        }
        match find_name(names, &loaded[i]) {
            Some(j) => {
                proof {
                    assert(name_set(names@).contains(loaded@[i as int]@)) by {
                        assert(names@[j as int]@ == loaded@[i as int]@);
                    }
                    assert(name_set(names@) =~= start.union(name_set(loaded@.take(i + 1))));
                }
            },
            None => {
                let name = loaded[i].clone();
                proof {
                    lemma_name_set_push(names@, name);
                    assert forall|a: int, b: int| 0 <= a < b < names@.push(name).len() implies
                        #[trigger] names@.push(name)[a]@ != #[trigger] names@.push(name)[b]@ by {
                        assert(names@.push(name)[a] == names@[a]);
                        if b < names@.len() {
                            assert(names@.push(name)[b] == names@[b]);
                        } else {
                            assert(name_set(names@).contains(names@[a]@));
                        }
                    }
                    assert(name_set(names@.push(name)) =~= start.union(name_set(loaded@.take(i + 1))));
                }
                names.push(name);
            },
        }
        i += 1;
    }
    assert(loaded@.take(loaded@.len() as int) =~= loaded@);
}

/// Blacklisting a name that was not blacklisted and taking it off again
/// leaves the blacklist as it was.
pub proof fn lemma_blacklist_add_then_remove(blacklisted: Set<Seq<char>>, name: Seq<char>)
    requires
        !blacklisted.contains(name),
    ensures
        blacklisted.insert(name).remove(name) == blacklisted,
        blacklisted.insert(name).contains(name),
{
    assert(blacklisted.insert(name).remove(name) =~= blacklisted);
}

} // verus!
