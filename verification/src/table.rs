//! The frequency table: a mapping from derived keys to 64-bit
//! occurrence counts, keys unique. One table is private to each worker
//! while it parses, and worker tables are then folded into one shared
//! total; merging is insensitive to worker order, which `crate::laws`
//! states and proves.
//!
//! Counts saturate at `u64::MAX` instead of wrapping, so an increment
//! never panics and merging stays associative and commutative at the
//! saturation bound too.

use vstd::prelude::*;
use vstd::pervasive::VecAdditionalExecFns;

verus! {

/// Addition on counts, saturating at `u64::MAX`.
pub open spec fn sat_add(a: u64, b: u64) -> u64 {
    if a + b > u64::MAX {
        u64::MAX
    } else {
        (a + b) as u64
    }
}

/// Saturating addition is associative.
pub proof fn lemma_sat_add_assoc(a: u64, b: u64, c: u64)
    ensures
        sat_add(sat_add(a, b), c) == sat_add(a, sat_add(b, c)),
{
}

/// The count that a sequence of table entries gives to key `k`: the
/// saturating sum of the counts of the entries holding `k`.
pub open spec fn count_entries(es: Seq<(Seq<char>, u64)>, k: Seq<char>) -> u64
    decreases es.len(),
{
    if es.len() == 0 {
        0
    } else {
        sat_add(
            count_entries(es.drop_last(), k),
            if es.last().0 == k {
                es.last().1
            } else {
                0
            },
        )
    }
}

/// A sequence of entries none of which holds `k` counts nothing for it.
pub proof fn lemma_count_entries_absent(es: Seq<(Seq<char>, u64)>, k: Seq<char>)
    requires
        forall|i: int| 0 <= i < es.len() ==> (#[trigger] es[i]).0 != k,
    ensures
        count_entries(es, k) == 0,
    decreases es.len(),
{
    if es.len() > 0 {
        lemma_count_entries_absent(es.drop_last(), k);
    }
}

/// With unique keys, the count of the key at `i` is that entry's count.
pub proof fn lemma_count_entries_at(es: Seq<(Seq<char>, u64)>, i: int)
    requires
        0 <= i < es.len(),
        forall|p: int, q: int|
            0 <= p < q < es.len() ==> (#[trigger] es[p]).0 != (#[trigger] es[q]).0,
    ensures
        count_entries(es, es[i].0) == es[i].1,
    decreases es.len(),
{
    if i == es.len() - 1 {
        lemma_count_entries_absent(es.drop_last(), es[i].0);
    } else {
        lemma_count_entries_at(es.drop_last(), i);
    }
}

/// The frequency table. The entry vector is exposed so that its view
/// can stand in contracts; the operations below keep `wf`.
pub struct FreqTable {
    pub entries: Vec<(String, u64)>,
}

/// The view of the entries: each key's characters with its count.
pub open spec fn entry_views(es: Seq<(String, u64)>) -> Seq<(Seq<char>, u64)> {
    es.map_values(|e: (String, u64)| (e.0@, e.1))
}

impl FreqTable {
    /// The table's entries as character sequences and counts.
    pub open spec fn entries_view(self) -> Seq<(Seq<char>, u64)> {
        entry_views(self.entries@)
    }

    /// Keys are unique and every stored count is positive.
    pub open spec fn wf(self) -> bool {
        &&& forall|p: int, q: int|
            0 <= p < q < self.entries@.len() ==> (#[trigger] self.entries@[p]).0@ != (
            #[trigger] self.entries@[q]).0@
        &&& forall|i: int| 0 <= i < self.entries@.len() ==> (#[trigger] self.entries@[i]).1 >= 1
    }

    /// The count the table holds for key `k`, zero when absent.
    pub open spec fn spec_count(self, k: Seq<char>) -> u64 {
        count_entries(self.entries_view(), k)
    }

    /// An empty table: every key counts zero.
    pub fn new() -> (r: FreqTable)
        ensures
            r.wf(),
            r.entries@.len() == 0,
            forall|k: Seq<char>| r.spec_count(k) == 0,
    {
        FreqTable { entries: Vec::new() }
    }

    /// How many distinct keys the table holds.
    pub fn len(&self) -> (r: usize)
        ensures
            r == self.entries@.len(),
    {
        self.entries.len()
    }

    /// Adds `c` occurrences of `key`, saturating: the key's count grows
    /// by `c` and every other key's count is untouched.
    #[verifier::loop_isolation(false)]
    pub fn add_count(&mut self, key: &String, c: u64)
        requires
            old(self).wf(),
            c >= 1,
        ensures
            final(self).wf(),
            final(self).spec_count(key@) == sat_add(old(self).spec_count(key@), c),
            forall|k: Seq<char>| k != key@ ==> final(self).spec_count(k) == old(self).spec_count(k),
    {
        let ghost es0 = self.entries_view();
        let n = self.entries.len();
        let mut i: usize = 0;
        while i < n
            invariant
                0 <= i <= n,
                self == old(self),
                forall|j: int| 0 <= j < i ==> (#[trigger] self.entries@[j]).0@ != key@,
            decreases n - i,
        {
            if self.entries[i].0 == *key {
                let c_old = self.entries[i].1;
                let c_new = if u64::MAX - c_old >= c {
                    c_old + c
                } else {
                    u64::MAX
                };
                let updated = (key.clone(), c_new);
                self.entries.set(i, updated);
                proof {
                    let es1 = self.entries_view();
                    assert(es1 =~= es0.update(i as int, (key@, c_new)));
                    lemma_count_entries_update(es0, i as int, c_new, key@);
                    lemma_count_entries_at(es0, i as int);
                }
                return ;
            }
            i = i + 1;
        }
        self.entries.push((key.clone(), c));
        proof {
            let es1 = self.entries_view();
            assert(es1.drop_last() =~= es0);
            assert(es1.last() == (key@, c));
            lemma_count_entries_absent(es0, key@);
            assert(forall|k: Seq<char>|
                k != key@ ==> count_entries(es1, k) == sat_add(count_entries(es0, k), 0));
        }
    }

    /// Counts one more occurrence of `key`.
    pub fn increment(&mut self, key: &String)
        requires
            old(self).wf(),
        ensures
            final(self).wf(),
            final(self).spec_count(key@) == sat_add(old(self).spec_count(key@), 1),
            forall|k: Seq<char>| k != key@ ==> final(self).spec_count(k) == old(self).spec_count(k),
    {
        self.add_count(key, 1);
    }

    /// Folds another table's counts into this one: afterwards every
    /// key's count is the saturating sum of the two tables' counts for
    /// it. This is the once-per-worker merge into the shared total.
    #[verifier::loop_isolation(false)]
    pub fn merge_from(&mut self, other: &FreqTable)
        requires
            old(self).wf(),
            other.wf(),
        ensures
            final(self).wf(),
            forall|k: Seq<char>|
                final(self).spec_count(k) == sat_add(
                    old(self).spec_count(k),
                    other.spec_count(k),
                ),
    {
        let ghost es_other = other.entries_view();
        let n = other.entries.len();
        let mut i: usize = 0;
        proof {
            assert(forall|k: Seq<char>| count_entries(es_other.take(0), k) == 0) by {
                assert(es_other.take(0) =~= Seq::<(Seq<char>, u64)>::empty());
            }
        }
        while i < n
            invariant
                0 <= i <= n,
                self.wf(),
                forall|k: Seq<char>|
                    self.spec_count(k) == sat_add(
                        old(self).spec_count(k),
                        count_entries(es_other.take(i as int), k),
                    ),
            decreases n - i,
        {
            let c = other.entries[i].1;
            self.add_count(&other.entries[i].0, c);
            proof {
                let ki = es_other[i as int].0;
                assert(es_other.take(i + 1).drop_last() =~= es_other.take(i as int));
                assert(es_other.take(i + 1).last() == es_other[i as int]);
                assert forall|k: Seq<char>|
                    self.spec_count(k) == sat_add(
                        old(self).spec_count(k),
                        count_entries(es_other.take(i + 1), k),
                    ) by {
                    if k == ki {
                        lemma_sat_add_assoc(
                            old(self).spec_count(k),
                            count_entries(es_other.take(i as int), k),
                            c,
                        );
                    }
                }
            }
            i = i + 1;
        }
        proof {
            assert(es_other.take(n as int) =~= es_other);
        }
    }

    /// The stored count of `key`, zero when the key is absent.
    #[verifier::loop_isolation(false)]
    pub fn get(&self, key: &String) -> (r: u64)
        requires
            self.wf(),
        ensures
            r == self.spec_count(key@),
    {
        let n = self.entries.len();
        let mut i: usize = 0;
        while i < n
            invariant
                0 <= i <= n,
                forall|j: int| 0 <= j < i ==> (#[trigger] self.entries@[j]).0@ != key@,
            decreases n - i,
        {
            if self.entries[i].0 == *key {
                proof {
                    lemma_count_entries_at(self.entries_view(), i as int);
                }
                return self.entries[i].1;
            }
            i = i + 1;
        }
        proof {
            lemma_count_entries_absent(self.entries_view(), key@);
        }
        0
    }
}

/// Entry sequences with pairwise distinct keys.
pub open spec fn unique_keys(es: Seq<(Seq<char>, u64)>) -> bool {
    forall|p: int, q: int| 0 <= p < q < es.len() ==> (#[trigger] es[p]).0 != (#[trigger] es[q]).0
}

/// Entry sequences whose every count is positive.
pub open spec fn positive_counts(es: Seq<(Seq<char>, u64)>) -> bool {
    forall|i: int| 0 <= i < es.len() ==> (#[trigger] es[i]).1 >= 1
}

/// A well-formed table's entry views have unique keys and positive
/// counts.
pub proof fn lemma_wf_entry_views(t: FreqTable)
    requires
        t.wf(),
    ensures
        unique_keys(t.entries_view()),
        positive_counts(t.entries_view()),
{
    let es = t.entries_view();
    assert(forall|i: int| 0 <= i < es.len() ==> #[trigger] es[i] == (t.entries@[i].0@, t.entries@[i].1));
}

/// Removing the entry at `j` removes its key's whole count and no
/// other key's.
proof fn lemma_count_entries_remove(es: Seq<(Seq<char>, u64)>, j: int)
    requires
        0 <= j < es.len(),
        unique_keys(es),
    ensures
        count_entries(es.remove(j), es[j].0) == 0,
        forall|k: Seq<char>|
            k != es[j].0 ==> count_entries(es.remove(j), k) == count_entries(es, k),
    decreases es.len(),
{
    let rem = es.remove(j);
    assert(forall|i: int| 0 <= i < j ==> #[trigger] rem[i] == es[i]);
    assert(forall|i: int| j <= i < rem.len() ==> #[trigger] rem[i] == es[i + 1]);
    lemma_count_entries_absent(rem, es[j].0);
    if j == es.len() - 1 {
        assert(rem =~= es.drop_last());
        assert forall|k: Seq<char>|
            k != es[j].0 implies count_entries(rem, k) == count_entries(es, k) by {
            assert(count_entries(es, k) == sat_add(
                count_entries(es.drop_last(), k),
                if es.last().0 == k {
                    es.last().1
                } else {
                    0
                },
            ));
        }
    } else {
        assert(rem.drop_last() =~= es.drop_last().remove(j));
        assert(rem.last() == es.last());
        assert(es.drop_last()[j] == es[j]);
        lemma_count_entries_remove(es.drop_last(), j);
        assert forall|k: Seq<char>|
            k != es[j].0 implies count_entries(rem, k) == count_entries(es, k) by {
            assert(count_entries(rem, k) == sat_add(
                count_entries(rem.drop_last(), k),
                if rem.last().0 == k {
                    rem.last().1
                } else {
                    0
                },
            ));
            assert(count_entries(es, k) == sat_add(
                count_entries(es.drop_last(), k),
                if es.last().0 == k {
                    es.last().1
                } else {
                    0
                },
            ));
        }
    }
}

/// The per-key counts pin the entries down: two entry sequences with
/// unique keys, positive counts and the same count for every key hold
/// the same entries.
pub proof fn lemma_counts_determine_entries(
    es1: Seq<(Seq<char>, u64)>,
    es2: Seq<(Seq<char>, u64)>,
)
    requires
        unique_keys(es1),
        unique_keys(es2),
        positive_counts(es1),
        positive_counts(es2),
        forall|k: Seq<char>| #[trigger] count_entries(es1, k) == count_entries(es2, k),
    ensures
        es1.to_multiset() == es2.to_multiset(),
    decreases es1.len(),
{
    broadcast use vstd::seq_lib::group_to_multiset_ensures;
    broadcast use vstd::multiset::group_multiset_axioms;

    if es1.len() == 0 {
        if es2.len() > 0 {
            lemma_count_entries_at(es2, 0);
            assert(count_entries(es1, es2[0].0) == 0) by {
                lemma_count_entries_absent(es1, es2[0].0);
            }
        }
        assert(es1 =~= es2);
    } else {
        let e = es1.last();
        let last = es1.len() - 1;
        lemma_count_entries_at(es1, last);
        assert(count_entries(es2, e.0) == e.1);
        assert(exists|j: int| 0 <= j < es2.len() && (#[trigger] es2[j]).0 == e.0) by {
            if forall|j: int| 0 <= j < es2.len() ==> (#[trigger] es2[j]).0 != e.0 {
                lemma_count_entries_absent(es2, e.0);
            }
        }
        let j = choose|j: int| 0 <= j < es2.len() && (#[trigger] es2[j]).0 == e.0;
        lemma_count_entries_at(es2, j);
        assert(es2[j] == e);
        let es1p = es1.drop_last();
        let es2p = es2.remove(j);
        assert(es1.remove(last) =~= es1p);
        lemma_count_entries_remove(es1, last);
        lemma_count_entries_remove(es2, j);
        assert(forall|k: Seq<char>| #[trigger] count_entries(es1p, k) == count_entries(es2p, k))
            by {
            assert forall|k: Seq<char>|
                #[trigger] count_entries(es1p, k) == count_entries(es2p, k) by {
                if k == e.0 {
                    assert(count_entries(es1.remove(last), k) == 0);
                    assert(count_entries(es2.remove(j), k) == 0);
                } else {
                    assert(count_entries(es1.remove(last), k) == count_entries(es1, k));
                    assert(count_entries(es2.remove(j), k) == count_entries(es2, k));
                    assert(count_entries(es1, k) == count_entries(es2, k));
                }
            }
        }
        assert(forall|i: int| 0 <= i < es1p.len() ==> #[trigger] es1p[i] == es1[i]);
        lemma_counts_determine_entries(es1p, es2p);
        assert(es1.to_multiset() == es1p.to_multiset().insert(e)) by {
            assert(es1p.push(e) =~= es1);
        }
        assert(es2p.to_multiset() == es2.to_multiset().remove(e));
        assert(es2.to_multiset().contains(e));
        assert(es2.to_multiset().remove(e).insert(e) =~= es2.to_multiset());
    }
}

/// Updating the entry at `i` to a new count for the same key moves that
/// key's count to the new value and no other.
proof fn lemma_count_entries_update(es: Seq<(Seq<char>, u64)>, i: int, c: u64, key: Seq<char>)
    requires
        0 <= i < es.len(),
        es[i].0 == key,
        forall|p: int, q: int|
            0 <= p < q < es.len() ==> (#[trigger] es[p]).0 != (#[trigger] es[q]).0,
    ensures
        count_entries(es.update(i, (key, c)), key) == c,
        forall|k: Seq<char>|
            k != key ==> count_entries(es.update(i, (key, c)), k) == count_entries(es, k),
    decreases es.len(),
{
    let es1 = es.update(i, (key, c));
    if i == es.len() - 1 {
        assert(es1.drop_last() =~= es.drop_last());
        assert(es1.last() == (key, c));
        assert(es.last() == es[i]);
        lemma_count_entries_absent(es.drop_last(), key);
    } else {
        assert(es1.drop_last() =~= es.drop_last().update(i, (key, c)));
        assert(es1.last() == es.last());
        lemma_count_entries_update(es.drop_last(), i, c, key);
    }
    assert forall|k: Seq<char>| k != key implies count_entries(es1, k) == count_entries(
        es,
        k,
    ) by {
        assert(count_entries(es1, k) == sat_add(
            count_entries(es1.drop_last(), k),
            if es1.last().0 == k {
                es1.last().1
            } else {
                0
            },
        ));
        assert(count_entries(es, k) == sat_add(
            count_entries(es.drop_last(), k),
            if es.last().0 == k {
                es.last().1
            } else {
                0
            },
        ));
    }
}

} // verus!
