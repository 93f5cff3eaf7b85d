//! Deterministic ranking of the merged frequency table: entries sorted
//! by count descending, ties broken by ascending lexicographic key
//! order, truncated to the caller's limit with a count of what was
//! omitted. The tie-break makes the order total, so repeated runs on
//! identical input print identical output.

use vstd::prelude::*;
use vstd::relations::{sorted_by, total_ordering};
use vstd::seq_lib::lemma_sorted_unique;

use crate::chars::{
    lemma_lex_le_antisymmetric, lemma_lex_le_total, lemma_lex_le_transitive, lex_le, str_lex_le,
};
use crate::log::UrlCount;
use crate::table::{entry_views, FreqTable};

verus! {

/// The ranking order on table entries: a larger count comes first, and
/// equal counts stand in lexicographic key order.
pub open spec fn rank_le(a: (Seq<char>, u64), b: (Seq<char>, u64)) -> bool {
    a.1 > b.1 || (a.1 == b.1 && lex_le(a.0, b.0))
}

/// The ranking order as a relation value, for sorting.
pub open spec fn rank_leq_fn() -> spec_fn((Seq<char>, u64), (Seq<char>, u64)) -> bool {
    |a: (Seq<char>, u64), b: (Seq<char>, u64)| rank_le(a, b)
}

/// The ranking order is a total ordering: reflexive, antisymmetric,
/// transitive and strongly connected.
pub proof fn lemma_rank_total_ordering()
    ensures
        total_ordering(rank_leq_fn()),
{
    let r = rank_leq_fn();
    assert forall|x: (Seq<char>, u64)| #[trigger] r(x, x) by {
        lemma_lex_le_total(x.0, x.0);
    }
    assert forall|x: (Seq<char>, u64), y: (Seq<char>, u64)|
        #[trigger] r(x, y) && #[trigger] r(y, x) implies x == y by {
        assert(x.1 == y.1);
        lemma_lex_le_antisymmetric(x.0, y.0);
    }
    assert forall|x: (Seq<char>, u64), y: (Seq<char>, u64), z: (Seq<char>, u64)|
        #[trigger] r(x, y) && #[trigger] r(y, z) implies r(x, z) by {
        if x.1 == y.1 && y.1 == z.1 {
            lemma_lex_le_transitive(x.0, y.0, z.0);
        }
    }
    assert forall|x: (Seq<char>, u64), y: (Seq<char>, u64)| #[trigger] r(x, y) || #[trigger] r(
        y,
        x,
    ) by {
        if x.1 == y.1 {
            lemma_lex_le_total(x.0, y.0);
        }
    }
}

/// The ranked prefix of the table's entries: sorted into the ranking
/// order and cut to `limit` rows.
pub open spec fn rank_spec(es: Seq<(Seq<char>, u64)>, limit: int) -> Seq<(Seq<char>, u64)> {
    let sorted = es.sort_by(rank_leq_fn());
    if limit < sorted.len() {
        sorted.take(limit)
    } else {
        sorted
    }
}

/// Compares two entries in the ranking order.
fn entry_le(a: &(String, u64), b: &(String, u64)) -> (r: bool)
    ensures
        r == rank_le((a.0@, a.1), (b.0@, b.1)),
{
    if a.1 > b.1 {
        true
    } else if a.1 < b.1 {
        false
    } else {
        str_lex_le(a.0.as_str(), b.0.as_str())
    }
}

/// Inserts one entry into an already ranked vector, keeping the order.
#[verifier::loop_isolation(false)]
fn insert_sorted(v: &mut Vec<(String, u64)>, e: (String, u64))
    requires
        sorted_by(entry_views(old(v)@), rank_leq_fn()),
    ensures
        sorted_by(entry_views(final(v)@), rank_leq_fn()),
        entry_views(final(v)@).to_multiset() == entry_views(old(v)@).to_multiset().insert(
            (e.0@, e.1),
        ),
{
    broadcast use vstd::seq_lib::group_to_multiset_ensures;

    let ghost r = rank_leq_fn();
    let ghost ev = (e.0@, e.1);
    let ghost vs0 = entry_views(old(v)@);
    let n = v.len();
    let mut pos: usize = 0;
    let mut stop: bool = false;
    while pos < n && !stop
        invariant
            0 <= pos <= n,
            *v == *old(v),
            forall|j: int| 0 <= j < pos ==> #[trigger] r(vs0[j], ev),
            stop ==> pos < n && !r(vs0[pos as int], ev),
        decreases n - pos + (if stop {
            0int
        } else {
            1int
        }),
    {
        if entry_le(&v[pos], &e) {
            proof {
                assert(vs0[pos as int] == (v@[pos as int].0@, v@[pos as int].1));
            }
            pos = pos + 1;
        } else {
            proof {
                assert(vs0[pos as int] == (v@[pos as int].0@, v@[pos as int].1));
            }
            stop = true;
        }
    }
    proof {
        lemma_rank_total_ordering();
        if pos < n {
            assert(r(ev, vs0[pos as int]));
        }
    }
    v.insert(pos, e);
    proof {
        let vs1 = entry_views(v@);
        assert(vs1 =~= vs0.insert(pos as int, ev));
        assert forall|i: int, j: int| 0 <= i < j < vs1.len() implies #[trigger] r(
            vs1[i],
            vs1[j],
        ) by {
            if j < pos {
            } else if i < pos && j == pos {
                assert(vs1[i] == vs0[i]);
            } else if i < pos && j > pos {
                assert(vs1[i] == vs0[i] && vs1[j] == vs0[j - 1]);
                if i < j - 1 {
                } else {
                    assert(i == j - 1 && pos <= i);
                }
            } else if i == pos {
                assert(vs1[j] == vs0[j - 1]);
                if j - 1 > pos {
                    assert(r(vs0[pos as int], vs0[j - 1]));
                }
            } else {
                assert(vs1[i] == vs0[i - 1] && vs1[j] == vs0[j - 1]);
            }
        }
    }
}

/// The (key, count) views of the ranked rows.
pub open spec fn row_views(rs: Seq<UrlCount>) -> Seq<(Seq<char>, u64)> {
    rs.map_values(|u: UrlCount| (u.url@, u.count))
}

/// Ranks the whole table: every entry, sorted into the ranking order.
#[verifier::loop_isolation(false)]
pub fn rank_all(table: &FreqTable) -> (r: Vec<UrlCount>)
    requires
        table.wf(),
    ensures
        row_views(r@) == entry_views(table.entries@).sort_by(rank_leq_fn()),
{
    broadcast use vstd::seq_lib::group_to_multiset_ensures;

    let ghost vs = entry_views(table.entries@);
    let n = table.entries.len();
    let mut sorted: Vec<(String, u64)> = Vec::new();
    let mut i: usize = 0;
    proof {
        assert(entry_views(sorted@) =~= Seq::<(Seq<char>, u64)>::empty());
        assert(vs.take(0) =~= Seq::<(Seq<char>, u64)>::empty());
        assert(entry_views(sorted@).to_multiset() =~= vs.take(0).to_multiset());
    }
    while i < n
        invariant
            0 <= i <= n,
            sorted_by(entry_views(sorted@), rank_leq_fn()),
            entry_views(sorted@).to_multiset() == vs.take(i as int).to_multiset(),
        decreases n - i,
    {
        let entry = (table.entries[i].0.clone(), table.entries[i].1);
        proof {
            assert(vs.take(i + 1).drop_last() =~= vs.take(i as int));
            assert(vs.take(i + 1) =~= vs.take(i as int).push(vs[i as int]));
            assert((entry.0@, entry.1) == vs[i as int]);
        }
        insert_sorted(&mut sorted, entry);
        i = i + 1;
    }
    proof {
        assert(vs.take(n as int) =~= vs);
        lemma_rank_total_ordering();
        vs.lemma_sort_by_ensures(rank_leq_fn());
        lemma_sorted_unique(entry_views(sorted@), vs.sort_by(rank_leq_fn()), rank_leq_fn());
    }
    let m = sorted.len();
    let mut out: Vec<UrlCount> = Vec::new();
    let mut j: usize = 0;
    while j < m
        invariant
            0 <= j <= m,
            out@.len() == j,
            forall|k: int|
                0 <= k < j ==> (#[trigger] out@[k]).url@ == entry_views(sorted@)[k].0 && out@[
                    k
                ].count == entry_views(sorted@)[k].1,
        decreases m - j,
    {
        out.push(UrlCount { url: sorted[j].0.clone(), count: sorted[j].1 });
        j = j + 1;
    }
    proof {
        assert(row_views(out@) =~= entry_views(sorted@));
    }
    out
}

/// Ranks the table and keeps only the top `limit` rows, reporting how
/// many rows were left out: zero when the whole table fit.
#[verifier::loop_isolation(false)]
pub fn top_n(table: &FreqTable, limit: usize) -> (r: (Vec<UrlCount>, usize))
    requires
        table.wf(),
    ensures
        row_views(r.0@) == rank_spec(entry_views(table.entries@), limit as int),
        r.1 == if table.entries@.len() > limit {
            table.entries@.len() - limit
        } else {
            0
        },
{
    let mut all = rank_all(table);
    let total = all.len();
    proof {
        broadcast use vstd::seq_lib::group_to_multiset_ensures;

        lemma_rank_total_ordering();
        let vs = entry_views(table.entries@);
        vs.lemma_sort_by_ensures(rank_leq_fn());
        assert(vs.sort_by(rank_leq_fn()).to_multiset().len() == vs.to_multiset().len());
        assert(vs.sort_by(rank_leq_fn()).len() == vs.len());
        assert(row_views(all@).len() == total);
    }
    let omitted = if total > limit {
        total - limit
    } else {
        0
    };
    if total > limit {
        all.truncate(limit);
        proof {
            assert(row_views(all@) =~= rank_spec(entry_views(table.entries@), limit as int));
        }
    }
    (all, omitted)
}

/// The ranked output depends only on which entries the table holds,
/// never on the order merging happened to leave them in: entry
/// sequences equal as multisets rank identically. With the merge law
/// this makes a re-run of the whole pipeline on unchanged input print
/// identical output.
pub proof fn lemma_rank_deterministic(
    es1: Seq<(Seq<char>, u64)>,
    es2: Seq<(Seq<char>, u64)>,
    limit: int,
)
    requires
        es1.to_multiset() == es2.to_multiset(),
    ensures
        rank_spec(es1, limit) == rank_spec(es2, limit),
{
    lemma_rank_total_ordering();
    es1.lemma_sort_by_ensures(rank_leq_fn());
    es2.lemma_sort_by_ensures(rank_leq_fn());
    lemma_sorted_unique(es1.sort_by(rank_leq_fn()), es2.sort_by(rank_leq_fn()), rank_leq_fn());
}

/// Idempotent re-run: the ranked output is a function of the per-key
/// counts alone. Two well-formed tables that count every key alike —
/// as two runs of the pipeline over an unchanged file set must, by the
/// merge law — rank to the same rows in the same order, with no hidden
/// state left to differ between runs.
pub proof fn lemma_rerun_identical(t1: FreqTable, t2: FreqTable, limit: int)
    requires
        t1.wf(),
        t2.wf(),
        forall|k: Seq<char>| #[trigger] t1.spec_count(k) == t2.spec_count(k),
    ensures
        rank_spec(t1.entries_view(), limit) == rank_spec(t2.entries_view(), limit),
{
    crate::table::lemma_wf_entry_views(t1);
    crate::table::lemma_wf_entry_views(t2);
    assert forall|k: Seq<char>|
        #[trigger] crate::table::count_entries(t1.entries_view(), k) == crate::table::count_entries(
            t2.entries_view(),
            k,
        ) by {
        assert(t1.spec_count(k) == t2.spec_count(k));
    }
    crate::table::lemma_counts_determine_entries(t1.entries_view(), t2.entries_view());
    lemma_rank_deterministic(t1.entries_view(), t2.entries_view(), limit);
}

} // verus!
