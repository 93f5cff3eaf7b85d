//! The aggregation laws: every line that parses is counted exactly
//! once, however the lines are partitioned into worker batches and in
//! whatever order the workers' tables reach the shared total.

use vstd::multiset::Multiset;
use vstd::prelude::*;
use vstd::seq_lib::*;

use crate::pipeline::{keys_of, line_key, occurrences, KeyStrategy};
use crate::table::sat_add;
use crate::tokenizer::LineFormat;

verus! {

/// A whole occurrence count clamped to the table's range.
pub open spec fn sat_of_nat(n: nat) -> u64 {
    if n > u64::MAX {
        u64::MAX
    } else {
        n as u64
    }
}

/// Merging two clamped counts clamps their true sum.
pub proof fn lemma_sat_of_nat_add(a: nat, b: nat)
    ensures
        sat_add(sat_of_nat(a), sat_of_nat(b)) == sat_of_nat(a + b),
{
}

/// The number of times key `k` is contributed over a sequence of
/// worker batches, each batch counted on its own.
pub open spec fn batch_occurrences(
    batches: Seq<Seq<Seq<char>>>,
    fmt: LineFormat,
    strat: KeyStrategy,
    k: Seq<char>,
) -> nat
    decreases batches.len(),
{
    if batches.len() == 0 {
        0
    } else {
        occurrences(keys_of(batches.first(), fmt, strat), k) + batch_occurrences(
            batches.drop_first(),
            fmt,
            strat,
            k,
        )
    }
}

/// The shared table's count for key `k` after the workers' tables are
/// folded in, one after the other in batch order: each worker counts
/// its own batch from an empty table, and the merge adds saturating.
pub open spec fn merged_count(
    batches: Seq<Seq<Seq<char>>>,
    fmt: LineFormat,
    strat: KeyStrategy,
    k: Seq<char>,
) -> u64
    decreases batches.len(),
{
    if batches.len() == 0 {
        0
    } else {
        sat_add(
            sat_of_nat(occurrences(keys_of(batches.first(), fmt, strat), k)),
            merged_count(batches.drop_first(), fmt, strat, k),
        )
    }
}

/// One more worker's batch merges its clamped count on top of the
/// total so far.
pub proof fn lemma_merged_count_push(
    batches: Seq<Seq<Seq<char>>>,
    b: Seq<Seq<char>>,
    fmt: LineFormat,
    strat: KeyStrategy,
    k: Seq<char>,
)
    ensures
        merged_count(batches.push(b), fmt, strat, k) == sat_add(
            merged_count(batches, fmt, strat, k),
            sat_of_nat(occurrences(keys_of(b, fmt, strat), k)),
        ),
    decreases batches.len(),
{
    if batches.len() == 0 {
        assert(batches.push(b).first() == b);
        assert(batches.push(b).drop_first() =~= Seq::<Seq<Seq<char>>>::empty());
        assert(merged_count(batches.push(b), fmt, strat, k) == sat_add(
            sat_of_nat(occurrences(keys_of(b, fmt, strat), k)),
            merged_count(Seq::<Seq<Seq<char>>>::empty(), fmt, strat, k),
        ));
        assert(merged_count(Seq::<Seq<Seq<char>>>::empty(), fmt, strat, k) == 0);
    } else {
        assert(batches.push(b).first() == batches.first());
        assert(batches.push(b).drop_first() =~= batches.drop_first().push(b));
        assert(merged_count(batches.push(b), fmt, strat, k) == sat_add(
            sat_of_nat(occurrences(keys_of(batches.first(), fmt, strat), k)),
            merged_count(batches.drop_first().push(b), fmt, strat, k),
        ));
        lemma_merged_count_push(batches.drop_first(), b, fmt, strat, k);
        crate::table::lemma_sat_add_assoc(
            sat_of_nat(occurrences(keys_of(batches.first(), fmt, strat), k)),
            merged_count(batches.drop_first(), fmt, strat, k),
            sat_of_nat(occurrences(keys_of(b, fmt, strat), k)),
        );
        assert(merged_count(batches, fmt, strat, k) == sat_add(
            sat_of_nat(occurrences(keys_of(batches.first(), fmt, strat), k)),
            merged_count(batches.drop_first(), fmt, strat, k),
        ));
    }
}

/// `filter_map` distributes over concatenation.
proof fn lemma_filter_map_append<A, B>(a: Seq<A>, b: Seq<A>, f: spec_fn(A) -> Option<B>)
    ensures
        (a + b).filter_map(f) == a.filter_map(f) + b.filter_map(f),
    decreases b.len(),
{
    if b.len() == 0 {
        assert(a + b =~= a);
        assert(a.filter_map(f) + b.filter_map(f) =~= a.filter_map(f));
    } else {
        lemma_filter_map_append(a, b.drop_last(), f);
        assert((a + b).drop_last() =~= a + b.drop_last());
        assert((a + b).last() == b.last());
        match f(b.last()) {
            Some(v) => {
                assert((a + b).filter_map(f) =~= (a + b.drop_last()).filter_map(f) + seq![v]);
                assert(b.filter_map(f) =~= b.drop_last().filter_map(f) + seq![v]);
                assert(a.filter_map(f) + (b.drop_last().filter_map(f) + seq![v]) =~= (
                a.filter_map(f) + b.drop_last().filter_map(f)) + seq![v]);
            },
            None => {
                assert((a + b).filter_map(f) =~= (a + b.drop_last()).filter_map(f));
                assert(b.filter_map(f) =~= b.drop_last().filter_map(f));
            },
        }
    }
}

/// Removing one element removes exactly its contribution from the
/// filtered multiset.
proof fn lemma_filter_map_remove<A, B>(s: Seq<A>, i: int, f: spec_fn(A) -> Option<B>)
    requires
        0 <= i < s.len(),
    ensures
        match f(s[i]) {
            Some(v) => s.filter_map(f).to_multiset() == s.remove(i).filter_map(
                f,
            ).to_multiset().insert(v),
            None => s.filter_map(f).to_multiset() == s.remove(i).filter_map(f).to_multiset(),
        },
{
    broadcast use group_to_multiset_ensures;
    broadcast use vstd::multiset::group_multiset_axioms;

    let pre = s.take(i);
    let post = s.skip(i + 1);
    let mid = seq![s[i]];
    assert(s =~= pre + mid + post);
    assert(s.remove(i) =~= pre + post);
    lemma_filter_map_append(pre + mid, post, f);
    lemma_filter_map_append(pre, mid, f);
    lemma_filter_map_append(pre, post, f);
    Seq::lemma_filter_map_singleton(s[i], f);
    lemma_multiset_commutative(pre.filter_map(f) + mid.filter_map(f), post.filter_map(f));
    lemma_multiset_commutative(pre.filter_map(f), mid.filter_map(f));
    lemma_multiset_commutative(pre.filter_map(f), post.filter_map(f));
    match f(s[i]) {
        Some(v) => {
            assert(mid.filter_map(f) =~= seq![v]);
            assert(seq![v].to_multiset() =~= Multiset::<B>::empty().insert(v));
            assert(s.filter_map(f).to_multiset() =~= s.remove(i).filter_map(
                f,
            ).to_multiset().insert(v));
        },
        None => {
            assert(mid.filter_map(f) =~= Seq::<B>::empty());
            assert(s.filter_map(f).to_multiset() =~= s.remove(i).filter_map(f).to_multiset());
        },
    }
}

/// Lines equal as a multiset filter to keys equal as a multiset: the
/// order lines are handed to workers never changes what is counted.
proof fn lemma_filter_map_multiset<A, B>(s1: Seq<A>, s2: Seq<A>, f: spec_fn(A) -> Option<B>)
    requires
        s1.to_multiset() == s2.to_multiset(),
    ensures
        s1.filter_map(f).to_multiset() == s2.filter_map(f).to_multiset(),
    decreases s1.len(),
{
    broadcast use group_to_multiset_ensures;
    broadcast use vstd::multiset::group_multiset_axioms;

    if s1.len() == 0 {
        assert(s1.to_multiset().len() == 0);
        assert(s2.len() == 0);
        assert(s1 =~= s2);
    } else {
        let x = s1.last();
        assert(s1.contains(x));
        assert(s1.to_multiset().count(x) > 0);
        assert(s2.to_multiset().count(x) > 0);
        assert(s2.contains(x));
        let i = choose|i: int| 0 <= i < s2.len() && s2[i] == x;
        assert(s1.remove(s1.len() - 1) =~= s1.drop_last());
        assert(s1.drop_last().to_multiset() == s1.to_multiset().remove(x)) by {
            assert(s1.remove(s1.len() - 1).to_multiset() == s1.to_multiset().remove(
                s1[s1.len() - 1],
            ));
        }
        assert(s2.remove(i).to_multiset() == s2.to_multiset().remove(x));
        lemma_filter_map_multiset(s1.drop_last(), s2.remove(i), f);
        lemma_filter_map_remove(s1, s1.len() - 1, f);
        lemma_filter_map_remove(s2, i, f);
        assert(s1.remove(s1.len() - 1).filter_map(f).to_multiset() == s1.drop_last().filter_map(
            f,
        ).to_multiset());
    }
}

/// Exactly-once accounting: summing each batch's occurrences of `k`
/// counts exactly the occurrences of `k` over all lines pooled
/// together, whatever the partition was.
pub proof fn lemma_batches_count_exactly_once(
    batches: Seq<Seq<Seq<char>>>,
    fmt: LineFormat,
    strat: KeyStrategy,
    k: Seq<char>,
)
    ensures
        batch_occurrences(batches, fmt, strat, k) == occurrences(
            keys_of(batches.flatten(), fmt, strat),
            k,
        ),
    decreases batches.len(),
{
    broadcast use group_to_multiset_ensures;
    broadcast use vstd::multiset::group_multiset_axioms;

    let f = |l: Seq<char>| line_key(l, fmt, strat);
    if batches.len() == 0 {
        assert(batches.flatten() =~= Seq::<Seq<char>>::empty());
        assert(keys_of(batches.flatten(), fmt, strat) =~= Seq::<Seq<char>>::empty());
        assert(Seq::<Seq<char>>::empty().to_multiset().count(k) == 0);
    } else {
        lemma_batches_count_exactly_once(batches.drop_first(), fmt, strat, k);
        assert(batches.flatten() == batches.first() + batches.drop_first().flatten());
        lemma_filter_map_append(batches.first(), batches.drop_first().flatten(), f);
        lemma_multiset_commutative(
            keys_of(batches.first(), fmt, strat),
            keys_of(batches.drop_first().flatten(), fmt, strat),
        );
    }
}

/// The merged table's count is the clamped total of the batches'
/// occurrences.
pub proof fn lemma_merged_count_total(
    batches: Seq<Seq<Seq<char>>>,
    fmt: LineFormat,
    strat: KeyStrategy,
    k: Seq<char>,
)
    ensures
        merged_count(batches, fmt, strat, k) == sat_of_nat(batch_occurrences(batches, fmt, strat, k)),
    decreases batches.len(),
{
    if batches.len() > 0 {
        lemma_merged_count_total(batches.drop_first(), fmt, strat, k);
        lemma_sat_of_nat_add(
            occurrences(keys_of(batches.first(), fmt, strat), k),
            batch_occurrences(batches.drop_first(), fmt, strat, k),
        );
    }
}

/// Merge commutativity: two runs whose worker batches pool the same
/// multiset of lines — any partition of the lines, any worker
/// completion order — merge to the same count for every key.
pub proof fn lemma_merge_partition_independent(
    batches1: Seq<Seq<Seq<char>>>,
    batches2: Seq<Seq<Seq<char>>>,
    fmt: LineFormat,
    strat: KeyStrategy,
    k: Seq<char>,
)
    requires
        batches1.flatten().to_multiset() == batches2.flatten().to_multiset(),
    ensures
        merged_count(batches1, fmt, strat, k) == merged_count(batches2, fmt, strat, k),
{
    broadcast use group_to_multiset_ensures;
    broadcast use vstd::multiset::group_multiset_axioms;

    let f = |l: Seq<char>| line_key(l, fmt, strat);
    lemma_batches_count_exactly_once(batches1, fmt, strat, k);
    lemma_batches_count_exactly_once(batches2, fmt, strat, k);
    lemma_filter_map_multiset(batches1.flatten(), batches2.flatten(), f);
    lemma_merged_count_total(batches1, fmt, strat, k);
    lemma_merged_count_total(batches2, fmt, strat, k);
}

} // verus!
