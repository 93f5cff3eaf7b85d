//! The per-worker parsing pipeline: turn each line of a file into a
//! record, derive its aggregation key, and count it in a worker-local
//! frequency table. A line that fails to parse is skipped and counted,
//! and never aborts the batch.

use vstd::prelude::*;
use vstd::seq_lib::*;

use crate::log::{expanded_ok, quoted_expand, quoted_ok, Log, LogParseError};
use crate::table::{sat_add, FreqTable};
use crate::tokenizer::{tokenize, tokenize_spec, views_of, LineFormat};

verus! {

/// How the aggregation key is derived from a record: request method
/// joined with the URL, or the full request descriptor.
#[derive(Clone, Copy, Debug, PartialEq, Eq, Structural)]
pub enum KeyStrategy {
    MethodUrl,
    FullRequest,
}

/// The expanded field sequence an input line denotes under the
/// declared format.
pub open spec fn line_fields(line: Seq<char>, fmt: LineFormat) -> Seq<Seq<char>> {
    match fmt {
        LineFormat::Quoted => quoted_expand(tokenize_spec(line, LineFormat::Quoted)),
        LineFormat::Expanded => tokenize_spec(line, LineFormat::Expanded),
    }
}

/// Whether an input line parses into a record under the declared
/// format.
pub open spec fn line_parses(line: Seq<char>, fmt: LineFormat) -> bool {
    match fmt {
        LineFormat::Quoted => quoted_ok(tokenize_spec(line, LineFormat::Quoted)),
        LineFormat::Expanded => expanded_ok(tokenize_spec(line, LineFormat::Expanded)),
    }
}

/// The aggregation key derived from an expanded field sequence.
pub open spec fn key_of_fields(fs: Seq<Seq<char>>, strat: KeyStrategy) -> Seq<char> {
    match strat {
        KeyStrategy::MethodUrl => fs[12] + seq![' '] + fs[13],
        KeyStrategy::FullRequest => fs[12] + seq![' '] + fs[13] + seq![' '] + fs[14],
    }
}

/// The key one line contributes: its record's key when it parses, and
/// nothing otherwise.
pub open spec fn line_key(line: Seq<char>, fmt: LineFormat, strat: KeyStrategy) -> Option<
    Seq<char>,
> {
    if line_parses(line, fmt) {
        Some(key_of_fields(line_fields(line, fmt), strat))
    } else {
        None
    }
}

/// The keys of the lines of one batch that parse, in order.
pub open spec fn keys_of(lines: Seq<Seq<char>>, fmt: LineFormat, strat: KeyStrategy) -> Seq<
    Seq<char>,
> {
    lines.filter_map(|l: Seq<char>| line_key(l, fmt, strat))
}

/// How often key `k` occurs in a key sequence; a multiset count, so
/// the order of the lines never matters.
pub open spec fn occurrences(keys: Seq<Seq<char>>, k: Seq<char>) -> nat {
    keys.to_multiset().count(k)
}

/// Addition of a whole occurrence count, saturating at `u64::MAX`.
pub open spec fn sat_add_nat(a: u64, n: nat) -> u64 {
    if a + n > u64::MAX {
        u64::MAX
    } else {
        (a + n) as u64
    }
}

/// Adding occurrences one at a time is adding them all at once.
pub proof fn lemma_sat_add_nat_step(a: u64, n: nat)
    ensures
        sat_add(sat_add_nat(a, n), 1) == sat_add_nat(a, n + 1),
{
}

/// Parses one line into a record under the declared format.
pub fn parse_line(line: &str, fmt: LineFormat) -> (r: Result<Log, LogParseError>)
    ensures
        r is Ok <==> line_parses(line@, fmt),
        r matches Ok(l) ==> l.field_views() == line_fields(line@, fmt) && l.wf(),
{
    let toks = tokenize(line, fmt);
    match fmt {
        LineFormat::Quoted => Log::from_quoted_fields(&toks),
        LineFormat::Expanded => Log::from_expanded_fields(&toks),
    }
}

/// Derives the aggregation key of one parsed record.
pub fn key_of(l: &Log, strat: KeyStrategy) -> (r: String)
    ensures
        r@ == key_of_fields(l.field_views(), strat),
{
    match strat {
        KeyStrategy::MethodUrl => l.key_method_url(),
        KeyStrategy::FullRequest => l.key_full_request(),
    }
}

/// Tokenizes, parses and counts one line: a line that parses adds one
/// occurrence of its key to the table, and a line that does not parse
/// leaves the table untouched and reports failure.
pub fn process_line(line: &str, fmt: LineFormat, strat: KeyStrategy, table: &mut FreqTable) -> (ok:
    bool)
    requires
        old(table).wf(),
    ensures
        final(table).wf(),
        ok == (line_key(line@, fmt, strat) is Some),
        line_key(line@, fmt, strat) is None ==> *final(table) == *old(table),
        line_key(line@, fmt, strat) matches Some(k) ==> final(table).spec_count(k) == sat_add(
            old(table).spec_count(k),
            1,
        ) && forall|k2: Seq<char>|
            k2 != k ==> final(table).spec_count(k2) == old(table).spec_count(k2),
{
    match parse_line(line, fmt) {
        Ok(l) => {
            let key = key_of(&l, strat);
            table.increment(&key);
            true
        },
        Err(_) => false,
    }
}

/// Processes one worker's batch of lines: every line that parses
/// contributes exactly one occurrence of its key, a line that fails
/// contributes nothing, and the batch reports how many lines it
/// skipped. No synchronization happens here; the table is the
/// worker's own.
#[verifier::loop_isolation(false)]
pub fn process_lines(
    lines: &Vec<String>,
    fmt: LineFormat,
    strat: KeyStrategy,
    table: &mut FreqTable,
) -> (skipped: usize)
    requires
        old(table).wf(),
    ensures
        final(table).wf(),
        forall|k: Seq<char>|
            final(table).spec_count(k) == sat_add_nat(
                old(table).spec_count(k),
                occurrences(keys_of(views_of(lines@), fmt, strat), k),
            ),
        skipped + keys_of(views_of(lines@), fmt, strat).len() == lines@.len(),
{
    let ghost lv = views_of(lines@);
    let ghost f = |l: Seq<char>| line_key(l, fmt, strat);
    let n = lines.len();
    let mut skipped: usize = 0;
    let mut i: usize = 0;
    proof {
        broadcast use vstd::seq_lib::group_to_multiset_ensures;

        assert(lv.take(0) =~= Seq::<Seq<char>>::empty());
        assert(lv.take(0).filter_map(f) =~= Seq::<Seq<char>>::empty());
    }
    while i < n
        invariant
            0 <= i <= n,
            table.wf(),
            skipped + lv.take(i as int).filter_map(f).len() == i,
            forall|k: Seq<char>|
                table.spec_count(k) == sat_add_nat(
                    old(table).spec_count(k),
                    occurrences(lv.take(i as int).filter_map(f), k),
                ),
        decreases n - i,
    {
        let ghost pre_keys = lv.take(i as int).filter_map(f);
        proof {
            lv.lemma_filter_map_take_succ(f, i as int);
            assert(lv[i as int] == lines@[i as int]@);
        }
        let ok = process_line(lines[i].as_str(), fmt, strat, table);
        proof {
            broadcast use vstd::seq_lib::group_to_multiset_ensures;

            match f(lv[i as int]) {
                Some(k0) => {
                    assert(lv.take(i + 1).filter_map(f) =~= pre_keys.push(k0));
                    assert forall|k: Seq<char>|
                        table.spec_count(k) == sat_add_nat(
                            old(table).spec_count(k),
                            occurrences(pre_keys.push(k0), k),
                        ) by {
                        if k == k0 {
                            lemma_sat_add_nat_step(
                                old(table).spec_count(k),
                                occurrences(pre_keys, k),
                            );
                        }
                    }
                },
                None => {
                    assert(lv.take(i + 1).filter_map(f) =~= pre_keys);
                },
            }
        }
        if !ok {
            skipped = skipped + 1;
        }
        i = i + 1;
    }
    proof {
        assert(lv.take(n as int) =~= lv);
    }
    skipped
}

/// The line views of a sequence of worker batches.
pub open spec fn batch_views(bs: Seq<Vec<String>>) -> Seq<Seq<Seq<char>>> {
    bs.map_values(|b: Vec<String>| views_of(b@))
}

/// Runs the whole fan-out / fan-in aggregation sequentially: each
/// batch is one worker's share, counted on a table of its own and then
/// folded into the shared total, exactly as the concurrent run does
/// one worker at a time. The merge law pins the result: every
/// partition of the lines and every completion order gives these same
/// counts.
#[verifier::loop_isolation(false)]
pub fn aggregate_batches(batches: &Vec<Vec<String>>, fmt: LineFormat, strat: KeyStrategy) -> (r:
    FreqTable)
    ensures
        r.wf(),
        forall|k: Seq<char>|
            r.spec_count(k) == crate::laws::merged_count(batch_views(batches@), fmt, strat, k),
{
    let ghost bv = batch_views(batches@);
    let mut shared = FreqTable::new();
    let mut i: usize = 0;
    proof {
        assert(bv.take(0) =~= Seq::<Seq<Seq<char>>>::empty());
    }
    while i < batches.len()
        invariant
            0 <= i <= batches@.len(),
            shared.wf(),
            forall|k: Seq<char>|
                shared.spec_count(k) == crate::laws::merged_count(
                    bv.take(i as int),
                    fmt,
                    strat,
                    k,
                ),
        decreases batches@.len() - i,
    {
        let mut local = FreqTable::new();
        let _skipped: usize = process_lines(&batches[i], fmt, strat, &mut local);
        shared.merge_from(&local);
        proof {
            assert(bv.take(i + 1) =~= bv.take(i as int).push(bv[i as int]));
            assert(bv[i as int] == views_of(batches@[i as int]@));
            assert forall|k: Seq<char>|
                shared.spec_count(k) == crate::laws::merged_count(
                    bv.take(i + 1),
                    fmt,
                    strat,
                    k,
                ) by {
                crate::laws::lemma_merged_count_push(bv.take(i as int), bv[i as int], fmt, strat, k);
                assert(local.spec_count(k) == sat_add_nat(
                    0,
                    occurrences(keys_of(views_of(batches@[i as int]@), fmt, strat), k),
                ));
            }
        }
        i = i + 1;
    }
    proof {
        assert(bv.take(batches@.len() as int) =~= bv);
    }
    shared
}

} // verus!
