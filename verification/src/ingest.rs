use vstd::prelude::*;
use crate::config::IndexConfig;
use crate::index::VectorIndex;
use crate::record::LineJudgment;
use crate::record::LineOutcome;
use crate::record::copy_bytes;
use crate::record::judge_line;
use crate::record::line_vector;
use crate::record::outcome_matches;
use crate::record::process_line;
use crate::record::views_of;

verus! {

/// The contents after inserting the given key/vector pairs in order.
pub open spec fn insert_all(m: Map<u64, Seq<u8>>, ops: Seq<(u64, Seq<u8>)>) -> Map<u64, Seq<u8>>
    decreases ops.len(),
{
    if ops.len() == 0 {
        m
    } else {
        insert_all(m.insert(ops[0].0, ops[0].1), ops.drop_first())
    }
}

/// The key/vector pairs the outcomes ask to insert, in order.
pub open spec fn inserts_of(outcomes: Seq<LineOutcome>) -> Seq<(u64, Seq<u8>)>
    decreases outcomes.len(),
{
    if outcomes.len() == 0 {
        Seq::empty()
    } else {
        let rest = inserts_of(outcomes.drop_last());
        match outcomes.last() {
            LineOutcome::Insert { key, field } => rest.push((key, field@)),
            _ => rest,
        }
    }
}

/// The reported failures among the outcomes, as ordinal/content pairs, in order.
pub open spec fn failures_of(outcomes: Seq<LineOutcome>) -> Seq<(u64, Seq<u8>)>
    decreases outcomes.len(),
{
    if outcomes.len() == 0 {
        Seq::empty()
    } else {
        let rest = failures_of(outcomes.drop_last());
        match outcomes.last() {
            LineOutcome::ParseFailure { line_number, content } => rest.push(
                (line_number, content@),
            ),
            _ => rest,
        }
    }
}

/// How many outcomes drop their line silently for a wrong vector length.
pub open spec fn mismatches_of(outcomes: Seq<LineOutcome>) -> nat
    decreases outcomes.len(),
{
    if outcomes.len() == 0 {
        0
    } else {
        mismatches_of(outcomes.drop_last()) + match outcomes.last() {
            LineOutcome::DimensionMismatch => 1nat,
            _ => 0nat,
        }
    }
}

/// The key/vector pairs the lines put into the index: every accepted line's
/// vector, keyed by the line's ordinal, in line order.
pub open spec fn planned_inserts(lines: Seq<Seq<u8>>, dim: nat) -> Seq<(u64, Seq<u8>)>
    decreases lines.len(),
{
    if lines.len() == 0 {
        Seq::empty()
    } else {
        let rest = planned_inserts(lines.drop_last(), dim);
        if judge_line(lines.last(), dim) == LineJudgment::Accepted {
            rest.push(((lines.len() - 1) as u64, line_vector(lines.last())))
        } else {
            rest
        }
    }
}

/// The contents the lines leave in an index that starts empty: one entry per
/// accepted line, keyed by the line's ordinal.
pub open spec fn planned_map(lines: Seq<Seq<u8>>, dim: nat) -> Map<u64, Seq<u8>>
    decreases lines.len(),
{
    if lines.len() == 0 {
        Map::empty()
    } else {
        let m = planned_map(lines.drop_last(), dim);
        if judge_line(lines.last(), dim) == LineJudgment::Accepted {
            m.insert((lines.len() - 1) as u64, line_vector(lines.last()))
        } else {
            m
        }
    }
}

/// The diagnostics the lines owe: one ordinal/content pair per line whose
/// field is not a JSON array of numbers, in line order, and no other.
pub open spec fn planned_failures(lines: Seq<Seq<u8>>, dim: nat) -> Seq<(u64, Seq<u8>)>
    decreases lines.len(),
{
    if lines.len() == 0 {
        Seq::empty()
    } else {
        let rest = planned_failures(lines.drop_last(), dim);
        if judge_line(lines.last(), dim) == LineJudgment::ParseFailure {
            rest.push(((lines.len() - 1) as u64, lines.last()))
        } else {
            rest
        }
    }
}

/// How many of the lines are dropped silently for a wrong vector length.
pub open spec fn planned_mismatches(lines: Seq<Seq<u8>>, dim: nat) -> nat
    decreases lines.len(),
{
    if lines.len() == 0 {
        0
    } else {
        planned_mismatches(lines.drop_last(), dim) + if judge_line(lines.last(), dim)
            == LineJudgment::DimensionMismatch {
            1nat
        } else {
            0nat
        }
    }
}

/// Whether some pair carries the key.
pub open spec fn has_key(ops: Seq<(u64, Seq<u8>)>, k: u64) -> bool {
    exists|j: int| 0 <= j < ops.len() && (#[trigger] ops[j]).0 == k
}

/// Whether no two pairs carry the same key.
pub open spec fn distinct_keys(ops: Seq<(u64, Seq<u8>)>) -> bool {
    forall|j1: int, j2: int|
        0 <= j1 < j2 < ops.len() ==> (#[trigger] ops[j1]).0 != (#[trigger] ops[j2]).0
}

pub proof fn lemma_insert_all_push(
    m: Map<u64, Seq<u8>>,
    ops: Seq<(u64, Seq<u8>)>,
    op: (u64, Seq<u8>),
)
    ensures
        insert_all(m, ops.push(op)) == insert_all(m, ops).insert(op.0, op.1),
    decreases ops.len(),
{
    if ops.len() == 0 {
        assert(ops.push(op).drop_first() =~= Seq::<(u64, Seq<u8>)>::empty());
        assert(ops.push(op)[0] == op);
        assert(insert_all(m, ops.push(op)) == insert_all(
            m.insert(op.0, op.1),
            Seq::<(u64, Seq<u8>)>::empty(),
        ));
        assert(insert_all(m.insert(op.0, op.1), Seq::<(u64, Seq<u8>)>::empty()) == m.insert(
            op.0,
            op.1,
        ));
    } else {
        assert(ops.push(op).drop_first() =~= ops.drop_first().push(op));
        assert(ops.push(op)[0] == ops[0]);
        lemma_insert_all_push(m.insert(ops[0].0, ops[0].1), ops.drop_first(), op);
        assert(insert_all(m, ops.push(op)) == insert_all(
            m.insert(ops[0].0, ops[0].1),
            ops.drop_first().push(op),
        ));
        assert(insert_all(m, ops) == insert_all(m.insert(ops[0].0, ops[0].1), ops.drop_first()));
    }
}

/// Outcomes that match their lines plan exactly what the lines plan.
pub proof fn lemma_outcomes_plan(lines: Seq<Seq<u8>>, dim: nat, outcomes: Seq<LineOutcome>)
    requires
        outcomes.len() == lines.len(),
        forall|j: int|
            0 <= j < lines.len() ==> outcome_matches(
                lines[j],
                j as u64,
                dim,
                #[trigger] outcomes[j],
            ),
    ensures
        inserts_of(outcomes) == planned_inserts(lines, dim),
        failures_of(outcomes) == planned_failures(lines, dim),
        mismatches_of(outcomes) == planned_mismatches(lines, dim),
    decreases lines.len(),
{
    if lines.len() > 0 {
        let n = lines.len() - 1;
        assert(forall|j: int|
            0 <= j < n ==> #[trigger] outcomes.drop_last()[j] == outcomes[j]);
        assert(forall|j: int| 0 <= j < n ==> #[trigger] lines.drop_last()[j] == lines[j]);
        lemma_outcomes_plan(lines.drop_last(), dim, outcomes.drop_last());
        assert(outcome_matches(lines[n as int], n as u64, dim, outcomes[n as int]));
    }
}

/// Applying the planned inserts one by one leaves exactly the planned map
/// laid over what was there before.
pub proof fn lemma_insert_all_is_union(m0: Map<u64, Seq<u8>>, lines: Seq<Seq<u8>>, dim: nat)
    ensures
        insert_all(m0, planned_inserts(lines, dim)) == m0.union_prefer_right(
            planned_map(lines, dim),
        ),
    decreases lines.len(),
{
    if lines.len() == 0 {
        assert(m0.union_prefer_right(Map::<u64, Seq<u8>>::empty()) =~= m0);
    } else {
        lemma_insert_all_is_union(m0, lines.drop_last(), dim);
        if judge_line(lines.last(), dim) == LineJudgment::Accepted {
            let key = (lines.len() - 1) as u64;
            let v = line_vector(lines.last());
            lemma_insert_all_push(m0, planned_inserts(lines.drop_last(), dim), (key, v));
            assert(m0.union_prefer_right(planned_map(lines.drop_last(), dim)).insert(key, v)
                =~= m0.union_prefer_right(planned_map(lines.drop_last(), dim).insert(key, v)));
        }
    }
}

/// Every accepted line has exactly its vector in the planned contents, under
/// its own ordinal.
pub proof fn lemma_accepted_line_indexed(lines: Seq<Seq<u8>>, dim: nat, i: int)
    requires
        0 <= i < lines.len(),
        lines.len() <= u64::MAX,
        judge_line(lines[i], dim) == LineJudgment::Accepted,
    ensures
        planned_map(lines, dim).contains_key(i as u64),
        planned_map(lines, dim)[i as u64] == line_vector(lines[i]),
    decreases lines.len(),
{
    let n = lines.len() - 1;
    if i < n {
        assert(lines.drop_last()[i] == lines[i]);
        lemma_accepted_line_indexed(lines.drop_last(), dim, i);
    }
}

/// Every key of the planned contents is the ordinal of one of the lines.
pub proof fn lemma_planned_map_keys(lines: Seq<Seq<u8>>, dim: nat)
    requires
        lines.len() <= u64::MAX,
    ensures
        forall|k: u64| #[trigger] planned_map(lines, dim).contains_key(k) ==> k < lines.len(),
    decreases lines.len(),
{
    if lines.len() > 0 {
        lemma_planned_map_keys(lines.drop_last(), dim);
        assert forall|k: u64| #[trigger] planned_map(lines, dim).contains_key(k) implies k
            < lines.len() by {
            if judge_line(lines.last(), dim) == LineJudgment::Accepted {
                if k != (lines.len() - 1) as u64 {
                    assert(planned_map(lines.drop_last(), dim).contains_key(k));
                }
            } else {
                assert(planned_map(lines.drop_last(), dim).contains_key(k));
            }
        }
    }
}

/// A line that is not accepted puts nothing into the planned contents.
pub proof fn lemma_rejected_line_not_indexed(lines: Seq<Seq<u8>>, dim: nat, i: int)
    requires
        0 <= i < lines.len(),
        lines.len() <= u64::MAX,
        judge_line(lines[i], dim) != LineJudgment::Accepted,
    ensures
        !planned_map(lines, dim).contains_key(i as u64),
    decreases lines.len(),
{
    let n = lines.len() - 1;
    assert(i as u64 == i && n as u64 == n);
    if i < n {
        assert(lines.drop_last()[i] == lines[i]);
        lemma_rejected_line_not_indexed(lines.drop_last(), dim, i);
        if judge_line(lines.last(), dim) == LineJudgment::Accepted {
            assert(planned_map(lines, dim) == planned_map(lines.drop_last(), dim).insert(
                n as u64,
                line_vector(lines.last()),
            ));
        } else {
            assert(planned_map(lines, dim) == planned_map(lines.drop_last(), dim));
        }
    } else {
        assert(lines.last() == lines[i]);
        lemma_planned_map_keys(lines.drop_last(), dim);
        assert(planned_map(lines, dim) == planned_map(lines.drop_last(), dim));
    }
}

/// Every planned diagnostic points at a line whose field failed to parse, and
/// carries that line's content.
pub proof fn lemma_planned_failures_sound(lines: Seq<Seq<u8>>, dim: nat)
    requires
        lines.len() <= u64::MAX,
    ensures
        forall|j: int|
            0 <= j < planned_failures(lines, dim).len() ==> {
                let p = #[trigger] planned_failures(lines, dim)[j];
                0 <= p.0 < lines.len() && judge_line(lines[p.0 as int], dim)
                    == LineJudgment::ParseFailure && p.1 == lines[p.0 as int]
            },
    decreases lines.len(),
{
    if lines.len() > 0 {
        let n = lines.len() - 1;
        lemma_planned_failures_sound(lines.drop_last(), dim);
        assert(forall|j: int| 0 <= j < n ==> #[trigger] lines.drop_last()[j] == lines[j]);
    }
}

/// A line whose field fails to parse gets its diagnostic, ordinal and content.
pub proof fn lemma_parse_failure_reported(lines: Seq<Seq<u8>>, dim: nat, i: int)
    requires
        0 <= i < lines.len(),
        lines.len() <= u64::MAX,
        judge_line(lines[i], dim) == LineJudgment::ParseFailure,
    ensures
        planned_failures(lines, dim).contains((i as u64, lines[i])),
        !planned_map(lines, dim).contains_key(i as u64),
    decreases lines.len(),
{
    lemma_rejected_line_not_indexed(lines, dim, i);
    let n = lines.len() - 1;
    if i < n {
        assert(lines.drop_last()[i] == lines[i]);
        lemma_parse_failure_reported(lines.drop_last(), dim, i);
        let rest = planned_failures(lines.drop_last(), dim);
        let j = choose|j: int| 0 <= j < rest.len() && rest[j] == (i as u64, lines[i]);
        assert(planned_failures(lines, dim)[j] == (i as u64, lines[i]));
    } else {
        let all = planned_failures(lines, dim);
        assert(all.last() == (i as u64, lines[i]));
    }
}

/// A line with a vector of the wrong length is dropped in silence: no entry in
/// the planned contents, and no diagnostic either.
pub proof fn lemma_dimension_mismatch_silent(lines: Seq<Seq<u8>>, dim: nat, i: int)
    requires
        0 <= i < lines.len(),
        lines.len() <= u64::MAX,
        judge_line(lines[i], dim) == LineJudgment::DimensionMismatch,
    ensures
        !planned_map(lines, dim).contains_key(i as u64),
        forall|j: int|
            0 <= j < planned_failures(lines, dim).len() ==> (#[trigger] planned_failures(
                lines,
                dim,
            )[j]).0 != i as u64,
{
    lemma_rejected_line_not_indexed(lines, dim, i);
    lemma_planned_failures_sound(lines, dim);
}

/// The planned inserts carry one key per accepted line: all keys are line
/// ordinals, and no key repeats.
pub proof fn lemma_planned_inserts_distinct(lines: Seq<Seq<u8>>, dim: nat)
    requires
        lines.len() <= u64::MAX,
    ensures
        distinct_keys(planned_inserts(lines, dim)),
        planned_inserts(lines, dim).len() <= lines.len(),
        forall|j: int|
            0 <= j < planned_inserts(lines, dim).len() ==> (#[trigger] planned_inserts(
                lines,
                dim,
            )[j]).0 < lines.len(),
    decreases lines.len(),
{
    if lines.len() > 0 {
        lemma_planned_inserts_distinct(lines.drop_last(), dim);
    }
}

pub proof fn lemma_insert_all_facts(m0: Map<u64, Seq<u8>>, ops: Seq<(u64, Seq<u8>)>)
    requires
        distinct_keys(ops),
    ensures
        forall|k: u64|
            #[trigger] insert_all(m0, ops).contains_key(k) <==> (m0.contains_key(k) || has_key(
                ops,
                k,
            )),
        forall|j: int|
            0 <= j < ops.len() ==> insert_all(m0, ops).contains_key((#[trigger] ops[j]).0)
                && insert_all(m0, ops)[ops[j].0] == ops[j].1,
        forall|k: u64|
            !has_key(ops, k) && m0.contains_key(k) ==> insert_all(m0, ops)[k] == m0[k],
    decreases ops.len(),
{
    if ops.len() == 0 {
    } else {
        let op = ops[0];
        let m1 = m0.insert(op.0, op.1);
        let rest = ops.drop_first();
        assert(forall|j: int| 0 <= j < rest.len() ==> #[trigger] rest[j] == ops[j + 1]);
        lemma_insert_all_facts(m1, rest);
        assert forall|k: u64| has_key(ops, k) implies (k == op.0 || has_key(rest, k)) by {
            let j = choose|j: int| 0 <= j < ops.len() && (#[trigger] ops[j]).0 == k;
            if j > 0 {
                assert(rest[j - 1].0 == k);
            }
        }
        assert forall|k: u64| has_key(rest, k) implies has_key(ops, k) by {
            let j = choose|j: int| 0 <= j < rest.len() && (#[trigger] rest[j]).0 == k;
            assert(ops[j + 1].0 == k);
        }
        assert(has_key(ops, op.0)) by {
            assert(ops[0].0 == op.0);
        }
        assert(!has_key(rest, op.0));
        assert forall|j: int|
            0 <= j < ops.len() implies insert_all(m0, ops).contains_key(
            (#[trigger] ops[j]).0,
        ) && insert_all(m0, ops)[ops[j].0] == ops[j].1 by {
            if j == 0 {
                assert(m1.contains_key(op.0) && m1[op.0] == op.1);
            } else {
                assert(rest[j - 1] == ops[j]);
            }
        }
    }
}

/// Law: two insertion orders of the same set of key/vector pairs, each key
/// carried once, leave identical index contents. The key of a record is its
/// line ordinal, fixed before any worker runs, so however many workers share
/// the ingestion, the index they fill is the same.
pub proof fn lemma_insertion_order_irrelevant(
    m0: Map<u64, Seq<u8>>,
    ops1: Seq<(u64, Seq<u8>)>,
    ops2: Seq<(u64, Seq<u8>)>,
)
    requires
        distinct_keys(ops1),
        distinct_keys(ops2),
        forall|p: (u64, Seq<u8>)| ops1.contains(p) <==> ops2.contains(p),
    ensures
        insert_all(m0, ops1) == insert_all(m0, ops2),
{
    lemma_insert_all_facts(m0, ops1);
    lemma_insert_all_facts(m0, ops2);
    assert forall|k: u64| has_key(ops1, k) implies has_key(ops2, k) by {
        let j = choose|j: int| 0 <= j < ops1.len() && (#[trigger] ops1[j]).0 == k;
        assert(ops1.contains(ops1[j]));
        let j2 = choose|j2: int| 0 <= j2 < ops2.len() && ops2[j2] == ops1[j];
        assert((#[trigger] ops2[j2]).0 == k);
    }
    assert forall|k: u64| has_key(ops2, k) implies has_key(ops1, k) by {
        let j = choose|j: int| 0 <= j < ops2.len() && (#[trigger] ops2[j]).0 == k;
        assert(ops2.contains(ops2[j]));
        let j1 = choose|j1: int| 0 <= j1 < ops1.len() && ops1[j1] == ops2[j];
        assert((#[trigger] ops1[j1]).0 == k);
    }
    assert forall|j: int|
        0 <= j < ops1.len() implies insert_all(m0, ops2)[(#[trigger] ops1[j]).0]
        == ops1[j].1 by {
        assert(ops1.contains(ops1[j]));
        let j2 = choose|j2: int| 0 <= j2 < ops2.len() && ops2[j2] == ops1[j];
        assert(insert_all(m0, ops2)[ops2[j2].0] == ops2[j2].1);
    }
    assert forall|k: u64|
        insert_all(m0, ops1).contains_key(k) implies insert_all(m0, ops1)[k] == insert_all(
        m0,
        ops2,
    )[k] by {
        if has_key(ops1, k) {
            let j = choose|j: int| 0 <= j < ops1.len() && (#[trigger] ops1[j]).0 == k;
            assert(insert_all(m0, ops1)[ops1[j].0] == ops1[j].1);
        }
    }
    assert(insert_all(m0, ops1) =~= insert_all(m0, ops2));
}

/// One reported failure: the ordinal of the malformed line and its content.
#[derive(Debug)]
pub struct FailureReport {
    pub line_number: u64,
    pub content: Vec<u8>,
}

/// The ordinal/content views of a failure list.
pub open spec fn failure_views(failures: Seq<FailureReport>) -> Seq<(u64, Seq<u8>)> {
    failures.map_values(|f: FailureReport| (f.line_number, f.content@))
}

/// What one ingestion pass did.
#[derive(Debug)]
pub struct IngestReport {
    /// How many lines were processed.
    pub attempted: usize,
    /// How many vectors went into the index.
    pub inserted: usize,
    /// How many lines were dropped silently for a wrong vector length.
    pub dimension_mismatches: usize,
    /// How many accepted vectors the external index refused.
    pub insert_errors: usize,
    /// The diagnostics owed: one per malformed line, with its content.
    pub failures: Vec<FailureReport>,
}

/// Applies outcomes to the index, in the order given: inserts every accepted
/// vector under its key, collects a diagnostic per parse failure, and counts
/// the silent drops. When the external index refuses nothing, the contents
/// afterwards are exactly the requested inserts laid over what was there.
pub fn apply_outcomes(ix: &mut VectorIndex, outcomes: &Vec<LineOutcome>) -> (r: IngestReport)
    ensures
        r.insert_errors == 0 ==> final(ix)@ == insert_all(old(ix)@, inserts_of(outcomes@)),
        failure_views(r.failures@) == failures_of(outcomes@),
        r.attempted == outcomes@.len(),
        r.inserted + r.insert_errors == inserts_of(outcomes@).len(),
        r.dimension_mismatches == mismatches_of(outcomes@),
{
    let mut inserted: usize = 0;
    let mut insert_errors: usize = 0;
    let mut dimension_mismatches: usize = 0;
    let mut failures: Vec<FailureReport> = Vec::new();
    let mut i: usize = 0;
    proof {
        assert(failure_views(failures@) =~= failures_of(outcomes@.take(0)));
    }
    while i < outcomes.len()
        invariant
            i <= outcomes@.len(),
            inserted <= i,
            insert_errors <= i,
            dimension_mismatches <= i,
            insert_errors == 0 ==> ix@ == insert_all(old(ix)@, inserts_of(outcomes@.take(i as int))),
            failure_views(failures@) == failures_of(outcomes@.take(i as int)),
            inserted + insert_errors == inserts_of(outcomes@.take(i as int)).len(),
            dimension_mismatches == mismatches_of(outcomes@.take(i as int)),
        decreases outcomes@.len() - i,
    {
        let ghost prev = outcomes@.take(i as int);
        let ghost prev_failures = failures@;
        match &outcomes[i] {
            LineOutcome::Insert { key, field } => {
                let ghost prev_ix = ix@;
                let ok = ix.add_record(*key, field);
                if ok {
                    inserted += 1;
                } else {
                    insert_errors += 1;
                }
                proof {
                    if insert_errors == 0 {
                        lemma_insert_all_push(old(ix)@, inserts_of(prev), (*key, field@));
                    }
                }
            },
            LineOutcome::ParseFailure { line_number, content } => {
                failures.push(FailureReport { line_number: *line_number, content: copy_bytes(content) });
            },
            LineOutcome::DimensionMismatch => {
                dimension_mismatches += 1;
            },
        }
        i += 1;
        proof {
            let t = outcomes@.take(i as int);
            assert(t.drop_last() =~= prev);
            assert(t.last() == outcomes@[i - 1]);
            assert(failure_views(failures@) =~= match outcomes@[i - 1] {
                LineOutcome::ParseFailure { line_number, content } => failure_views(
                    prev_failures,
                ).push((line_number, content@)),
                _ => failure_views(prev_failures),
            });
        }
    }
    proof {
        assert(outcomes@.take(outcomes@.len() as int) =~= outcomes@);
    }
    IngestReport { attempted: outcomes.len(), inserted, dimension_mismatches, insert_errors, failures }
}

/// Counts the lines of one full pass over the input, the capacity hint for
/// the index reservation.
pub fn precount(lines: &Vec<Vec<u8>>) -> (n: usize)
    ensures
        n == lines@.len(),
{
    let mut n: usize = 0;
    let mut i: usize = 0;
    while i < lines.len()
        invariant
            i <= lines@.len(),
            n == i,
        decreases lines@.len() - i,
    {
        n += 1;
        i += 1;
    }
    n
}

/// Processes every line against the configured dimension, in order, and
/// applies the outcomes to the index. Whenever the external index refuses
/// nothing, the contents afterwards are exactly the planned entries — one per
/// accepted line, keyed by its ordinal — laid over what was there before; the
/// diagnostics are exactly the malformed lines; and no more vectors go in
/// than lines came (the precount bounds the insertions).
pub fn ingest_lines(ix: &mut VectorIndex, lines: &Vec<Vec<u8>>, dim: usize) -> (r: IngestReport)
    ensures
        r.insert_errors == 0 ==> final(ix)@ == old(ix)@.union_prefer_right(
            planned_map(views_of(lines@), dim as nat),
        ),
        failure_views(r.failures@) == planned_failures(views_of(lines@), dim as nat),
        r.attempted == lines@.len(),
        r.inserted + r.insert_errors == planned_inserts(views_of(lines@), dim as nat).len(),
        r.inserted + r.insert_errors <= lines@.len(),
        r.dimension_mismatches == planned_mismatches(views_of(lines@), dim as nat),
{
    let mut outcomes: Vec<LineOutcome> = Vec::new();
    let mut i: usize = 0;
    while i < lines.len()
        invariant
            i <= lines@.len(),
            outcomes@.len() == i,
            forall|j: int|
                0 <= j < i ==> outcome_matches(
                    views_of(lines@)[j],
                    j as u64,
                    dim as nat,
                    #[trigger] outcomes@[j],
                ),
        decreases lines@.len() - i,
    {
        let oc = process_line(&lines[i], i as u64, dim);
        outcomes.push(oc);
        i += 1;
    }
    proof {
        lemma_outcomes_plan(views_of(lines@), dim as nat, outcomes@);
        lemma_insert_all_is_union(old(ix)@, views_of(lines@), dim as nat);
        lemma_planned_inserts_distinct(views_of(lines@), dim as nat);
    }
    apply_outcomes(ix, &outcomes)
}

/// What a whole pipeline run produced.
#[derive(Debug)]
pub struct PipelineReport {
    pub ingest: IngestReport,
    /// Why the final save failed, where it did.
    pub save_error: Option<String>,
}

/// The whole run against an already loaded input: builds the index from the
/// configuration, reserves the precounted capacity, ingests every line, and
/// saves the artifact — even an empty one — to the output path. Fatal setup
/// failures come back as the error; a save failure is only reported.
pub fn run_pipeline(config: &IndexConfig, lines: &Vec<Vec<u8>>, output: &str) -> (r: Result<
    (VectorIndex, PipelineReport),
    String,
>)
    ensures
        match r {
            Ok((ix, rep)) => {
                &&& rep.ingest.insert_errors == 0 ==> ix@ == planned_map(
                    views_of(lines@),
                    config.dimensions as nat,
                )
                &&& failure_views(rep.ingest.failures@) == planned_failures(
                    views_of(lines@),
                    config.dimensions as nat,
                )
                &&& rep.ingest.attempted == lines@.len()
                &&& rep.ingest.inserted + rep.ingest.insert_errors <= lines@.len()
                &&& rep.ingest.inserted + rep.ingest.insert_errors == planned_inserts(
                    views_of(lines@),
                    config.dimensions as nat,
                ).len()
                &&& rep.ingest.dimension_mismatches == planned_mismatches(
                    views_of(lines@),
                    config.dimensions as nat,
                )
            },
            Err(_) => true,
        },
{
    let mut ix = match VectorIndex::create(config) {
        Ok(ix) => ix,
        Err(e) => {
            return Err(e);
        },
    };
    let capacity = precount(lines);
    match ix.reserve(capacity) {
        Ok(()) => (),
        Err(e) => {
            return Err(e);
        },
    }
    let report = ingest_lines(&mut ix, lines, config.dimensions);
    proof {
        assert(Map::<u64, Seq<u8>>::empty().union_prefer_right(
            planned_map(views_of(lines@), config.dimensions as nat),
        ) =~= planned_map(views_of(lines@), config.dimensions as nat));
    }
    let save_error = match ix.save(output) {
        Ok(()) => None,
        Err(e) => Some(e),
    };
    Ok((ix, PipelineReport { ingest: report, save_error }))
}

} // verus!
