use vstd::prelude::*;

verus! {

/// The byte that separates the fields of a record: `;`.
pub const FIELD_DELIMITER: u8 = 59;

/// The zero-based position of the field that carries the embedding.
pub const EMBEDDING_FIELD: usize = 4;

/// The views of a sequence of byte vectors.
pub open spec fn views_of(items: Seq<Vec<u8>>) -> Seq<Seq<u8>> {
    items.map_values(|v: Vec<u8>| v@)
}

/// Splitting a byte string at every occurrence of `d`: always at least one
/// field; a trailing `d` opens one more, empty field.
pub open spec fn split_bytes(s: Seq<u8>, d: u8) -> Seq<Seq<u8>>
    decreases s.len(),
{
    if s.len() == 0 {
        seq![Seq::<u8>::empty()]
    } else {
        let prefix = split_bytes(s.drop_last(), d);
        if s.last() == d {
            prefix.push(Seq::empty())
        } else {
            prefix.drop_last().push(prefix.last().push(s.last()))
        }
    }
}

/// Splits a line into its fields at every delimiter byte.
pub fn split_fields(line: &[u8], d: u8) -> (r: Vec<Vec<u8>>)
    ensures
        views_of(r@) == split_bytes(line@, d),
{
    let mut fields: Vec<Vec<u8>> = Vec::new();
    let mut cur: Vec<u8> = Vec::new();
    let mut i: usize = 0;
    proof {
        assert(views_of(fields@).push(cur@) =~= split_bytes(line@.take(0), d));
    }
    while i < line.len()
        invariant
            i <= line@.len(),
            views_of(fields@).push(cur@) == split_bytes(line@.take(i as int), d),
        decreases line@.len() - i,
    {
        let ghost prev_fields = fields@;
        let ghost prev_cur = cur@;
        let b = line[i];
        if b == d {
            fields.push(cur);
            cur = Vec::new();
        } else {
            cur.push(b);
        }
        i += 1;
        proof {
            let t = line@.take(i as int);
            assert(t.drop_last() =~= line@.take(i - 1));
            assert(t.last() == line@[i - 1]);
            if b == d {
                assert(views_of(fields@) =~= views_of(prev_fields).push(prev_cur));
                assert(views_of(fields@).push(cur@) =~= split_bytes(t, d));
            } else {
                assert(views_of(fields@).push(cur@) =~= split_bytes(t, d));
            }
        }
    }
    fields.push(cur);
    proof {
        assert(line@.take(line@.len() as int) =~= line@);
        assert(views_of(fields@) =~= split_bytes(line@, d));
    }
    fields
}

/// The field of a line that should carry the embedding, where the line has
/// enough fields to reach it.
pub open spec fn embedding_field(line: Seq<u8>) -> Option<Seq<u8>> {
    let fields = split_bytes(line, FIELD_DELIMITER);
    if fields.len() > EMBEDDING_FIELD {
        Some(fields[EMBEDDING_FIELD as int])
    } else {
        None
    }
}

/// Picks the embedding field out of a line, if the line reaches it.
pub fn extract_embedding_field(line: &[u8]) -> (r: Option<Vec<u8>>)
    ensures
        match r {
            Some(f) => embedding_field(line@) == Some(f@),
            None => embedding_field(line@) is None,
        },
{
    let mut fields = split_fields(line, FIELD_DELIMITER);
    proof {
        assert(fields@.len() == views_of(fields@).len());
    }
    if fields.len() > EMBEDDING_FIELD {
        let f = fields.remove(EMBEDDING_FIELD);
        proof {
            assert(split_bytes(line@, FIELD_DELIMITER)[EMBEDDING_FIELD as int] == f@);
        }
        Some(f)
    } else {
        None
    }
}

/// How many numbers a JSON array of numbers holds, if the bytes are one.
pub uninterp spec fn json_number_count(bytes: Seq<u8>) -> Option<nat>;

/// Relies on serde_json::from_slice::<Vec<serde_json::Number>>: whether a byte
/// string is a JSON array of numbers, and how many it holds, depends on the
/// bytes alone.
#[verifier::external_body]
fn count_json_numbers(bytes: &[u8]) -> (r: Option<usize>)
    ensures
        match r {
            Some(n) => json_number_count(bytes@) == Some(n as nat),
            None => json_number_count(bytes@) is None,
        },
{
    match serde_json::from_slice::<Vec<serde_json::Number>>(bytes) {
        Ok(values) => Some(values.len()),
        Err(_) => None,
    }
}

/// What becomes of one line: its vector joins the index, or the line is
/// reported as malformed, or it is dropped without a word for carrying a
/// vector of the wrong length.
#[derive(Clone, Copy, PartialEq, Eq, Structural, Debug)]
pub enum LineJudgment {
    Accepted,
    ParseFailure,
    DimensionMismatch,
}

/// The judgment a line earns against the configured dimension: no reachable
/// embedding field or no JSON array of numbers is a parse failure; a wrong
/// count of numbers is a dimension mismatch; otherwise the line is accepted.
pub open spec fn judge_line(line: Seq<u8>, dim: nat) -> LineJudgment {
    match embedding_field(line) {
        None => LineJudgment::ParseFailure,
        Some(field) => match json_number_count(field) {
            None => LineJudgment::ParseFailure,
            Some(n) => if n == dim {
                LineJudgment::Accepted
            } else {
                LineJudgment::DimensionMismatch
            },
        },
    }
}

/// The embedding field of a line that has one; empty otherwise.
pub open spec fn line_vector(line: Seq<u8>) -> Seq<u8> {
    match embedding_field(line) {
        Some(field) => field,
        None => Seq::empty(),
    }
}

/// The outcome of processing one line.
#[derive(Debug)]
pub enum LineOutcome {
    /// The line's vector, as the raw bytes of its JSON array, to be stored
    /// under the line's ordinal.
    Insert { key: u64, field: Vec<u8> },
    /// The line could not be parsed; it is reported with its content.
    ParseFailure { line_number: u64, content: Vec<u8> },
    /// The vector had the wrong number of components; dropped silently.
    DimensionMismatch,
}

/// Whether an outcome is the one the line earns.
pub open spec fn outcome_matches(line: Seq<u8>, ordinal: u64, dim: nat, oc: LineOutcome) -> bool {
    match oc {
        LineOutcome::Insert { key, field } => judge_line(line, dim) == LineJudgment::Accepted
            && key == ordinal && field@ == line_vector(line),
        LineOutcome::ParseFailure { line_number, content } => judge_line(line, dim)
            == LineJudgment::ParseFailure && line_number == ordinal && content@ == line,
        LineOutcome::DimensionMismatch => judge_line(line, dim)
            == LineJudgment::DimensionMismatch,
    }
}

/// A byte-for-byte copy.
pub(crate) fn copy_bytes(s: &Vec<u8>) -> (r: Vec<u8>)
    ensures
        r@ == s@,
{
    let mut r: Vec<u8> = Vec::new();
    let mut i: usize = 0;
    while i < s.len()
        invariant
            i <= s@.len(),
            r@ == s@.take(i as int),
        decreases s@.len() - i,
    {
        r.push(s[i]);
        i += 1;
        proof {
            assert(s@.take(i as int) =~= s@.take(i - 1).push(s@[i - 1]));
        }
    }
    proof {
        assert(s@.take(s@.len() as int) =~= s@);
    }
    r
}

/// Processes one line: splits it, picks the embedding field, asks whether it
/// is a JSON array of numbers, and checks the count against the configured
/// dimension. Never aborts: every malformed line becomes a reported failure.
pub fn process_line(line: &Vec<u8>, ordinal: u64, dim: usize) -> (r: LineOutcome)
    ensures
        outcome_matches(line@, ordinal, dim as nat, r),
{
    match extract_embedding_field(line.as_slice()) {
        None => LineOutcome::ParseFailure { line_number: ordinal, content: copy_bytes(line) },
        Some(field) => match count_json_numbers(field.as_slice()) {
            None => LineOutcome::ParseFailure { line_number: ordinal, content: copy_bytes(line) },
            Some(n) => if n == dim {
                LineOutcome::Insert { key: ordinal, field }
            } else {
                LineOutcome::DimensionMismatch
            },
        },
    }
}

} // verus!
