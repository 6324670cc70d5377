use vector_ingest::record::extract_embedding_field;
use vector_ingest::record::process_line;
use vector_ingest::record::split_fields;
use vector_ingest::record::LineOutcome;

#[test]
fn split_keeps_every_field_in_order() {
    let fields = split_fields(b"a;bb;;c", 59);
    assert_eq!(fields.len(), 4);
    assert_eq!(fields[0], b"a".to_vec());
    assert_eq!(fields[1], b"bb".to_vec());
    assert_eq!(fields[2], b"".to_vec());
    assert_eq!(fields[3], b"c".to_vec());
}

#[test]
fn split_of_empty_line_is_one_empty_field() {
    let fields = split_fields(b"", 59);
    assert_eq!(fields.len(), 1);
    assert_eq!(fields[0], b"".to_vec());
}

#[test]
fn split_with_trailing_delimiter_opens_an_empty_field() {
    let fields = split_fields(b"a;b;", 59);
    assert_eq!(fields.len(), 3);
    assert_eq!(fields[2], b"".to_vec());
}

#[test]
fn embedding_field_is_the_fifth() {
    let field = extract_embedding_field(b"a;b;c;d;[1,2];tail");
    assert_eq!(field, Some(b"[1,2]".to_vec()));
}

#[test]
fn too_few_fields_yield_no_embedding_field() {
    assert_eq!(extract_embedding_field(b"a;b;c;d"), None);
    assert_eq!(extract_embedding_field(b""), None);
}

#[test]
fn valid_vector_of_the_right_length_is_inserted() {
    let line = b"a;b;c;d;[0.5, 1.5];x".to_vec();
    let outcome = process_line(&line, 7, 2);
    match outcome {
        LineOutcome::Insert { key, field } => {
            assert_eq!(key, 7);
            assert_eq!(field, b"[0.5, 1.5]".to_vec());
        }
        other => panic!("expected an insert, got {:?}", other),
    }
}

#[test]
fn malformed_json_is_a_parse_failure_with_content() {
    let line = b"a;b;c;d;not json;x".to_vec();
    let outcome = process_line(&line, 3, 2);
    match outcome {
        LineOutcome::ParseFailure { line_number, content } => {
            assert_eq!(line_number, 3);
            assert_eq!(content, line);
        }
        other => panic!("expected a parse failure, got {:?}", other),
    }
}

#[test]
fn json_that_is_not_an_array_of_numbers_is_a_parse_failure() {
    let object = process_line(&b"a;b;c;d;{\"k\":1};x".to_vec(), 0, 2);
    assert!(matches!(object, LineOutcome::ParseFailure { .. }));
    let strings = process_line(&b"a;b;c;d;[\"1\",\"2\"];x".to_vec(), 0, 2);
    assert!(matches!(strings, LineOutcome::ParseFailure { .. }));
    let bare = process_line(&b"a;b;c;d;42;x".to_vec(), 0, 2);
    assert!(matches!(bare, LineOutcome::ParseFailure { .. }));
}

#[test]
fn short_line_is_a_parse_failure_not_a_crash() {
    let outcome = process_line(&b"only;three;fields".to_vec(), 5, 2);
    assert!(matches!(outcome, LineOutcome::ParseFailure { .. }));
}

#[test]
fn wrong_length_vector_is_dropped_silently() {
    let outcome = process_line(&b"a;b;c;d;[1.0,2.0,3.0];x".to_vec(), 2, 2);
    assert!(matches!(outcome, LineOutcome::DimensionMismatch));
    let short = process_line(&b"a;b;c;d;[1.0];x".to_vec(), 2, 2);
    assert!(matches!(short, LineOutcome::DimensionMismatch));
}
