use vector_ingest::config::IndexConfig;
use vector_ingest::config::MetricChoice;
use vector_ingest::config::ScalarChoice;
use vector_ingest::index::VectorIndex;
use vector_ingest::ingest::apply_outcomes;
use vector_ingest::ingest::precount;
use vector_ingest::ingest::run_pipeline;
use vector_ingest::record::LineOutcome;

fn config(dimensions: usize, metric: MetricChoice) -> IndexConfig {
    IndexConfig {
        dimensions,
        metric,
        scalar: ScalarChoice::Single,
        connectivity: 0,
        expansion_add: 0,
        expansion_search: 0,
    }
}

#[test]
fn three_line_scenario_keeps_one_entry_and_one_diagnostic() {
    let lines: Vec<Vec<u8>> = vec![
        b"a;b;c;d;[0.5, 1.5];x".to_vec(),
        b"a;b;c;d;not json;x".to_vec(),
        b"a;b;c;d;[1.0,2.0,3.0];x".to_vec(),
    ];
    let cfg = config(2, MetricChoice::Cosine);
    let (index, report) =
        run_pipeline(&cfg, &lines, "/tmp/scenario_three_lines.usearch").expect("pipeline must run");
    assert_eq!(report.ingest.attempted, 3);
    assert_eq!(report.ingest.inserted, 1);
    assert_eq!(report.ingest.insert_errors, 0);
    assert_eq!(report.ingest.dimension_mismatches, 1);
    assert_eq!(report.ingest.failures.len(), 1);
    assert_eq!(report.ingest.failures[0].line_number, 1);
    assert_eq!(report.ingest.failures[0].content, lines[1]);
    assert_eq!(report.save_error, None);
    assert_eq!(index.size(), 1);
    assert!(index.contains(0));
    assert!(!index.contains(1));
    assert!(!index.contains(2));
}

#[test]
fn accepted_vector_round_trips_through_the_artifact() {
    let lines: Vec<Vec<u8>> = vec![b"a;b;c;d;[0.5, -1.25];x".to_vec()];
    let cfg = config(2, MetricChoice::InnerProduct);
    let path = "/tmp/round_trip.usearch";
    let (index, report) = run_pipeline(&cfg, &lines, path).expect("pipeline must run");
    assert_eq!(report.ingest.inserted, 1);
    assert_eq!(report.save_error, None);
    assert!(index.contains(0));
    let reloaded = usearch::Index::restore(path).expect("artifact must reload");
    assert_eq!(reloaded.size(), 1);
    let mut buffer = [0f32; 2];
    let found = reloaded.get(0, &mut buffer).expect("key 0 must be stored");
    assert_eq!(found, 1);
    assert_eq!(buffer, [0.5f32, -1.25f32]);
}

#[test]
fn insertions_never_outnumber_the_precount() {
    let lines: Vec<Vec<u8>> = vec![
        b"a;b;c;d;[1];x".to_vec(),
        b"broken".to_vec(),
        b"a;b;c;d;[2];x".to_vec(),
        b"a;b;c;d;[3,4];x".to_vec(),
    ];
    assert_eq!(precount(&lines), 4);
    let cfg = config(1, MetricChoice::Cosine);
    let (_, report) = run_pipeline(&cfg, &lines, "/tmp/precount_bound.usearch").expect("must run");
    assert_eq!(report.ingest.inserted, 2);
    assert!(report.ingest.inserted <= precount(&lines));
}

#[test]
fn insertion_order_does_not_change_the_artifact() {
    let first = LineOutcome::Insert { key: 0, field: b"[0.25, 8.0]".to_vec() };
    let second = LineOutcome::Insert { key: 1, field: b"[-3.5, 0.125]".to_vec() };
    let forward = vec![first, second];
    let backward = vec![
        LineOutcome::Insert { key: 1, field: b"[-3.5, 0.125]".to_vec() },
        LineOutcome::Insert { key: 0, field: b"[0.25, 8.0]".to_vec() },
    ];
    let cfg = config(2, MetricChoice::InnerProduct);

    let mut one = VectorIndex::create(&cfg).expect("index must build");
    one.reserve(2).expect("reserve must succeed");
    let report_one = apply_outcomes(&mut one, &forward);
    one.save("/tmp/order_forward.usearch").expect("save must succeed");

    let mut two = VectorIndex::create(&cfg).expect("index must build");
    two.reserve(2).expect("reserve must succeed");
    let report_two = apply_outcomes(&mut two, &backward);
    two.save("/tmp/order_backward.usearch").expect("save must succeed");

    assert_eq!(report_one.inserted, 2);
    assert_eq!(report_two.inserted, 2);
    assert_eq!(one.size(), two.size());
    let a = usearch::Index::restore("/tmp/order_forward.usearch").expect("must reload");
    let b = usearch::Index::restore("/tmp/order_backward.usearch").expect("must reload");
    for key in 0..2u64 {
        let mut from_a = [0f32; 2];
        let mut from_b = [0f32; 2];
        assert_eq!(a.get(key, &mut from_a).expect("stored"), 1);
        assert_eq!(b.get(key, &mut from_b).expect("stored"), 1);
        assert_eq!(from_a, from_b);
    }
}

#[test]
fn duplicate_key_is_refused_and_leaves_the_entry() {
    let cfg = config(2, MetricChoice::Cosine);
    let mut index = VectorIndex::create(&cfg).expect("index must build");
    index.reserve(2).expect("reserve must succeed");
    assert!(index.add_record(9, &b"[1.0, 2.0]".to_vec()));
    assert!(!index.add_record(9, &b"[3.0, 4.0]".to_vec()));
    assert_eq!(index.size(), 1);
    assert!(index.contains(9));
}

#[test]
fn add_record_refuses_bytes_that_are_no_number_array() {
    let cfg = config(2, MetricChoice::Cosine);
    let mut index = VectorIndex::create(&cfg).expect("index must build");
    index.reserve(1).expect("reserve must succeed");
    assert!(!index.add_record(0, &b"not json".to_vec()));
    assert_eq!(index.size(), 0);
}

#[test]
fn saving_an_empty_index_yields_a_well_formed_artifact() {
    let lines: Vec<Vec<u8>> = Vec::new();
    let cfg = config(2, MetricChoice::Cosine);
    let path = "/tmp/empty_artifact.usearch";
    let (index, report) = run_pipeline(&cfg, &lines, path).expect("pipeline must run");
    assert_eq!(index.size(), 0);
    assert_eq!(report.ingest.attempted, 0);
    assert_eq!(report.save_error, None);
    let reloaded = usearch::Index::restore(path).expect("empty artifact must reload");
    assert_eq!(reloaded.size(), 0);
}

#[test]
fn ingestion_lays_new_entries_over_what_was_there() {
    let cfg = config(2, MetricChoice::Cosine);
    let mut index = VectorIndex::create(&cfg).expect("index must build");
    index.reserve(3).expect("reserve must succeed");
    assert!(index.add_record(100, &b"[9.0, 9.0]".to_vec()));
    let lines: Vec<Vec<u8>> = vec![b"a;b;c;d;[1.0, 2.0];x".to_vec()];
    let report = vector_ingest::ingest::ingest_lines(&mut index, &lines, 2);
    assert_eq!(report.inserted, 1);
    assert_eq!(report.insert_errors, 0);
    assert_eq!(index.size(), 2);
    assert!(index.contains(100));
    assert!(index.contains(0));
}

#[test]
fn a_key_already_taken_counts_as_an_insert_error() {
    let cfg = config(2, MetricChoice::Cosine);
    let mut index = VectorIndex::create(&cfg).expect("index must build");
    index.reserve(2).expect("reserve must succeed");
    assert!(index.add_record(0, &b"[9.0, 9.0]".to_vec()));
    let lines: Vec<Vec<u8>> = vec![b"a;b;c;d;[1.0, 2.0];x".to_vec()];
    let report = vector_ingest::ingest::ingest_lines(&mut index, &lines, 2);
    assert_eq!(report.inserted, 0);
    assert_eq!(report.insert_errors, 1);
    assert_eq!(index.size(), 1);
}
