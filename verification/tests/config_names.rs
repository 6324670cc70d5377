use vector_ingest::config::metric_kind;
use vector_ingest::config::scalar_kind;
use vector_ingest::config::MetricChoice;
use vector_ingest::config::ScalarChoice;

#[test]
fn metric_cos_in_any_case_is_cosine() {
    assert_eq!(metric_kind(b"cos"), MetricChoice::Cosine);
    assert_eq!(metric_kind(b"COS"), MetricChoice::Cosine);
    assert_eq!(metric_kind(b"Cos"), MetricChoice::Cosine);
}

#[test]
fn metric_anything_else_is_inner_product() {
    assert_eq!(metric_kind(b"ip"), MetricChoice::InnerProduct);
    assert_eq!(metric_kind(b"l2"), MetricChoice::InnerProduct);
    assert_eq!(metric_kind(b""), MetricChoice::InnerProduct);
    assert_eq!(metric_kind(b"cosine"), MetricChoice::InnerProduct);
}

#[test]
fn scalar_names_select_their_precision() {
    assert_eq!(scalar_kind(b"f16"), ScalarChoice::Half);
    assert_eq!(scalar_kind(b"16"), ScalarChoice::Half);
    assert_eq!(scalar_kind(b"F16"), ScalarChoice::Half);
    assert_eq!(scalar_kind(b"f64"), ScalarChoice::Double);
    assert_eq!(scalar_kind(b"64"), ScalarChoice::Double);
    assert_eq!(scalar_kind(b"b1"), ScalarChoice::Bit);
    assert_eq!(scalar_kind(b"1"), ScalarChoice::Bit);
    assert_eq!(scalar_kind(b"i8"), ScalarChoice::Int8);
    assert_eq!(scalar_kind(b"8"), ScalarChoice::Int8);
}

#[test]
fn scalar_anything_else_is_single_precision() {
    assert_eq!(scalar_kind(b"f32"), ScalarChoice::Single);
    assert_eq!(scalar_kind(b"32"), ScalarChoice::Single);
    assert_eq!(scalar_kind(b""), ScalarChoice::Single);
    assert_eq!(scalar_kind(b"half"), ScalarChoice::Single);
}
