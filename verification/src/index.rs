use vstd::prelude::*;
use crate::config::IndexConfig;
use crate::config::MetricChoice;
use crate::config::ScalarChoice;
use crate::record::json_number_count;

verus! {

#[verifier::external_type_specification]
#[verifier::external_body]
pub struct ExIndex(usearch::Index);

/// The key/vector pairs the index holds. Each vector stands under the raw
/// bytes of the JSON array its components were decoded from: the index is
/// built with one vector per key, so its contents are a map.
pub uninterp spec fn index_entries(ix: usearch::Index) -> Map<u64, Seq<u8>>;

/// Relies on usearch::new_index: builds an index from the configuration, one
/// vector per key; a freshly built index holds no entries.
#[verifier::external_body]
fn new_raw(config: &IndexConfig) -> (r: Result<usearch::Index, String>)
    ensures
        match r {
            Ok(ix) => index_entries(ix) == Map::<u64, Seq<u8>>::empty(),
            Err(_) => true,
        },
{
    let metric = match config.metric {
        MetricChoice::Cosine => usearch::MetricKind::Cos, MetricChoice::InnerProduct => usearch::MetricKind::IP,
    };
    let quantization = match config.scalar {
        ScalarChoice::Half => usearch::ScalarKind::F16,
        ScalarChoice::Double => usearch::ScalarKind::F64,
        ScalarChoice::Bit => usearch::ScalarKind::B1,
        ScalarChoice::Int8 => usearch::ScalarKind::I8,
        ScalarChoice::Single => usearch::ScalarKind::F32,
    };
    let options = usearch::IndexOptions {
        dimensions: config.dimensions, metric, quantization, connectivity: config.connectivity,
        expansion_add: config.expansion_add, expansion_search: config.expansion_search, multi: false,
    };
    usearch::new_index(&options).map_err(|e| e.what().to_string())
}

/// Relies on usearch::Index::reserve: grows the reserved capacity, touching no
/// stored vector, and reports catastrophic allocation failure.
#[verifier::external_body]
fn reserve_raw(ix: &mut usearch::Index, capacity: usize) -> (r: Result<(), String>)
    ensures
        index_entries(*final(ix)) == index_entries(*old(ix)),
{
    ix.reserve(capacity).map_err(|e| e.what().to_string())
}

/// Relies on serde_json::from_slice::<Vec<serde_json::Number>>,
/// serde_json::Number::as_f64 and usearch::Index::add, fused because the
/// decoded numbers pass straight from one call to the next: decodes the JSON
/// array and inserts its vector under `key`. True exactly when the vector went
/// in; a failed call leaves the contents as they were.
#[verifier::external_body]
fn add_raw(ix: &mut usearch::Index, key: u64, field: &[u8]) -> (r: bool)
    ensures
        r ==> index_entries(*final(ix)) == index_entries(*old(ix)).insert(key, field@),
        !r ==> index_entries(*final(ix)) == index_entries(*old(ix)),
        r ==> json_number_count(field@) is Some,
{
    match serde_json::from_slice::<Vec<serde_json::Number>>(field) {
        Ok(values) => {
            let floats: Vec<_> = values.iter().map(|n| n.as_f64().unwrap_or_default()).collect();
            ix.add(key, &floats).is_ok()
        },
        Err(_) => false,
    }
}

/// Relies on usearch::Index::save: serializes the index to the path, reading
/// but never changing its contents.
#[verifier::external_body]
fn save_raw(ix: &usearch::Index, path: &str) -> (r: Result<(), String>)
{
    ix.save(path).map_err(|e| e.what().to_string())
}

/// Relies on usearch::Index::size: the number of stored vectors, one per key.
#[verifier::external_body]
fn size_raw(ix: &usearch::Index) -> (r: usize)
    ensures
        r == index_entries(*ix).dom().len(),
{
    ix.size()
}

/// Relies on usearch::Index::contains: whether a vector sits under the key.
#[verifier::external_body]
fn contains_raw(ix: &usearch::Index, key: u64) -> (r: bool)
    ensures
        r == index_entries(*ix).dom().contains(key),
{
    ix.contains(key)
}

/// Relies on usearch::Index::hardware_acceleration: an informational name for
/// the SIMD capability in use, different from machine to machine.
#[verifier::external_body]
fn hardware_raw(ix: &usearch::Index) -> String {
    ix.hardware_acceleration()
}

/// The shared vector index the pipeline fills and saves. Its contents are the
/// map from each inserted key to the raw bytes of the vector's JSON array.
pub struct VectorIndex {
    inner: usearch::Index,
}

impl View for VectorIndex {
    type V = Map<u64, Seq<u8>>;

    closed spec fn view(&self) -> Map<u64, Seq<u8>> {
        index_entries(self.inner)
    }
}

impl VectorIndex {
    /// Builds an empty index from the configuration, or reports why the
    /// external component refused it.
    pub fn create(config: &IndexConfig) -> (r: Result<VectorIndex, String>)
        ensures
            match r {
                Ok(ix) => ix@ == Map::<u64, Seq<u8>>::empty(),
                Err(_) => true,
            },
    {
        match new_raw(config) {
            Ok(inner) => Ok(VectorIndex { inner }),
            Err(e) => Err(e),
        }
    }

    /// Hints the expected total number of vectors, changing no entry. The
    /// count is a hint, never a ceiling; failure is catastrophic and reported.
    pub fn reserve(&mut self, capacity: usize) -> (r: Result<(), String>)
        ensures
            final(self)@ == old(self)@,
    {
        reserve_raw(&mut self.inner, capacity)
    }

    /// Decodes the field's JSON array and inserts its vector under `key`.
    /// True exactly when the entry went in; on failure nothing changes.
    pub fn add_record(&mut self, key: u64, field: &Vec<u8>) -> (r: bool)
        ensures
            r ==> final(self)@ == old(self)@.insert(key, field@),
            !r ==> final(self)@ == old(self)@,
            r ==> json_number_count(field@) is Some,
    {
        add_raw(&mut self.inner, key, field.as_slice())
    }

    /// Serializes the index to the path; even with zero entries the artifact
    /// is written. The contents stay as they were either way.
    pub fn save(&self, path: &str) -> (r: Result<(), String>) {
        save_raw(&self.inner, path)
    }

    /// The number of stored vectors.
    pub fn size(&self) -> (r: usize)
        ensures
            r == self@.dom().len(),
    {
        size_raw(&self.inner)
    }

    /// Whether a vector sits under the key.
    pub fn contains(&self, key: u64) -> (r: bool)
        ensures
            r == self@.dom().contains(key),
    {
        contains_raw(&self.inner, key)
    }

    /// The SIMD capability the external index reports, informational only.
    pub fn hardware_acceleration(&self) -> String {
        hardware_raw(&self.inner)
    }
}

} // verus!
