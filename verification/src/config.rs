use vstd::prelude::*;

verus! {

/// The distance function the index compares vectors with.
#[derive(Clone, Copy, PartialEq, Eq, Structural, Debug)]
pub enum MetricChoice {
    Cosine,
    InnerProduct,
}

/// The stored precision of each vector component.
#[derive(Clone, Copy, PartialEq, Eq, Structural, Debug)]
pub enum ScalarChoice {
    Half,
    Double,
    Bit,
    Int8,
    Single,
}

/// Everything the index is built from, fixed once at startup.
#[derive(Clone, Copy, PartialEq, Eq, Structural, Debug)]
pub struct IndexConfig {
    /// The exact number of components every stored vector must have.
    pub dimensions: usize,
    pub metric: MetricChoice,
    pub scalar: ScalarChoice,
    /// Graph connectivity tuning knob; zero asks the index to choose.
    pub connectivity: usize,
    /// Insertion expansion tuning knob; zero asks the index to choose.
    pub expansion_add: usize,
    /// Search expansion tuning knob; zero asks the index to choose.
    pub expansion_search: usize,
}

/// One byte folded to ASCII lower case.
pub open spec fn lower_byte(b: u8) -> u8 {
    if 65 <= b && b <= 90 {
        (b + 32) as u8
    } else {
        b
    }
}

/// A byte string folded to ASCII lower case.
pub open spec fn ascii_lower(s: Seq<u8>) -> Seq<u8> {
    s.map_values(|b: u8| lower_byte(b))
}

/// The metric a name selects: `cos` (in any case) picks cosine similarity,
/// anything else picks the inner product.
pub open spec fn metric_for(name: Seq<u8>) -> MetricChoice {
    if ascii_lower(name) == seq![99u8, 111u8, 115u8] {
        MetricChoice::Cosine
    } else {
        MetricChoice::InnerProduct
    }
}

/// The scalar precision a name selects: `f16`/`16`, `f64`/`64`, `b1`/`1`,
/// `i8`/`8` (in any case), anything else the 32-bit default.
pub open spec fn scalar_for(name: Seq<u8>) -> ScalarChoice {
    let low = ascii_lower(name);
    if low == seq![102u8, 49u8, 54u8] || low == seq![49u8, 54u8] {
        ScalarChoice::Half
    } else if low == seq![102u8, 54u8, 52u8] || low == seq![54u8, 52u8] {
        ScalarChoice::Double
    } else if low == seq![98u8, 49u8] || low == seq![49u8] {
        ScalarChoice::Bit
    } else if low == seq![105u8, 56u8] || low == seq![56u8] {
        ScalarChoice::Int8
    } else {
        ScalarChoice::Single
    }
}

/// Folds a byte string to ASCII lower case.
pub fn to_ascii_lower(s: &[u8]) -> (r: Vec<u8>)
    ensures
        r@ == ascii_lower(s@),
{
    let mut r: Vec<u8> = Vec::new();
    let mut i: usize = 0;
    while i < s.len()
        invariant
            i <= s@.len(),
            r@ == ascii_lower(s@.take(i as int)),
        decreases s@.len() - i,
    {
        let b = s[i];
        if 65 <= b && b <= 90 {
            r.push(b + 32);
        } else {
            r.push(b);
        }
        i += 1;
        proof {
            assert(s@.take(i as int).drop_last() =~= s@.take(i - 1));
            assert(ascii_lower(s@.take(i as int)) =~= ascii_lower(s@.take(i - 1)).push(
                lower_byte(s@[i - 1]),
            ));
        }
    }
    proof {
        assert(s@.take(s@.len() as int) =~= s@);
    }
    r
}

/// True exactly when the bytes are `a` alone.
fn eq1(s: &Vec<u8>, a: u8) -> (r: bool)
    ensures
        r == (s@ == seq![a]),
{
    let r = s.len() == 1 && s[0] == a;
    proof {
        if r {
            assert(s@ =~= seq![a]);
        }
    }
    r
}

/// True exactly when the bytes are `a` then `b`.
fn eq2(s: &Vec<u8>, a: u8, b: u8) -> (r: bool)
    ensures
        r == (s@ == seq![a, b]),
{
    let r = s.len() == 2 && s[0] == a && s[1] == b;
    proof {
        if r {
            assert(s@ =~= seq![a, b]);
        }
    }
    r
}

/// True exactly when the bytes are `a`, `b`, then `c`.
fn eq3(s: &Vec<u8>, a: u8, b: u8, c: u8) -> (r: bool)
    ensures
        r == (s@ == seq![a, b, c]),
{
    let r = s.len() == 3 && s[0] == a && s[1] == b && s[2] == c;
    proof {
        if r {
            assert(s@ =~= seq![a, b, c]);
        }
    }
    r
}

/// Maps a metric name from the command line to the metric it selects.
pub fn metric_kind(name: &[u8]) -> (r: MetricChoice)
    ensures
        r == metric_for(name@),
{
    let low = to_ascii_lower(name);
    if eq3(&low, 99, 111, 115) {
        MetricChoice::Cosine
    } else {
        MetricChoice::InnerProduct
    }
}

/// Maps a scalar name from the command line to the precision it selects.
pub fn scalar_kind(name: &[u8]) -> (r: ScalarChoice)
    ensures
        r == scalar_for(name@),
{
    let low = to_ascii_lower(name);
    if eq3(&low, 102, 49, 54) || eq2(&low, 49, 54) {
        ScalarChoice::Half
    } else if eq3(&low, 102, 54, 52) || eq2(&low, 54, 52) {
        ScalarChoice::Double
    } else if eq2(&low, 98, 49) || eq1(&low, 49) {
        ScalarChoice::Bit
    } else if eq2(&low, 105, 56) || eq1(&low, 56) {
        ScalarChoice::Int8
    } else {
        ScalarChoice::Single
    }
}

} // verus!
