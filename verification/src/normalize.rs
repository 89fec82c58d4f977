//! Value ranges and normalisation onto the unit interval.

use vstd::prelude::*;
use crate::error::MeshError;
use crate::ratio::{half, Ratio};

verus! {

/// The interval of sample values that the colour scale spans.
#[derive(Clone, Copy, Debug, PartialEq, Eq, Structural)]
pub struct ValueRange {
    pub min: i32,
    pub max: i32,
}

/// The least present sample of `v`, if any sample is present.
pub open spec fn present_min(v: Seq<Option<i32>>) -> Option<i32>
    decreases v.len(),
{
    if v.len() == 0 {
        None
    } else {
        match (present_min(v.drop_last()), v.last()) {
            (None, last) => last,
            (Some(m), None) => Some(m),
            (Some(m), Some(x)) => Some(if x < m { x } else { m }),
        }
    }
}

/// The greatest present sample of `v`, if any sample is present.
pub open spec fn present_max(v: Seq<Option<i32>>) -> Option<i32>
    decreases v.len(),
{
    if v.len() == 0 {
        None
    } else {
        match (present_max(v.drop_last()), v.last()) {
            (None, last) => last,
            (Some(m), None) => Some(m),
            (Some(m), Some(x)) => Some(if x > m { x } else { m }),
        }
    }
}

/// The range from the least to the greatest present sample of `v`.
pub open spec fn auto_range(v: Seq<Option<i32>>) -> Option<ValueRange> {
    match (present_min(v), present_max(v)) {
        (Some(lo), Some(hi)) => Some(ValueRange { min: lo, max: hi }),
        _ => None,
    }
}

/// The position of `v` in the range from `min` to `max`, as numerator and
/// denominator: `(v - min) / (max - min)`, written with a positive
/// denominator, and one half where the range is a single value.
pub open spec fn unit_position(v: int, min: int, max: int) -> (int, int) {
    if min < max {
        (v - min, max - min)
    } else if max < min {
        (min - v, min - max)
    } else {
        (1, 2)
    }
}

/// A sample normalised against `range`; a missing sample stays missing.
pub open spec fn normalized_sample(v: Option<i32>, range: ValueRange) -> Option<Ratio> {
    match v {
        None => None,
        Some(x) => {
            let (num, den) = unit_position(x as int, range.min as int, range.max as int);
            Some(Ratio { num: num as i128, den: den as i128 })
        },
    }
}

/// Every sample of `v` normalised against `range`.
pub open spec fn normalized(v: Seq<Option<i32>>, range: ValueRange) -> Seq<Option<Ratio>> {
    Seq::new(v.len(), |i: int| normalized_sample(v[i], range))
}

/// The range that `normalize` works with: the explicit one where given, else
/// the range of the present samples.
pub open spec fn effective_range(v: Seq<Option<i32>>, explicit: Option<ValueRange>) -> Option<
    ValueRange,
> {
    match explicit {
        Some(range) => Some(range),
        None => auto_range(v),
    }
}

/// Normalised samples together with the range they were normalised against.
#[derive(Debug, PartialEq, Eq)]
pub struct Normalized {
    pub values: Vec<Option<Ratio>>,
    pub range: ValueRange,
}

/// What `normalize` returns, over sequences.
pub open spec fn normalize_spec(v: Seq<Option<i32>>, explicit: Option<ValueRange>) -> Result<
    (Seq<Option<Ratio>>, ValueRange),
    MeshError,
> {
    match effective_range(v, explicit) {
        Some(range) => Ok((normalized(v, range), range)),
        None => Err(MeshError::EmptyRange),
    }
}

/// `present_min` is none exactly when no sample is present; otherwise it is a
/// present sample that no present sample is below.
pub proof fn lemma_present_min(v: Seq<Option<i32>>)
    ensures
        present_min(v) is None <==> forall|i: int| 0 <= i < v.len() ==> #[trigger] v[i] is None,
        present_min(v) matches Some(m) ==> {
            &&& exists|i: int| 0 <= i < v.len() && #[trigger] v[i] == Some(m)
            &&& forall|i: int| 0 <= i < v.len() ==> (#[trigger] v[i] matches Some(x) ==> m <= x)
        },
    decreases v.len(),
{
    if v.len() > 0 {
        let front = v.drop_last();
        lemma_present_min(front);
        assert forall|i: int| 0 <= i < front.len() implies #[trigger] front[i] == v[i] by {}
        match present_min(v) {
            None => {
                assert forall|i: int| 0 <= i < v.len() implies #[trigger] v[i] is None by {
                    if i < front.len() {
                        assert(front[i] is None);
                    }
                }
            },
            Some(m) => {
                if v.last() == Some(m) {
                    assert(v[v.len() - 1] == Some(m));
                } else {
                    let w = choose|i: int| 0 <= i < front.len() && #[trigger] front[i] == Some(m);
                    assert(v[w] == Some(m));
                }
                assert forall|i: int| 0 <= i < v.len() implies (#[trigger] v[i] matches Some(x)
                    ==> m <= x) by {
                    if i < front.len() {
                        assert(front[i] == v[i]);
                    }
                }
            },
        }
    }
}

/// `present_max` is none exactly when no sample is present; otherwise it is a
/// present sample that no present sample is above.
pub proof fn lemma_present_max(v: Seq<Option<i32>>)
    ensures
        present_max(v) is None <==> forall|i: int| 0 <= i < v.len() ==> #[trigger] v[i] is None,
        present_max(v) matches Some(m) ==> {
            &&& exists|i: int| 0 <= i < v.len() && #[trigger] v[i] == Some(m)
            &&& forall|i: int| 0 <= i < v.len() ==> (#[trigger] v[i] matches Some(x) ==> x <= m)
        },
    decreases v.len(),
{
    if v.len() > 0 {
        let front = v.drop_last();
        lemma_present_max(front);
        assert forall|i: int| 0 <= i < front.len() implies #[trigger] front[i] == v[i] by {}
        match present_max(v) {
            None => {
                assert forall|i: int| 0 <= i < v.len() implies #[trigger] v[i] is None by {
                    if i < front.len() {
                        assert(front[i] is None);
                    }
                }
            },
            Some(m) => {
                if v.last() == Some(m) {
                    assert(v[v.len() - 1] == Some(m));
                } else {
                    let w = choose|i: int| 0 <= i < front.len() && #[trigger] front[i] == Some(m);
                    assert(v[w] == Some(m));
                }
                assert forall|i: int| 0 <= i < v.len() implies (#[trigger] v[i] matches Some(x)
                    ==> x <= m) by {
                    if i < front.len() {
                        assert(front[i] == v[i]);
                    }
                }
            },
        }
    }
}

/// Passing the range of the present samples explicitly changes nothing.
pub proof fn lemma_explicit_auto_range_changes_nothing(v: Seq<Option<i32>>)
    requires
        auto_range(v) is Some,
    ensures
        normalize_spec(v, auto_range(v)) == normalize_spec(v, None),
{
}

/// Normalising the numerator of a normalised value against the range from
/// zero to its denominator gives the same value again.
pub proof fn lemma_normalizing_twice_changes_nothing(v: int, min: int, max: int)
    ensures
        ({
            let (num, den) = unit_position(v, min, max);
            unit_position(num, 0, den) == (num, den)
        }),
{
}

/// Against a range of a single value every present sample is normalised to one
/// half, and only the missing samples are missing afterwards.
pub proof fn lemma_constant_range_gives_half(v: Seq<Option<i32>>, range: ValueRange)
    requires
        range.min == range.max,
    ensures
        forall|i: int|
            0 <= i < v.len() ==> #[trigger] normalized(v, range)[i] == (if v[i] is Some {
                Some(half())
            } else {
                None
            }),
{
}

/// Normalised against the range of the present samples, every present sample
/// lies in the closed unit interval.
pub proof fn lemma_auto_range_gives_unit_interval(v: Seq<Option<i32>>, i: int)
    requires
        0 <= i < v.len(),
        v[i] is Some,
    ensures
        auto_range(v) matches Some(range) && normalized(v, range)[i] matches Some(u) && u.wf()
            && u.in_unit_interval(),
{
    lemma_present_min(v);
    lemma_present_max(v);
}

/// The range from the least to the greatest present sample.
pub fn value_range(values: &Vec<Option<i32>>) -> (r: Result<ValueRange, MeshError>)
    ensures
        r == match auto_range(values@) {
            Some(range) => Ok::<ValueRange, MeshError>(range),
            None => Err(MeshError::EmptyRange),
        },
{
    let mut least: Option<i32> = None;
    let mut greatest: Option<i32> = None;
    let mut i: usize = 0;
    while i < values.len()
        invariant
            i <= values.len(),
            least == present_min(values@.take(i as int)),
            greatest == present_max(values@.take(i as int)),
        decreases values.len() - i,
    {
        proof {
            assert(values@.take(i + 1).drop_last() =~= values@.take(i as int));
        }
        match values[i] {
            Some(x) => {
                least =
                match least {
                    Some(m) => Some(if x < m { x } else { m }),
                    None => Some(x),
                };
                greatest =
                match greatest {
                    Some(m) => Some(if x > m { x } else { m }),
                    None => Some(x),
                };
            },
            None => {},
        }
        i += 1;
    }
    proof {
        assert(values@.take(values.len() as int) =~= values@);
        lemma_present_min(values@);
        lemma_present_max(values@);
    }
    match (least, greatest) {
        (Some(lo), Some(hi)) => Ok(ValueRange { min: lo, max: hi }),
        _ => Err(MeshError::EmptyRange),
    }
}

/// Normalises one present sample against `range`.
pub fn normalize_sample(x: i32, range: ValueRange) -> (u: Ratio)
    ensures
        Some(u) == normalized_sample(Some(x), range),
        u.wf(),
{
    let v = x as i128;
    let lo = range.min as i128;
    let hi = range.max as i128;
    if lo < hi {
        Ratio { num: v - lo, den: hi - lo }
    } else if hi < lo {
        Ratio { num: lo - v, den: lo - hi }
    } else {
        Ratio { num: 1, den: 2 }
    }
}

/// Maps samples to the unit interval.
///
/// With an explicit range the samples are normalised against it as given.
/// Without one they are normalised against the range of the present samples,
/// and the call fails with `EmptyRange` when none is present.  A sample `v`
/// becomes `(v - min) / (max - min)`; when the range is a single value every
/// present sample becomes one half.  Missing samples stay missing.
pub fn normalize(values: &Vec<Option<i32>>, explicit_range: Option<ValueRange>) -> (r: Result<
    Normalized,
    MeshError,
>)
    ensures
        r is Err <==> explicit_range is None && forall|i: int|
            0 <= i < values.len() ==> #[trigger] values[i] is None,
        match r {
            Ok(n) => normalize_spec(values@, explicit_range) == Ok::<
                (Seq<Option<Ratio>>, ValueRange),
                MeshError,
            >((n.values@, n.range)),
            Err(e) => normalize_spec(values@, explicit_range) == Err::<
                (Seq<Option<Ratio>>, ValueRange),
                MeshError,
            >(e),
        },
        r matches Ok(n) ==> n.range.min == n.range.max ==> forall|i: int|
            0 <= i < values.len() ==> #[trigger] n.values[i] == (if values[i] is Some {
                Some(half())
            } else {
                None
            }),
{
    proof {
        lemma_present_min(values@);
        lemma_present_max(values@);
    }
    let range = match explicit_range {
        Some(range) => range,
        None => match value_range(values) {
            Ok(range) => range,
            Err(e) => {
                return Err(e);
            },
        },
    };
    let mut out: Vec<Option<Ratio>> = Vec::new();
    let mut i: usize = 0;
    while i < values.len()
        invariant
            i <= values.len(),
            out.len() == i,
            forall|x: int| 0 <= x < i ==> #[trigger] out[x] == normalized_sample(values[x], range),
        decreases values.len() - i,
    {
        let u = match values[i] {
            Some(x) => Some(normalize_sample(x, range)),
            None => None,
        };
        out.push(u);
        i += 1;
    }
    proof {
        assert(out@ =~= normalized(values@, range));
        if range.min == range.max {
            lemma_constant_range_gives_half(values@, range);
        }
    }
    Ok(Normalized { values: out, range })
}

} // verus!
