//! The statistics of a sequence of measurements: the mean, and how many
//! measurements lie in the band below it and in the band above it.

use crate::binary64::Binary64;
use vstd::prelude::*;

verus! {

/// The mean of the measurements, or the state of there being none to average.
#[derive(Clone, Copy, Debug, PartialEq, Eq, Structural)]
pub enum Mean {
    Undefined,
    Defined(Binary64),
}

impl Mean {
    /// The mean that a number stands for: none where the number is a NaN.
    pub open spec fn spec_of(value: Binary64) -> Mean {
        if value.is_nan() {
            Mean::Undefined
        } else {
            Mean::Defined(value)
        }
    }

    /// Whether there is no mean.
    pub open spec fn spec_is_undefined(&self) -> bool {
        *self == Mean::Undefined
    }

    /// The mean that a number stands for: none where the number is a NaN.
    #[verifier::when_used_as_spec(spec_of)]
    pub fn of(value: Binary64) -> (r: Mean)
        ensures
            r == Mean::spec_of(value),
    {
        if value.is_nan() {
            Mean::Undefined
        } else {
            Mean::Defined(value)
        }
    }

    /// Whether there is no mean.
    #[verifier::when_used_as_spec(spec_is_undefined)]
    pub fn is_undefined(&self) -> (r: bool)
        ensures
            r == self.spec_is_undefined(),
    {
        match self {
            Mean::Undefined => true,
            Mean::Defined(_) => false,
        }
    }
}

/// The mean of some measurements with the bounds of the two bands around it,
/// as the arithmetic of the one who averaged gave them: `mean` is the sum of
/// the measurements divided by their number, `low` is five less than `mean`
/// and `high` five more. Averaging nothing gives a NaN.
#[derive(Clone, Copy, Debug, PartialEq, Eq, Structural)]
pub struct MeanBand {
    pub low: Binary64,
    pub mean: Binary64,
    pub high: Binary64,
}

impl MeanBand {
    /// Whether `x` lies in the band below the mean: at `low` or above it, and
    /// below `mean`.
    pub open spec fn spec_is_below(&self, x: Binary64) -> bool {
        self.low.le(x) && x.lt(self.mean)
    }

    /// Whether `x` lies in the band above the mean: above `mean`, and at
    /// `high` or below it.
    pub open spec fn spec_is_above(&self, x: Binary64) -> bool {
        self.mean.lt(x) && x.le(self.high)
    }

    /// Whether `x` is equal to the mean.
    pub open spec fn is_at_mean(&self, x: Binary64) -> bool {
        self.mean.le(x) && x.le(self.mean)
    }

    /// Whether `x` lies in the band below the mean.
    #[verifier::when_used_as_spec(spec_is_below)]
    pub fn is_below(&self, x: Binary64) -> (r: bool)
        ensures
            r == self.spec_is_below(x),
    {
        self.low.le(x) && x.lt(self.mean)
    }

    /// Whether `x` lies in the band above the mean.
    #[verifier::when_used_as_spec(spec_is_above)]
    pub fn is_above(&self, x: Binary64) -> (r: bool)
        ensures
            r == self.spec_is_above(x),
    {
        self.mean.lt(x) && x.le(self.high)
    }
}

/// The test of lying in the band below the mean.
pub open spec fn below(band: MeanBand) -> spec_fn(Binary64) -> bool {
    |x: Binary64| band.is_below(x)
}

/// The test of lying in the band above the mean.
pub open spec fn above(band: MeanBand) -> spec_fn(Binary64) -> bool {
    |x: Binary64| band.is_above(x)
}

/// The test of being equal to the mean.
pub open spec fn at_mean(band: MeanBand) -> spec_fn(Binary64) -> bool {
    |x: Binary64| band.is_at_mean(x)
}

/// What the calculator finds: the mean, and the numbers of measurements in
/// the band above it and in the band below it.
#[derive(Clone, Copy, Debug, PartialEq, Eq, Structural)]
pub struct Results {
    pub mean: Mean,
    pub above: usize,
    pub below: usize,
}

/// A measurement lies in one band at most, and one that is equal to the mean
/// lies in neither. So the two counts and the number of measurements at the
/// mean together are no more than the number of measurements.
pub proof fn lemma_bands_are_apart(samples: Seq<Binary64>, band: MeanBand)
    ensures
        samples.filter(below(band)).len() + samples.filter(above(band)).len() + samples.filter(
            at_mean(band),
        ).len() <= samples.len(),
    decreases samples.len(),
{
    reveal(Seq::filter);
    if samples.len() > 0 {
        lemma_bands_are_apart(samples.drop_last(), band);
    }
}

/// Where the mean is a NaN, no measurement lies in either band.
pub proof fn lemma_no_mean_no_counts(samples: Seq<Binary64>, band: MeanBand)
    requires
        band.mean.is_nan(),
    ensures
        samples.filter(below(band)).len() == 0,
        samples.filter(above(band)).len() == 0,
    decreases samples.len(),
{
    reveal(Seq::filter);
    if samples.len() > 0 {
        lemma_no_mean_no_counts(samples.drop_last(), band);
    }
}

/// Computes the results for the given measurements. The mean is undefined
/// where there are no measurements, or where `band.mean` is a NaN; both
/// counts are then zero.
pub fn calculate_results(samples: &[Binary64], band: &MeanBand) -> (r: Results)
    ensures
        r.mean == if samples@.len() == 0 {
            Mean::Undefined
        } else {
            Mean::of(band.mean)
        },
        r.below == samples@.filter(below(*band)).len(),
        r.above == samples@.filter(above(*band)).len(),
        r.mean.is_undefined() ==> r.below == 0 && r.above == 0,
        r.below + r.above + samples@.filter(at_mean(*band)).len() <= samples@.len(),
{
    proof {
        lemma_bands_are_apart(samples@, *band);
    }
    if samples.len() == 0 || band.mean.is_nan() {
        proof {
            if band.mean.is_nan() {
                lemma_no_mean_no_counts(samples@, *band);
            }
        }
        return Results { mean: Mean::Undefined, above: 0, below: 0 };
    }
    let mut below_count: usize = 0;
    let mut above_count: usize = 0;
    let mut i: usize = 0;
    while i < samples.len()
        invariant
            i <= samples.len(),
            below_count == samples@.take(i as int).filter(below(*band)).len(),
            above_count == samples@.take(i as int).filter(above(*band)).len(),
        decreases samples.len() - i,
    {
        let x = samples[i];
        proof {
            let next = samples@.take(i + 1);
            assert(next.drop_last() =~= samples@.take(i as int));
            assert(next.last() == x);
            reveal(Seq::filter);
            lemma_bands_are_apart(next, *band);
        }
        if band.is_below(x) {
            below_count += 1;
        }
        if band.is_above(x) {
            above_count += 1;
        }
        i += 1;
    }
    assert(samples@.take(i as int) =~= samples@);
    Results { mean: Mean::Defined(band.mean), above: above_count, below: below_count }
}

} // verus!
