use vstd::prelude::*;

verus! {

pub type ActivityId = i32;

pub type EstimationValue = i32;

/// A three-point estimate of an activity's duration.
#[derive(Debug, PartialEq)]
pub struct Estimation {
    pub optimistic: EstimationValue,
    pub probable: EstimationValue,
    pub pessimistic: EstimationValue,
}

impl Estimation {
    /// Six times the expected duration: `optimistic + 4 * probable + pessimistic`.
    /// The expected duration itself is this value divided by six.
    pub fn weighted_sum(&self) -> (r: i64)
        ensures
            r == self.optimistic + 4 * self.probable + self.pessimistic,
    {
        self.optimistic as i64 + 4 * (self.probable as i64) + self.pessimistic as i64
    }
}

/// A unit of project work with its estimate.
#[derive(Debug, PartialEq)]
pub struct Activity {
    pub id: ActivityId,
    pub name: String,
    pub estimation: Estimation,
}

impl Activity {
    pub fn new(
        id: ActivityId,
        name: String,
        optimistic: EstimationValue,
        probable: EstimationValue,
        pessimistic: EstimationValue,
    ) -> (r: Self)
        ensures
            r.id == id,
            r.name == name,
            r.estimation == (Estimation { optimistic, probable, pessimistic }),
    {
        Self { id, name, estimation: Estimation { optimistic, probable, pessimistic } }
    }
}

} // verus!
