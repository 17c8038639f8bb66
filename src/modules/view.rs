use vstd::prelude::*;

use crate::modules::activity::Activity;
use crate::modules::pert::Pert;

verus! {

struct PertWithActivities {
    pert: Pert,
    activities: Vec<Activity>,
}

/// A project together with its activities, ready to be shown.
pub struct Report {
    data: PertWithActivities,
}

impl Report {
    /// The project shown.
    pub closed spec fn spec_pert(&self) -> Pert {
        self.data.pert
    }

    /// The activities shown, in their order.
    pub closed spec fn spec_activities(&self) -> Seq<Activity> {
        self.data.activities@
    }

    pub fn new(pert: Pert, activities: Vec<Activity>) -> (r: Self)
        ensures
            r.spec_pert() == pert,
            r.spec_activities() == activities@,
    {
        Self { data: PertWithActivities { pert, activities } }
    }

    pub fn pert(&self) -> (r: &Pert)
        ensures
            *r == self.spec_pert(),
    {
        &self.data.pert
    }

    pub fn activities(&self) -> (r: &Vec<Activity>)
        ensures
            r@ == self.spec_activities(),
    {
        &self.data.activities
    }

    /// Gives up the project and its activities.
    pub fn into_parts(self) -> (r: (Pert, Vec<Activity>))
        ensures
            r.0 == self.spec_pert(),
            r.1@ == self.spec_activities(),
    {
        (self.data.pert, self.data.activities)
    }
}

} // verus!
