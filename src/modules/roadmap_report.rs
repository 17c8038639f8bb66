use vstd::prelude::*;

use crate::modules::activity::ActivityId;
use crate::modules::roadmap::{ActivitySum, Phase, Roadmap};

verus! {

/// An activity as a line of a phase's table.
#[derive(Debug, PartialEq)]
pub struct ActivityRow {
    pub id: ActivityId,
    pub name: String,
}

/// A phase as it is shown: its number, counted from one, and its activities.
#[derive(Debug, PartialEq)]
pub struct PhasesRow {
    pub id: usize,
    pub activities: Vec<ActivityRow>,
}

/// The phases of a roadmap, numbered for display.
pub struct RoadmapReport {
    phases: Vec<PhasesRow>,
}

pub open spec fn activity_row(a: ActivitySum) -> ActivityRow {
    ActivityRow { id: a.id, name: a.name }
}

/// Phase `k` of the roadmap, shown as number `k + 1`.
pub open spec fn phase_row(k: int, phase: Seq<ActivitySum>, row: PhasesRow) -> bool {
    &&& row.id == k + 1
    &&& row.activities@ == phase.map_values(|a: ActivitySum| activity_row(a))
}

impl RoadmapReport {
    /// The phases shown, in order.
    pub closed spec fn spec_phases(&self) -> Seq<PhasesRow> {
        self.phases@
    }

    pub fn new(roadmap: Roadmap) -> (r: Self)
        ensures
            r.spec_phases().len() == roadmap@.len(),
            forall|k: int|
                0 <= k < roadmap@.len() ==> phase_row(k, roadmap@[k], #[trigger] r.spec_phases()[k]),
    {
        let mut phases: Vec<PhasesRow> = Vec::new();
        let mut k: usize = 0;
        while k < roadmap.phases.len()
            invariant
                k <= roadmap.phases.len(),
                phases@.len() == k,
                forall|m: int| 0 <= m < k ==> phase_row(m, roadmap@[m], #[trigger] phases@[m]),
            decreases roadmap.phases.len() - k,
        {
            let activities = activity_rows(&roadmap.phases[k]);
            phases.push(PhasesRow { id: k + 1, activities });
            k += 1;
        }
        Self { phases }
    }

    pub fn phases(&self) -> (r: &Vec<PhasesRow>)
        ensures
            r@ == self.spec_phases(),
    {
        &self.phases
    }
}

fn activity_rows(phase: &Phase) -> (r: Vec<ActivityRow>)
    ensures
        r@ == phase@.map_values(|a: ActivitySum| activity_row(a)),
{
    let mut rows: Vec<ActivityRow> = Vec::new();
    let mut j: usize = 0;
    while j < phase.activities.len()
        invariant
            j <= phase.activities.len(),
            rows@ == phase@.take(j as int).map_values(|a: ActivitySum| activity_row(a)),
        decreases phase.activities.len() - j,
    {
        let a = &phase.activities[j];
        rows.push(ActivityRow { id: a.id, name: a.name.clone() });
        j += 1;
        assert(phase@.take(j as int).map_values(|a: ActivitySum| activity_row(a)) =~= phase@.take(
            j - 1,
        ).map_values(|a: ActivitySum| activity_row(a)).push(activity_row(phase@[j - 1])));
    }
    assert(phase@.take(j as int) =~= phase@);
    rows
}

} // verus!
