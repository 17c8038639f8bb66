use vstd::prelude::*;

use crate::modules::activity::{Activity, ActivityId, Estimation};
use crate::modules::github::BoardId;
use crate::modules::pert::{Pert, PertId};
use crate::modules::roadmap::{
    schedule, ActivitySum, ActivityWithRelatedDependencies, Roadmap, SchedulingError,
};
use crate::modules::roadmap_report::{phase_row, RoadmapReport};
use crate::modules::storage::Storage;
use crate::modules::view::Report;

verus! {

/// Why a roadmap could not be had.
#[derive(Debug)]
pub enum PertyError {
    /// The storage could not supply the rows.
    Storage(anyhow::Error),
    /// The rows could not be leveled into phases.
    Scheduling(SchedulingError),
}

/// The application's entry point to its projects.
pub struct Perty {
    pub storage: Box<dyn Storage>,
}

/// The report of a project that was found, or none.
pub fn report_for(pert: Option<Pert>, activities: Vec<Activity>) -> (r: Option<Report>)
    ensures
        match pert {
            Some(p) => r matches Some(rep) && rep.spec_pert() == p && rep.spec_activities()
                == activities@,
            None => r is None,
        },
{
    match pert {
        Some(pert) => Some(Report::new(pert, activities)),
        None => None,
    }
}

/// The roadmap of the rows that the storage handed over; its error passes
/// through unchanged.
pub fn roadmap_from_rows(
    fetched: Result<Vec<ActivityWithRelatedDependencies>, anyhow::Error>,
) -> (r: Result<Roadmap, PertyError>)
    ensures
        match fetched {
            Ok(rows) => match schedule(rows@) {
                Ok(phases) => r matches Ok(roadmap) && roadmap@ == phases,
                Err(ids) => r matches Err(PertyError::Scheduling(e)) && e@ == ids,
            },
            Err(e) => r == Err::<Roadmap, PertyError>(PertyError::Storage(e)),
        },
{
    match fetched {
        Ok(rows) => match Roadmap::new(rows) {
            Ok(roadmap) => Ok(roadmap),
            Err(e) => Err(PertyError::Scheduling(e)),
        },
        Err(e) => Err(PertyError::Storage(e)),
    }
}

impl Perty {
    pub fn new(storage: Box<dyn Storage>) -> Self {
        Self { storage }
    }

    pub fn add_pert(&mut self, name: String) -> Result<PertId, anyhow::Error> {
        self.storage.add_pert(name.as_str())
    }

    pub fn get_pert(&mut self, pert_id: PertId) -> Result<Option<Pert>, anyhow::Error> {
        self.storage.get_pert(pert_id)
    }

    pub fn get_perts(&mut self) -> Result<Vec<Pert>, anyhow::Error> {
        self.storage.get_perts()
    }

    pub fn add_activity(&mut self, pert_id: PertId, name: String, estimation: Estimation) -> Result<
        (),
        anyhow::Error,
    > {
        self.storage.add_activity(pert_id, name, estimation)
    }

    /// Records that `tail` depends on `head`.
    pub fn add_dependency(&mut self, head: PertId, tail: PertId) -> Result<(), anyhow::Error> {
        self.storage.add_dependency(head, tail)
    }

    pub fn get_activities(&mut self, pert_id: PertId) -> Result<Vec<Activity>, anyhow::Error> {
        self.storage.get_activities(pert_id)
    }

    /// The project's report, where the project exists. The activities are
    /// fetched first; a failure there ends the call.
    pub fn get_activities_reporter(&mut self, pert_id: PertId) -> (r: Result<
        Option<Report>,
        anyhow::Error,
    >) {
        let activities = match self.get_activities(pert_id) {
            Ok(activities) => activities,
            Err(e) => return Err(e),
        };
        match self.get_pert(pert_id) {
            Ok(pert) => Ok(report_for(pert, activities)),
            Err(e) => Err(e),
        }
    }

    pub fn get_roadmap_reporter(&self, roadmap: Roadmap) -> (r: RoadmapReport)
        ensures
            r.spec_phases().len() == roadmap@.len(),
            forall|k: int|
                0 <= k < roadmap@.len() ==> phase_row(k, roadmap@[k], #[trigger] r.spec_phases()[k]),
    {
        RoadmapReport::new(roadmap)
    }

    /// The roadmap of the project, leveled from the rows that the storage
    /// hands over.
    pub fn get_roadmap(&mut self, pert_id: PertId) -> (r: Result<Roadmap, PertyError>)
        ensures
            r matches Ok(roadmap) ==> exists|rows: Seq<ActivityWithRelatedDependencies>|
                #[trigger] schedule(rows) == Ok::<Seq<Seq<ActivitySum>>, Seq<ActivityId>>(roadmap@),
            r matches Err(PertyError::Scheduling(e)) ==> exists|
                rows: Seq<ActivityWithRelatedDependencies>,
            | #[trigger] schedule(rows) == Err::<Seq<Seq<ActivitySum>>, Seq<ActivityId>>(e@),
    {
        let fetched = self.storage.get_activities_with_related_dependencies(pert_id);
        roadmap_from_rows(fetched)
    }

    pub fn create_board(&mut self, pert_id: PertId, github_board_id: BoardId) -> Result<
        (),
        anyhow::Error,
    > {
        self.storage.create_board(pert_id, github_board_id)
    }
}

} // verus!
