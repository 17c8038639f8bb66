use vstd::prelude::*;

use crate::modules::activity::{Activity, ActivityId, Estimation};
use crate::modules::github::BoardId;
use crate::modules::pert::{Pert, PertId};
use crate::modules::roadmap::ActivityWithRelatedDependencies;

verus! {

#[verifier::external_type_specification]
#[verifier::external_body]
pub struct ExAnyhowError(anyhow::Error);

/// Where projects, their activities and the dependencies between activities
/// are kept.
pub trait Storage {
    fn add_pert(&mut self, name: &str) -> Result<PertId, anyhow::Error>;

    fn get_pert(&mut self, pert_id: PertId) -> Result<Option<Pert>, anyhow::Error>;

    fn get_perts(&mut self) -> Result<Vec<Pert>, anyhow::Error>;

    fn add_activity(&mut self, pert_id: PertId, name: String, estimation: Estimation) -> Result<
        (),
        anyhow::Error,
    >;

    fn get_activities(&mut self, pert_id: PertId) -> Result<Vec<Activity>, anyhow::Error>;

    /// Records that `tail` depends on `head`.
    fn add_dependency(&mut self, head: ActivityId, tail: ActivityId) -> Result<(), anyhow::Error>;

    /// Links the project to a project board on GitHub.
    fn create_board(&mut self, pert_id: PertId, board_id: BoardId) -> Result<(), anyhow::Error>;

    /// One row per activity of the project, with the activity it depends on.
    fn get_activities_with_related_dependencies(&mut self, pert_id: PertId) -> Result<
        Vec<ActivityWithRelatedDependencies>,
        anyhow::Error,
    >;
}

} // verus!
