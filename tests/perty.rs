use perty::modules::activity::{Activity, ActivityId, Estimation};
use perty::modules::github::BoardId;
use perty::modules::pert::{Pert, PertId};
use perty::modules::roadmap::{ActivityWithRelatedDependencies, Roadmap, SchedulingError};
use perty::modules::roadmap_report::{ActivityRow, PhasesRow, RoadmapReport};
use perty::modules::storage::Storage;
use perty::perty::{report_for, roadmap_from_rows, Perty, PertyError};

struct Memory {
    perts: Vec<Pert>,
    activities: Vec<(PertId, Activity)>,
    dependencies: Vec<(ActivityId, ActivityId)>,
    boards: Vec<(PertId, BoardId)>,
    failing: bool,
}

impl Memory {
    fn new() -> Self {
        Memory {
            perts: vec![],
            activities: vec![],
            dependencies: vec![],
            boards: vec![],
            failing: false,
        }
    }
}

impl Storage for Memory {
    fn add_pert(&mut self, name: &str) -> Result<PertId, anyhow::Error> {
        let id = self.perts.len() as PertId + 1;
        self.perts.push(Pert::new(id, name.to_string()));
        Ok(id)
    }

    fn get_pert(&mut self, pert_id: PertId) -> Result<Option<Pert>, anyhow::Error> {
        Ok(self
            .perts
            .iter()
            .find(|p| p.id == pert_id)
            .map(|p| Pert::new(p.id, p.name.clone())))
    }

    fn get_perts(&mut self) -> Result<Vec<Pert>, anyhow::Error> {
        Ok(self
            .perts
            .iter()
            .map(|p| Pert::new(p.id, p.name.clone()))
            .collect())
    }

    fn add_activity(
        &mut self,
        pert_id: PertId,
        name: String,
        estimation: Estimation,
    ) -> Result<(), anyhow::Error> {
        let id = self.activities.len() as ActivityId + 1;
        self.activities.push((
            pert_id,
            Activity::new(
                id,
                name,
                estimation.optimistic,
                estimation.probable,
                estimation.pessimistic,
            ),
        ));
        Ok(())
    }

    fn get_activities(&mut self, pert_id: PertId) -> Result<Vec<Activity>, anyhow::Error> {
        if self.failing {
            return Err(anyhow::Error::msg("storage unavailable"));
        }
        Ok(self
            .activities
            .iter()
            .filter(|(p, _)| *p == pert_id)
            .map(|(_, a)| {
                Activity::new(
                    a.id,
                    a.name.clone(),
                    a.estimation.optimistic,
                    a.estimation.probable,
                    a.estimation.pessimistic,
                )
            })
            .collect())
    }

    fn add_dependency(&mut self, head: ActivityId, tail: ActivityId) -> Result<(), anyhow::Error> {
        self.dependencies.push((head, tail));
        Ok(())
    }

    fn create_board(&mut self, pert_id: PertId, board_id: BoardId) -> Result<(), anyhow::Error> {
        self.boards.push((pert_id, board_id));
        Ok(())
    }

    fn get_activities_with_related_dependencies(
        &mut self,
        pert_id: PertId,
    ) -> Result<Vec<ActivityWithRelatedDependencies>, anyhow::Error> {
        if self.failing {
            return Err(anyhow::Error::msg("storage unavailable"));
        }
        Ok(self
            .activities
            .iter()
            .filter(|(p, _)| *p == pert_id)
            .map(|(_, a)| ActivityWithRelatedDependencies {
                activity_id: a.id,
                head_name: a.name.clone(),
                activity_id_head: self
                    .dependencies
                    .iter()
                    .find(|(_, tail)| *tail == a.id)
                    .map(|(head, _)| *head),
            })
            .collect())
    }
}

fn estimation() -> Estimation {
    Estimation {
        optimistic: 1,
        probable: 2,
        pessimistic: 3,
    }
}

#[test]
fn perty_builds_roadmap_from_storage() {
    let mut perty = Perty::new(Box::new(Memory::new()));
    let pert_id = perty.add_pert("example".to_string()).unwrap();
    perty.add_activity(pert_id, "a".to_string(), estimation()).unwrap();
    perty.add_activity(pert_id, "b".to_string(), estimation()).unwrap();
    perty.add_activity(pert_id, "c".to_string(), estimation()).unwrap();
    perty.add_dependency(1, 2).unwrap();
    perty.add_dependency(2, 3).unwrap();
    let roadmap = perty.get_roadmap(pert_id).unwrap();
    let ids: Vec<Vec<i32>> = roadmap
        .phases
        .iter()
        .map(|p| p.activities.iter().map(|a| a.id).collect())
        .collect();
    assert_eq!(ids, vec![vec![1], vec![2], vec![3]]);

    let report = perty.get_roadmap_reporter(roadmap);
    assert_eq!(report.phases().len(), 3);
    assert_eq!(report.phases()[2].id, 3);
    assert_eq!(report.phases()[2].activities[0].name, "c");
}

#[test]
fn perty_reports_cycle() {
    let mut perty = Perty::new(Box::new(Memory::new()));
    let pert_id = perty.add_pert("example".to_string()).unwrap();
    perty.add_activity(pert_id, "a".to_string(), estimation()).unwrap();
    perty.add_activity(pert_id, "b".to_string(), estimation()).unwrap();
    perty.add_dependency(1, 2).unwrap();
    perty.add_dependency(2, 1).unwrap();
    match perty.get_roadmap(pert_id) {
        Err(PertyError::Scheduling(SchedulingError::UnresolvableDependency { activity_ids })) => {
            assert_eq!(activity_ids, vec![1, 2])
        }
        _ => panic!("expected an unresolvable dependency"),
    }
}

#[test]
fn perty_passes_storage_failure_on() {
    let mut memory = Memory::new();
    memory.failing = true;
    let mut perty = Perty::new(Box::new(memory));
    assert!(matches!(perty.get_roadmap(1), Err(PertyError::Storage(_))));
    assert!(perty.get_activities_reporter(1).is_err());
}

#[test]
fn perty_reporter_for_known_and_unknown_project() {
    let mut perty = Perty::new(Box::new(Memory::new()));
    let pert_id = perty.add_pert("example".to_string()).unwrap();
    perty.add_activity(pert_id, "a".to_string(), estimation()).unwrap();
    let report = perty.get_activities_reporter(pert_id).unwrap().unwrap();
    assert_eq!(report.pert().name, "example");
    assert_eq!(report.activities().len(), 1);
    assert!(perty.get_activities_reporter(42).unwrap().is_none());
    assert_eq!(perty.get_perts().unwrap().len(), 1);
    assert_eq!(perty.get_pert(pert_id).unwrap().unwrap().name, "example");
    assert_eq!(perty.get_activities(pert_id).unwrap()[0].name, "a");
    perty.create_board(pert_id, 5).unwrap();
}

#[test]
fn report_for_missing_project_is_none() {
    assert!(report_for(None, vec![]).is_none());
    let report = report_for(Some(Pert::new(2, "p".to_string())), vec![]).unwrap();
    let (pert, activities) = report.into_parts();
    assert_eq!(pert.id, 2);
    assert!(activities.is_empty());
}

#[test]
fn roadmap_from_rows_cases() {
    let ok = roadmap_from_rows(Ok(vec![ActivityWithRelatedDependencies {
        activity_id: 4,
        head_name: "d".to_string(),
        activity_id_head: None,
    }]))
    .unwrap();
    assert_eq!(ok.phases.len(), 1);
    let bad = roadmap_from_rows(Ok(vec![ActivityWithRelatedDependencies {
        activity_id: 4,
        head_name: "d".to_string(),
        activity_id_head: Some(4),
    }]));
    assert!(matches!(bad, Err(PertyError::Scheduling(_))));
    let failed = roadmap_from_rows(Err(anyhow::Error::msg("down")));
    assert!(matches!(failed, Err(PertyError::Storage(_))));
}

#[test]
fn roadmap_report_numbers_phases_from_one() {
    let roadmap = Roadmap::new(vec![
        ActivityWithRelatedDependencies {
            activity_id: 1,
            head_name: "a".to_string(),
            activity_id_head: None,
        },
        ActivityWithRelatedDependencies {
            activity_id: 2,
            head_name: "b".to_string(),
            activity_id_head: Some(1),
        },
    ])
    .unwrap();
    let report = RoadmapReport::new(roadmap);
    assert_eq!(
        report.phases(),
        &vec![
            PhasesRow {
                id: 1,
                activities: vec![ActivityRow {
                    id: 1,
                    name: "a".to_string()
                }]
            },
            PhasesRow {
                id: 2,
                activities: vec![ActivityRow {
                    id: 2,
                    name: "b".to_string()
                }]
            },
        ]
    );
}
