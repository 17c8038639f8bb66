use perty::modules::activity::{Activity, Estimation};
use perty::modules::pert::Pert;

#[test]
fn activity_new_keeps_fields() {
    let activity = Activity::new(1, "activity 1".to_string(), 6, 10, 15);
    assert_eq!(activity.id, 1);
    assert_eq!(activity.name, "activity 1");
    assert_eq!(
        activity.estimation,
        Estimation {
            optimistic: 6,
            probable: 10,
            pessimistic: 15
        }
    );
}

#[test]
fn weighted_sum_of_estimate() {
    let activity = Activity::new(1, "activity 1".to_string(), 6, 10, 15);
    assert_eq!(activity.estimation.weighted_sum(), 61);
    let extreme = Estimation {
        optimistic: i32::MAX,
        probable: i32::MAX,
        pessimistic: i32::MAX,
    };
    assert_eq!(extreme.weighted_sum(), 6 * i32::MAX as i64);
    let low = Estimation {
        optimistic: i32::MIN,
        probable: i32::MIN,
        pessimistic: i32::MIN,
    };
    assert_eq!(low.weighted_sum(), 6 * i32::MIN as i64);
}

#[test]
fn pert_new_keeps_fields() {
    let pert = Pert::new(3, "example".to_string());
    assert_eq!(pert.id, 3);
    assert_eq!(pert.name, "example");
}
